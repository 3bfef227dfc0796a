//! Text as sequences of characters: reading the characters of a string,
//! white space, and decimal numbers.

use vstd::prelude::*;
use vstd::std_specs::iter::IteratorSpec;

verus! {

/// `String::push` appends one character to the end of the string.
pub assume_specification[ String::push ](s: &mut String, c: char)
    ensures
        final(s)@ == old(s)@.push(c),
;

/// The characters of `s`, in order.
pub fn chars_of(s: &str) -> (v: Vec<char>)
    ensures
        v@ == s@,
{
    let mut v: Vec<char> = Vec::new();
    let chars = s.chars();
    for c in it: chars
        invariant
            it.seq() == s@,
            v@ == s@.take(it.index() as int),
    {
        v.push(c);
        assert(s@.take(it.index() + 1) =~= s@.take(it.index() as int).push(c));
    }
    assert(s@.take(s@.len() as int) =~= s@);
    v
}

/// Appends the characters `v[from..to]` to `out`.
pub fn push_chars(out: &mut String, v: &Vec<char>, from: usize, to: usize)
    requires
        from <= to <= v.len(),
    ensures
        final(out)@ == old(out)@ + v@.subrange(from as int, to as int),
{
    let mut i: usize = from;
    while i < to
        invariant
            from <= i <= to <= v.len(),
            out@ == old(out)@ + v@.subrange(from as int, i as int),
        decreases to - i,
    {
        out.push(v[i]);
        assert(v@.subrange(from as int, i + 1) =~= v@.subrange(from as int, i as int).push(
            v@[i as int],
        ));
        i += 1;
    }
}

/// White space as Unicode defines it (the property `White_Space`).
pub open spec fn is_space(c: char) -> bool {
    let u = c as u32;
    (0x09 <= u <= 0x0D) || u == 0x20 || u == 0x85 || u == 0xA0 || u == 0x1680 || (0x2000 <= u
        <= 0x200A) || u == 0x2028 || u == 0x2029 || u == 0x202F || u == 0x205F || u == 0x3000
}

/// Tests a character for white space.
pub fn is_whitespace(c: char) -> (r: bool)
    ensures
        r == is_space(c),
{
    let u: u32 = c as u32;
    (0x09 <= u && u <= 0x0D) || u == 0x20 || u == 0x85 || u == 0xA0 || u == 0x1680 || (0x2000
        <= u && u <= 0x200A) || u == 0x2028 || u == 0x2029 || u == 0x202F || u == 0x205F || u
        == 0x3000
}

/// `s` with its white space taken out.
pub open spec fn without_spaces(s: Seq<char>) -> Seq<char>
    decreases s.len(),
{
    if s.len() == 0 {
        Seq::empty()
    } else if is_space(s.last()) {
        without_spaces(s.drop_last())
    } else {
        without_spaces(s.drop_last()).push(s.last())
    }
}

/// The characters of `s` that are not white space, in order.
pub fn strip_spaces(s: &str) -> (v: Vec<char>)
    ensures
        v@ == without_spaces(s@),
{
    let all = chars_of(s);
    let mut v: Vec<char> = Vec::new();
    let mut i: usize = 0;
    while i < all.len()
        invariant
            i <= all.len(),
            all@ == s@,
            v@ == without_spaces(s@.take(i as int)),
        decreases all.len() - i,
    {
        let c = all[i];
        assert(s@.take(i + 1).drop_last() =~= s@.take(i as int));
        if !is_whitespace(c) {
            v.push(c);
        }
        i += 1;
    }
    assert(s@.take(s@.len() as int) =~= s@);
    v
}

/// The character of the decimal digit `d`.
pub open spec fn digit_char(d: int) -> char {
    (('0' as u8) + d) as char
}

/// The decimal numeral of `n`: no sign, no leading zero but for zero itself.
pub open spec fn decimal(n: nat) -> Seq<char>
    decreases n,
{
    if n < 10 {
        seq![digit_char(n as int)]
    } else {
        decimal(n / 10).push(digit_char((n % 10) as int))
    }
}

/// Appends the decimal numeral of `n` to `out`.
pub fn push_decimal(out: &mut String, n: usize)
    ensures
        final(out)@ == old(out)@ + decimal(n as nat),
    decreases n,
{
    if n >= 10 {
        push_decimal(out, n / 10);
    }
    let d: u8 = (n % 10) as u8;
    out.push((('0' as u8) + d) as char);
    assert(out@ =~= old(out)@ + decimal(n as nat));
}

/// The position of the first character of `s` that `pred` holds of, or the
/// length of `s` if there is none.
pub open spec fn first_where(s: Seq<char>, pred: spec_fn(char) -> bool) -> nat
    decreases s.len(),
{
    if s.len() == 0 || pred(s[0]) {
        0
    } else {
        1 + first_where(s.drop_first(), pred)
    }
}

/// `first_where` is the one position before which nothing meets `pred` and
/// at which, unless it is the end, something does.
pub proof fn lemma_first_where(s: Seq<char>, pred: spec_fn(char) -> bool, k: nat)
    requires
        k <= s.len(),
        forall|j: int| 0 <= j < k ==> !pred(#[trigger] s[j]),
        k < s.len() ==> pred(s[k as int]),
    ensures
        first_where(s, pred) == k,
    decreases s.len(),
{
    if k > 0 {
        let rest = s.drop_first();
        assert forall|j: int| 0 <= j < k - 1 implies !pred(#[trigger] rest[j]) by {
            assert(rest[j] == s[j + 1]);
        }
        lemma_first_where(rest, pred, (k - 1) as nat);
    }
}

/// `first_where` lies within the sequence; nothing before it meets `pred`,
/// and what stands at it does.
pub proof fn lemma_first_where_is_first(s: Seq<char>, pred: spec_fn(char) -> bool)
    ensures
        first_where(s, pred) <= s.len(),
        forall|j: int| 0 <= j < first_where(s, pred) ==> !pred(#[trigger] s[j]),
        first_where(s, pred) < s.len() ==> pred(s[first_where(s, pred) as int]),
    decreases s.len(),
{
    if s.len() > 0 && !pred(s[0]) {
        let rest = s.drop_first();
        lemma_first_where_is_first(rest, pred);
        assert forall|j: int| 0 <= j < first_where(s, pred) implies !pred(#[trigger] s[j]) by {
            if j > 0 {
                assert(s[j] == rest[j - 1]);
            }
        }
    }
}

/// The position of the first `c` in `s`, or the length of `s`.
pub open spec fn position(s: Seq<char>, c: char) -> nat
    decreases s.len(),
{
    if s.len() == 0 || s[0] == c {
        0
    } else {
        1 + position(s.drop_first(), c)
    }
}

/// `position` is the one place before which there is no `c` and at which,
/// unless it is the end, there is one.
pub proof fn lemma_position(s: Seq<char>, c: char, k: nat)
    requires
        k <= s.len(),
        forall|j: int| 0 <= j < k ==> #[trigger] s[j] != c,
        k < s.len() ==> s[k as int] == c,
    ensures
        position(s, c) == k,
    decreases s.len(),
{
    if k > 0 {
        let rest = s.drop_first();
        assert forall|j: int| 0 <= j < k - 1 implies #[trigger] rest[j] != c by {
            assert(rest[j] == s[j + 1]);
        }
        lemma_position(rest, c, (k - 1) as nat);
    }
}

/// `position` lies within the sequence; there is no `c` before it, and one
/// at it.
pub proof fn lemma_position_is_first(s: Seq<char>, c: char)
    ensures
        position(s, c) <= s.len(),
        forall|j: int| 0 <= j < position(s, c) ==> #[trigger] s[j] != c,
        position(s, c) < s.len() ==> s[position(s, c) as int] == c,
    decreases s.len(),
{
    if s.len() > 0 && s[0] != c {
        let rest = s.drop_first();
        lemma_position_is_first(rest, c);
        assert forall|j: int| 0 <= j < position(s, c) implies #[trigger] s[j] != c by {
            if j > 0 {
                assert(s[j] == rest[j - 1]);
            }
        }
    }
}

/// The position of the first white space in `s`, or the length of `s`.
pub open spec fn first_space(s: Seq<char>) -> nat {
    first_where(s, |x: char| is_space(x))
}

/// The number of white-space characters that `s` begins with.
pub open spec fn leading_spaces(s: Seq<char>) -> nat {
    first_where(s, |x: char| !is_space(x))
}

/// The length of `s` without the white space that it ends with.
pub open spec fn length_before_trailing_spaces(s: Seq<char>) -> nat
    decreases s.len(),
{
    if s.len() == 0 || !is_space(s.last()) {
        s.len()
    } else {
        length_before_trailing_spaces(s.drop_last())
    }
}

/// `first_space` is the one position before which there is no white space
/// and at which, unless it is the end, there is some.
pub proof fn lemma_first_space(s: Seq<char>, k: nat)
    requires
        k <= s.len(),
        forall|j: int| 0 <= j < k ==> !is_space(#[trigger] s[j]),
        k < s.len() ==> is_space(s[k as int]),
    ensures
        first_space(s) == k,
{
    lemma_first_where(s, |x: char| is_space(x), k);
}

/// `leading_spaces` is the one position before which there is white space
/// only and at which, unless it is the end, there is none.
pub proof fn lemma_leading_spaces(s: Seq<char>, k: nat)
    requires
        k <= s.len(),
        forall|j: int| 0 <= j < k ==> is_space(#[trigger] s[j]),
        k < s.len() ==> !is_space(s[k as int]),
    ensures
        leading_spaces(s) == k,
{
    lemma_first_where(s, |x: char| !is_space(x), k);
}

/// `s` without the white space at its start.
pub open spec fn trim_start(s: Seq<char>) -> Seq<char> {
    s.skip(leading_spaces(s) as int)
}

/// `s` without the white space at its end.
pub open spec fn trim_end(s: Seq<char>) -> Seq<char> {
    s.take(length_before_trailing_spaces(s) as int)
}

/// `s` without the white space at its start and at its end.
pub open spec fn trim(s: Seq<char>) -> Seq<char> {
    trim_end(trim_start(s))
}

/// Whether `s` begins with `prefix`.
pub open spec fn starts_with(s: Seq<char>, prefix: Seq<char>) -> bool {
    prefix.len() <= s.len() && s.take(prefix.len() as int) == prefix
}

/// `length_before_trailing_spaces` is the one position from which there is
/// white space only and before which, unless it is the start, there is none.
proof fn lemma_length_before_trailing_spaces(s: Seq<char>, k: nat)
    requires
        k <= s.len(),
        forall|j: int| k <= j < s.len() ==> is_space(#[trigger] s[j]),
        k > 0 ==> !is_space(s[k - 1]),
    ensures
        length_before_trailing_spaces(s) == k,
    decreases s.len(),
{
    if k < s.len() {
        let rest = s.drop_last();
        assert forall|j: int| k <= j < rest.len() implies is_space(#[trigger] rest[j]) by {
            assert(rest[j] == s[j]);
        }
        lemma_length_before_trailing_spaces(rest, k);
    }
}

/// The position of the first `c` in `v[from..to]`, or `to` if there is none.
pub fn find_char(v: &Vec<char>, from: usize, to: usize, c: char) -> (r: usize)
    requires
        from <= to <= v.len(),
    ensures
        from <= r <= to,
        r - from == position(v@.subrange(from as int, to as int), c),
        r < to ==> v@[r as int] == c,
{
    let mut i: usize = from;
    while i < to && v[i] != c
        invariant
            from <= i <= to <= v.len(),
            forall|j: int| from <= j < i ==> v@[j] != c,
        decreases to - i,
    {
        i += 1;
    }
    proof {
        lemma_position(v@.subrange(from as int, to as int), c, (i - from) as nat);
    }
    i
}

/// The position of the first white space in `v[from..to]`, or `to`.
pub fn find_space(v: &Vec<char>, from: usize, to: usize) -> (r: usize)
    requires
        from <= to <= v.len(),
    ensures
        from <= r <= to,
        r - from == first_space(v@.subrange(from as int, to as int)),
{
    let mut i: usize = from;
    while i < to && !is_whitespace(v[i])
        invariant
            from <= i <= to <= v.len(),
            forall|j: int| from <= j < i ==> !is_space(v@[j]),
        decreases to - i,
    {
        i += 1;
    }
    proof {
        lemma_first_space(v@.subrange(from as int, to as int), (i - from) as nat);
    }
    i
}

/// The position of the first character of `v[from..to]` that is no white
/// space, or `to`.
pub fn skip_spaces(v: &Vec<char>, from: usize, to: usize) -> (r: usize)
    requires
        from <= to <= v.len(),
    ensures
        from <= r <= to,
        r - from == leading_spaces(v@.subrange(from as int, to as int)),
        v@.subrange(r as int, to as int) == trim_start(v@.subrange(from as int, to as int)),
{
    let mut i: usize = from;
    while i < to && is_whitespace(v[i])
        invariant
            from <= i <= to <= v.len(),
            forall|j: int| from <= j < i ==> is_space(v@[j]),
        decreases to - i,
    {
        i += 1;
    }
    proof {
        let s = v@.subrange(from as int, to as int);
        lemma_leading_spaces(s, (i - from) as nat);
        assert(v@.subrange(i as int, to as int) =~= s.skip(i - from));
    }
    i
}

/// The bounds of `v[from..to]` without the white space at its two ends.
pub fn trim_range(v: &Vec<char>, from: usize, to: usize) -> (r: (usize, usize))
    requires
        from <= to <= v.len(),
    ensures
        from <= r.0 <= r.1 <= to,
        v@.subrange(r.0 as int, r.1 as int) == trim(v@.subrange(from as int, to as int)),
{
    let start = skip_spaces(v, from, to);
    let mut end: usize = to;
    while end > start && is_whitespace(v[end - 1])
        invariant
            start <= end <= to <= v.len(),
            forall|j: int| end <= j < to ==> is_space(v@[j]),
        decreases end,
    {
        end -= 1;
    }
    proof {
        let t = v@.subrange(start as int, to as int);
        lemma_length_before_trailing_spaces(t, (end - start) as nat);
        assert(v@.subrange(start as int, end as int) =~= t.take(end - start));
    }
    (start, end)
}

/// Whether `v[from..to]` begins with `prefix`.
pub fn range_starts_with(v: &Vec<char>, from: usize, to: usize, prefix: &str) -> (r: bool)
    requires
        from <= to <= v.len(),
    ensures
        r == starts_with(v@.subrange(from as int, to as int), prefix@),
{
    let p = chars_of(prefix);
    if p.len() > to - from {
        return false;
    }
    let ghost s = v@.subrange(from as int, to as int);
    let mut i: usize = 0;
    while i < p.len()
        invariant
            i <= p.len() <= to - from,
            from <= to <= v.len(),
            p@ == prefix@,
            s == v@.subrange(from as int, to as int),
            forall|j: int| 0 <= j < i ==> s[j] == p@[j],
        decreases p.len() - i,
    {
        if v[from + i] != p[i] {
            assert(s.take(p.len() as int)[i as int] != p@[i as int]);
            return false;
        }
        i += 1;
    }
    assert(s.take(p.len() as int) =~= p@);
    true
}

/// Whether `v[from..to]` is the text `word`.
pub fn range_is(v: &Vec<char>, from: usize, to: usize, word: &str) -> (r: bool)
    requires
        from <= to <= v.len(),
    ensures
        r == (v@.subrange(from as int, to as int) == word@),
{
    let p = chars_of(word);
    if p.len() != to - from {
        return false;
    }
    let starts = range_starts_with(v, from, to, word);
    proof {
        let s = v@.subrange(from as int, to as int);
        assert(s.take(s.len() as int) =~= s);
    }
    starts
}

/// The lower-case letter of an upper-case ASCII letter; any other character
/// as it is.
pub open spec fn lower_char(c: char) -> char {
    if 'A' <= c <= 'Z' {
        ((c as u8) + 32) as char
    } else {
        c
    }
}

/// `s` with its upper-case ASCII letters in lower case.
pub open spec fn ascii_lower(s: Seq<char>) -> Seq<char> {
    Seq::new(s.len(), |i: int| lower_char(s[i]))
}

/// `v[from..to]` with its upper-case ASCII letters in lower case.
pub fn lowered(v: &Vec<char>, from: usize, to: usize) -> (r: Vec<char>)
    requires
        from <= to <= v.len(),
    ensures
        r@ == ascii_lower(v@.subrange(from as int, to as int)),
{
    let mut r: Vec<char> = Vec::new();
    let mut i: usize = from;
    while i < to
        invariant
            from <= i <= to <= v.len(),
            r@.len() == i - from,
            forall|j: int| 0 <= j < i - from ==> r@[j] == lower_char(v@[from + j]),
        decreases to - i,
    {
        let c = v[i];
        if 'A' <= c && c <= 'Z' {
            r.push(((c as u8) + 32) as char);
        } else {
            r.push(c);
        }
        i += 1;
    }
    assert(r@ =~= ascii_lower(v@.subrange(from as int, to as int)));
    r
}

/// Whether `c` is one of the ten decimal digits.
pub open spec fn is_digit(c: char) -> bool {
    '0' <= c <= '9'
}

/// Whether `s` holds decimal digits only.
pub open spec fn all_digits(s: Seq<char>) -> bool {
    forall|i: int| 0 <= i < s.len() ==> is_digit(#[trigger] s[i])
}

/// The number that the digit `c` stands for.
pub open spec fn digit_value(c: char) -> nat {
    ((c as u32) - ('0' as u32)) as nat
}

/// The number that a sequence of decimal digits stands for.
pub open spec fn digits_value(s: Seq<char>) -> nat
    decreases s.len(),
{
    if s.len() == 0 {
        0
    } else {
        10 * digits_value(s.drop_last()) + digit_value(s.last())
    }
}

/// The number that `s` is a numeral of: an optional `+` and then one decimal
/// digit or more, with a value that a `usize` can hold. Anything else is no
/// numeral.
pub open spec fn parse_unsigned(s: Seq<char>) -> Option<usize> {
    let digits = if s.len() > 0 && s[0] == '+' {
        s.skip(1)
    } else {
        s
    };
    if digits.len() > 0 && all_digits(digits) && digits_value(digits) <= usize::MAX {
        Some(digits_value(digits) as usize)
    } else {
        None
    }
}

/// The value of a sequence of digits is at least that of each part it
/// begins with.
proof fn lemma_digits_value_grows(s: Seq<char>, k: int)
    requires
        0 <= k <= s.len(),
    ensures
        digits_value(s.take(k)) <= digits_value(s),
    decreases s.len() - k,
{
    if k < s.len() {
        assert(s.take(k + 1).drop_last() =~= s.take(k));
        lemma_digits_value_grows(s, k + 1);
    } else {
        assert(s.take(k) =~= s);
    }
}

/// Reads `v[from..to]` as a sequence of decimal digits, if it is one and its
/// value fits.
pub fn parse_digits(v: &Vec<char>, from: usize, to: usize) -> (r: Option<usize>)
    requires
        from <= to <= v.len(),
    ensures
        ({
            let s = v@.subrange(from as int, to as int);
            r == (if s.len() > 0 && all_digits(s) && digits_value(s) <= usize::MAX {
                Some(digits_value(s) as usize)
            } else {
                None
            })
        }),
{
    let ghost s = v@.subrange(from as int, to as int);
    if from == to {
        return None;
    }
    let mut value: usize = 0;
    let mut i: usize = from;
    while i < to
        invariant
            from <= i <= to <= v.len(),
            s == v@.subrange(from as int, to as int),
            all_digits(s.take(i - from)),
            value == digits_value(s.take(i - from)),
        decreases to - i,
    {
        let c = v[i];
        proof {
            assert(s.take(i - from + 1).drop_last() =~= s.take(i - from));
            assert(s.take(i - from + 1).last() == c);
        }
        if !('0' <= c && c <= '9') {
            assert(!is_digit(s[i - from]));
            return None;
        }
        let d: usize = ((c as u32) - ('0' as u32)) as usize;
        if value > (usize::MAX - d) / 10 {
            proof {
                lemma_digits_value_grows(s, i - from + 1);
            }
            return None;
        }
        value = value * 10 + d;
        i += 1;
        assert(all_digits(s.take(i - from))) by {
            assert forall|j: int| 0 <= j < i - from implies is_digit(
                #[trigger] s.take(i - from)[j],
            ) by {
                if j < i - from - 1 {
                    assert(s.take(i - from)[j] == s.take(i - from - 1)[j]);
                }
            }
        }
    }
    assert(s.take(to - from) =~= s);
    Some(value)
}

/// Reads `v[from..to]` as a numeral: an optional `+`, then decimal digits.
pub fn parse_number(v: &Vec<char>, from: usize, to: usize) -> (r: Option<usize>)
    requires
        from <= to <= v.len(),
    ensures
        r == parse_unsigned(v@.subrange(from as int, to as int)),
{
    let ghost s = v@.subrange(from as int, to as int);
    if from < to && v[from] == '+' {
        assert(v@.subrange(from + 1, to as int) =~= s.skip(1));
        parse_digits(v, from + 1, to)
    } else {
        parse_digits(v, from, to)
    }
}

/// The first word of `s`: what stands between the white space that `s`
/// begins with and the next white space. Empty if `s` holds white space only.
pub open spec fn first_word(s: Seq<char>) -> Seq<char> {
    trim_start(s).take(first_space(trim_start(s)) as int)
}

/// What follows the first word of `s`.
pub open spec fn after_first_word(s: Seq<char>) -> Seq<char> {
    trim_start(s).skip(first_space(trim_start(s)) as int)
}

/// The second word of `s`, empty if it has none.
pub open spec fn second_word(s: Seq<char>) -> Seq<char> {
    first_word(after_first_word(s))
}

/// The bounds of the first word of `v[from..to]`.
pub fn word_range(v: &Vec<char>, from: usize, to: usize) -> (r: (usize, usize))
    requires
        from <= to <= v.len(),
    ensures
        from <= r.0 <= r.1 <= to,
        v@.subrange(r.0 as int, r.1 as int) == first_word(v@.subrange(from as int, to as int)),
        v@.subrange(r.1 as int, to as int) == after_first_word(
            v@.subrange(from as int, to as int),
        ),
{
    let start = skip_spaces(v, from, to);
    let end = find_space(v, start, to);
    proof {
        let t = v@.subrange(start as int, to as int);
        assert(v@.subrange(start as int, end as int) =~= t.take(end - start));
        assert(v@.subrange(end as int, to as int) =~= t.skip(end - start));
    }
    (start, end)
}

/// The pieces of `s` between its commas, in order: one more than it has
/// commas.
pub open spec fn split_commas(s: Seq<char>) -> Seq<Seq<char>>
    decreases s.len(),
{
    let k = position(s, ',');
    if k >= s.len() {
        seq![s]
    } else {
        seq![s.take(k as int)] + split_commas(s.skip(k as int + 1))
    }
}

/// Each split has one piece at least.
pub proof fn lemma_split_commas_len(s: Seq<char>)
    ensures
        split_commas(s).len() >= 1,
    decreases s.len(),
{
    let k = position(s, ',');
    if k < s.len() {
        lemma_split_commas_len(s.skip(k as int + 1));
    }
}

/// The character of a digit is a digit, and stands for it.
pub proof fn lemma_digit_char(d: int)
    requires
        0 <= d < 10,
    ensures
        is_digit(digit_char(d)),
        digit_value(digit_char(d)) == d,
        digit_char(d) as u32 == 48 + d,
{
    assert('0' as u8 == 48);
    assert('0' as u32 == 48);
    assert('9' as u32 == 57);
    let code: u8 = (48 + d) as u8;
    assert((code as char) as u32 == code as u32);
}

/// A decimal numeral holds digits only, one at least, and stands for its
/// number.
pub proof fn lemma_decimal_digits(n: nat)
    ensures
        decimal(n).len() >= 1,
        all_digits(decimal(n)),
        digits_value(decimal(n)) == n,
    decreases n,
{
    if n >= 10 {
        lemma_decimal_digits(n / 10);
        lemma_digit_char((n % 10) as int);
        assert(decimal(n).drop_last() =~= decimal(n / 10));
        assert(decimal(n).last() == digit_char((n % 10) as int));
        assert(digits_value(decimal(n)) == 10 * digits_value(decimal(n / 10)) + (n % 10));
    } else {
        lemma_digit_char(n as int);
        assert(decimal(n).drop_last() =~= Seq::<char>::empty());
        assert(decimal(n).last() == digit_char(n as int));
        assert(digits_value(decimal(n).drop_last()) == 0);
        assert(digits_value(decimal(n)) == n);
    }
}

/// Reading a decimal numeral gives its number back.
pub proof fn lemma_parse_decimal(n: usize)
    ensures
        parse_unsigned(decimal(n as nat)) == Some(n),
{
    lemma_decimal_digits(n as nat);
}

} // verus!
