//! Circuits: a number of qubits and an ordered list of Clifford gates, one
//! per time step.

use crate::text::{decimal, push_decimal};
use vstd::prelude::*;
use vstd::string::StringExecFns;

verus! {

/// The single-qubit gates.
#[derive(Copy, Clone, Debug, PartialEq, Eq, Hash, Structural)]
pub enum SingleGate {
    X,
    Y,
    Z,
    H,
    S,
    Sdg,
    I,
}

/// The two-qubit gates, with the qubits they act on.
#[derive(Copy, Clone, Debug, PartialEq, Eq, Hash, Structural)]
pub enum TwoGate {
    CNOT { control: usize, target: usize },
    CZ { control: usize, target: usize },
    SWAP { qubit1: usize, qubit2: usize },
}

/// One gate of a circuit.
#[derive(Debug, PartialEq, Eq, Hash, Structural)]
pub enum Gate {
    Single { qubit: usize, gate: SingleGate },
    Two(TwoGate),
}

impl Clone for Gate {
    fn clone(&self) -> (r: Self)
        ensures
            r == *self,
    {
        match self {
            Gate::Single { qubit, gate } => Gate::Single { qubit: *qubit, gate: *gate },
            Gate::Two(two_gate) => Gate::Two(*two_gate),
        }
    }
}

impl SingleGate {
    /// The name of this gate.
    pub open spec fn name(self) -> Seq<char> {
        match self {
            SingleGate::X => "X"@,
            SingleGate::Y => "Y"@,
            SingleGate::Z => "Z"@,
            SingleGate::H => "H"@,
            SingleGate::S => "S"@,
            SingleGate::Sdg => "Sdg"@,
            SingleGate::I => "I"@,
        }
    }

    /// The name of this gate.
    pub fn as_str(self) -> (r: &'static str)
        ensures
            r@ == self.name(),
    {
        match self {
            SingleGate::X => "X",
            SingleGate::Y => "Y",
            SingleGate::Z => "Z",
            SingleGate::H => "H",
            SingleGate::S => "S",
            SingleGate::Sdg => "Sdg",
            SingleGate::I => "I",
        }
    }
}

impl TwoGate {
    /// The two qubits of this gate, in the order in which it names them.
    pub open spec fn operands(self) -> (usize, usize) {
        match self {
            TwoGate::CNOT { control, target } => (control, target),
            TwoGate::CZ { control, target } => (control, target),
            TwoGate::SWAP { qubit1, qubit2 } => (qubit1, qubit2),
        }
    }

    /// The name of this gate.
    pub open spec fn name(self) -> Seq<char> {
        match self {
            TwoGate::CNOT { .. } => "CNOT"@,
            TwoGate::CZ { .. } => "CZ"@,
            TwoGate::SWAP { .. } => "SWAP"@,
        }
    }

    /// Whether this gate can act on `num_qubits` qubits: both of its qubits
    /// are among them, and a controlled gate does not control itself.
    pub open spec fn applies_to(self, num_qubits: nat) -> bool {
        &&& self.operands().0 < num_qubits
        &&& self.operands().1 < num_qubits
        &&& (self is SWAP || self.operands().0 != self.operands().1)
    }

    /// Tests whether this gate can act on `num_qubits` qubits.
    pub fn can_apply_to(&self, num_qubits: usize) -> (r: bool)
        ensures
            r == self.applies_to(num_qubits as nat),
    {
        match self {
            TwoGate::CNOT { control, target } => *control < num_qubits && *target < num_qubits
                && *control != *target,
            TwoGate::CZ { control, target } => *control < num_qubits && *target < num_qubits
                && *control != *target,
            TwoGate::SWAP { qubit1, qubit2 } => *qubit1 < num_qubits && *qubit2 < num_qubits,
        }
    }
}

impl Gate {
    /// The qubits that this gate touches, in the order in which it names them.
    pub open spec fn touched(self) -> Seq<usize> {
        match self {
            Gate::Single { qubit, .. } => seq![qubit],
            Gate::Two(two) => seq![two.operands().0, two.operands().1],
        }
    }

    /// Whether every qubit of this gate is one of `num_qubits` qubits.
    pub open spec fn in_range(self, num_qubits: nat) -> bool {
        forall|i: int| 0 <= i < self.touched().len() ==> #[trigger] self.touched()[i] < num_qubits
    }

    /// The first qubit of this gate that is none of `num_qubits` qubits, for a
    /// gate that is not in range.
    pub open spec fn first_out_of_range(self, num_qubits: nat) -> usize {
        if self.touched()[0] >= num_qubits {
            self.touched()[0]
        } else {
            self.touched()[1]
        }
    }

    /// Whether this gate can act on `num_qubits` qubits: it is in range, and
    /// a controlled gate does not control itself.
    pub open spec fn applies_to(self, num_qubits: nat) -> bool {
        match self {
            Gate::Single { qubit, .. } => qubit < num_qubits,
            Gate::Two(two) => two.applies_to(num_qubits),
        }
    }

    /// A gate as text: its name and its qubits, as in `H(0)` and
    /// `CNOT(0, 1)`.
    pub open spec fn text(self) -> Seq<char> {
        match self {
            Gate::Single { qubit, gate } => gate.name() + "("@ + decimal(qubit as nat) + ")"@,
            Gate::Two(two) => two.name() + "("@ + decimal(two.operands().0 as nat) + ", "@
                + decimal(two.operands().1 as nat) + ")"@,
        }
    }

    /// The qubits that this gate touches, in the order in which it names them.
    pub fn qubits(&self) -> (r: Vec<usize>)
        ensures
            r@ == self.touched(),
    {
        let mut r: Vec<usize> = Vec::new();
        match self {
            Gate::Single { qubit, .. } => {
                r.push(*qubit);
            },
            Gate::Two(two_gate) => match two_gate {
                TwoGate::CNOT { control, target } | TwoGate::CZ { control, target } => {
                    r.push(*control);
                    r.push(*target);
                },
                TwoGate::SWAP { qubit1, qubit2 } => {
                    r.push(*qubit1);
                    r.push(*qubit2);
                },
            },
        }
        assert(r@ =~= self.touched());
        r
    }

    /// What is to be said against this gate in a circuit of `num_qubits`
    /// qubits: nothing if it is in range, else which of its qubits is the
    /// first that the circuit does not have.
    pub fn range_error(&self, num_qubits: usize) -> (r: Option<String>)
        ensures
            r is None <==> self.in_range(num_qubits as nat),
            r matches Some(e) ==> e@ == out_of_range_error(
                self.first_out_of_range(num_qubits as nat) as nat,
                num_qubits as nat,
            ),
    {
        let qubits = self.qubits();
        let mut i: usize = 0;
        while i < qubits.len()
            invariant
                i <= qubits.len(),
                qubits@ == self.touched(),
                forall|j: int| 0 <= j < i ==> #[trigger] qubits@[j] < num_qubits,
            decreases qubits.len() - i,
        {
            let qubit = qubits[i];
            if qubit >= num_qubits {
                let mut e = String::from_str("Gate acts on qubit ");
                push_decimal(&mut e, qubit);
                e.append(" but circuit has only ");
                push_decimal(&mut e, num_qubits);
                e.append(" qubits");
                return Some(e);
            }
            i += 1;
        }
        None
    }

    /// Tests whether this gate can act on `num_qubits` qubits.
    pub fn can_apply_to(&self, num_qubits: usize) -> (r: bool)
        ensures
            r == self.applies_to(num_qubits as nat),
    {
        match self {
            Gate::Single { qubit, .. } => *qubit < num_qubits,
            Gate::Two(two_gate) => two_gate.can_apply_to(num_qubits),
        }
    }

    /// A gate as text.
    pub fn to_string(&self) -> (r: String)
        ensures
            r@ == self.text(),
    {
        match self {
            Gate::Single { qubit, gate } => {
                let mut out = String::from_str(gate.as_str());
                out.append("(");
                push_decimal(&mut out, *qubit);
                out.append(")");
                out
            },
            Gate::Two(two_gate) => {
                let (name, first, second) = match two_gate {
                    TwoGate::CNOT { control, target } => ("CNOT", *control, *target),
                    TwoGate::CZ { control, target } => ("CZ", *control, *target),
                    TwoGate::SWAP { qubit1, qubit2 } => ("SWAP", *qubit1, *qubit2),
                };
                let mut out = String::from_str(name);
                out.append("(");
                push_decimal(&mut out, first);
                out.append(", ");
                push_decimal(&mut out, second);
                out.append(")");
                out
            },
        }
    }
}

/// What `Circuit::add_gate` reports for a gate that touches `qubit`, which is
/// none of the circuit's `num_qubits` qubits.
pub open spec fn out_of_range_error(qubit: nat, num_qubits: nat) -> Seq<char> {
    "Gate acts on qubit "@ + decimal(qubit) + " but circuit has only "@ + decimal(num_qubits)
        + " qubits"@
}

/// A number of qubits and the gates on them, in the order in which they are
/// applied.
#[derive(Debug, PartialEq, Eq)]
pub struct Circuit {
    /// The number of qubits.
    pub num_qubits: usize,
    /// The gates, one per time step.
    pub gates: Vec<Gate>,
}

impl Clone for Circuit {
    fn clone(&self) -> (r: Self)
        ensures
            r.num_qubits == self.num_qubits,
            r.gates@ == self.gates@,
    {
        let mut gates: Vec<Gate> = Vec::new();
        let mut i: usize = 0;
        while i < self.gates.len()
            invariant
                i <= self.gates.len(),
                gates@ == self.gates@.take(i as int),
            decreases self.gates.len() - i,
        {
            gates.push(self.gates[i].clone());
            assert(self.gates@.take(i + 1) =~= self.gates@.take(i as int).push(self.gates@[i as int]));
            i += 1;
        }
        assert(self.gates@.take(self.gates@.len() as int) =~= self.gates@);
        Circuit { num_qubits: self.num_qubits, gates }
    }
}

impl Circuit {
    /// Every gate touches only qubits of the circuit.
    pub open spec fn wf(&self) -> bool {
        forall|i: int|
            0 <= i < self.gates@.len() ==> (#[trigger] self.gates@[i]).in_range(
                self.num_qubits as nat,
            )
    }

    /// The circuit can be stepped through: it has at most 64 qubits, and
    /// each of its gates can act on them.
    pub open spec fn runnable(&self) -> bool {
        &&& self.num_qubits <= 64
        &&& forall|i: int|
            0 <= i < self.gates@.len() ==> (#[trigger] self.gates@[i]).applies_to(
                self.num_qubits as nat,
            )
    }

    /// The circuit on `num_qubits` qubits without a gate.
    pub fn new(num_qubits: usize) -> (r: Self)
        ensures
            r.num_qubits == num_qubits,
            r.gates@ == Seq::<Gate>::empty(),
            r.wf(),
    {
        Circuit { num_qubits, gates: Vec::new() }
    }

    /// The circuit on `num_qubits` qubits with the given gates, if each of
    /// them touches only qubits of the circuit. Otherwise the error that
    /// `add_gate` reports for the first gate that does not.
    pub fn from_gates(num_qubits: usize, gates: Vec<Gate>) -> (r: Result<Self, String>)
        ensures
            r is Ok <==> forall|i: int|
                0 <= i < gates@.len() ==> (#[trigger] gates@[i]).in_range(num_qubits as nat),
            r matches Ok(c) ==> c.wf() && c.num_qubits == num_qubits && c.gates@ == gates@,
            r matches Err(e) ==> exists|k: int|
                0 <= k < gates@.len() && !(#[trigger] gates@[k]).in_range(num_qubits as nat) && (
                forall|j: int| 0 <= j < k ==> (#[trigger] gates@[j]).in_range(num_qubits as nat))
                    && e@ == out_of_range_error(
                    gates@[k].first_out_of_range(num_qubits as nat) as nat,
                    num_qubits as nat,
                ),
    {
        let mut i: usize = 0;
        while i < gates.len()
            invariant
                i <= gates.len(),
                forall|j: int|
                    0 <= j < i ==> (#[trigger] gates@[j]).in_range(num_qubits as nat),
            decreases gates.len() - i,
        {
            if let Some(e) = gates[i].range_error(num_qubits) {
                return Err(e);
            }
            i += 1;
        }
        Ok(Circuit { num_qubits, gates })
    }

    /// Appends a gate whose qubits are all qubits of the circuit. Any other
    /// gate is rejected, and the circuit stays as it is.
    pub fn add_gate(&mut self, gate: Gate) -> (r: Result<(), String>)
        ensures
            final(self).num_qubits == old(self).num_qubits,
            r is Ok <==> gate.in_range(old(self).num_qubits as nat),
            r is Ok ==> final(self).gates@ == old(self).gates@.push(gate),
            r matches Err(e) ==> final(self).gates@ == old(self).gates@ && e@
                == out_of_range_error(
                gate.first_out_of_range(old(self).num_qubits as nat) as nat,
                old(self).num_qubits as nat,
            ),
            old(self).wf() ==> final(self).wf(),
            old(self).runnable() && gate.applies_to(old(self).num_qubits as nat)
                ==> final(self).runnable(),
    {
        if let Some(e) = gate.range_error(self.num_qubits) {
            return Err(e);
        }
        self.gates.push(gate);
        Ok(())
    }

    /// The gates applied at time step `time`: the one gate at that position
    /// of the list, or none beyond its end.
    pub fn gates_at_time(&self, time: usize) -> (r: Vec<&Gate>)
        ensures
            time < self.gates@.len() ==> r@ == seq![&self.gates@[time as int]],
            time >= self.gates@.len() ==> r@ == Seq::<&Gate>::empty(),
    {
        let mut r: Vec<&Gate> = Vec::new();
        if time < self.gates.len() {
            r.push(&self.gates[time]);
            assert(r@ =~= seq![&self.gates@[time as int]]);
        }
        r
    }

    /// The number of gates, which is the number of time steps.
    pub fn depth(&self) -> (r: usize)
        ensures
            r == self.gates@.len(),
    {
        self.gates.len()
    }

    /// Tests whether the circuit can be stepped through.
    pub fn is_runnable(&self) -> (r: bool)
        ensures
            r == self.runnable(),
    {
        if self.num_qubits > 64 {
            return false;
        }
        let mut i: usize = 0;
        while i < self.gates.len()
            invariant
                i <= self.gates.len(),
                forall|j: int|
                    0 <= j < i ==> (#[trigger] self.gates@[j]).applies_to(self.num_qubits as nat),
            decreases self.gates.len() - i,
        {
            if !self.gates[i].can_apply_to(self.num_qubits) {
                return false;
            }
            i += 1;
        }
        true
    }
}

} // verus!
