//! The stepping simulator: one circuit, the error pattern as it stands now,
//! and the recorded pattern after each gate applied so far.

use crate::physics::circuit::{Circuit, Gate};
use crate::physics::pauli::{PauliModel, PauliString, SinglePauli};
use crate::physics::propagation::{apply_gate, conjugate};
use vstd::prelude::*;

verus! {

/// The error pattern at one point in time.
#[derive(Debug, PartialEq, Eq)]
pub struct Snapshot {
    /// How many gates had been applied.
    pub time: usize,
    /// The pattern at that time.
    pub error_pattern: PauliString,
    /// The position in the circuit of the last gate applied, if there was one.
    pub gate_applied: Option<usize>,
}

impl Clone for Snapshot {
    fn clone(&self) -> (r: Self)
        ensures
            r == *self,
    {
        Snapshot {
            time: self.time,
            error_pattern: self.error_pattern.clone(),
            gate_applied: self.gate_applied,
        }
    }
}

/// A snapshot as mathematics.
pub struct SnapshotModel {
    /// How many gates had been applied.
    pub time: nat,
    /// The pattern at that time.
    pub pattern: PauliModel,
    /// The position in the circuit of the last gate applied, if there was one.
    pub gate_applied: Option<nat>,
}

impl View for Snapshot {
    type V = SnapshotModel;

    open spec fn view(&self) -> SnapshotModel {
        SnapshotModel {
            time: self.time as nat,
            pattern: self.error_pattern@,
            gate_applied: match self.gate_applied {
                Some(g) => Some(g as nat),
                None => None,
            },
        }
    }
}

/// The state of a simulator as mathematics.
pub struct SimulatorModel {
    /// The number of qubits of the circuit.
    pub num_qubits: nat,
    /// The gates of the circuit.
    pub gates: Seq<Gate>,
    /// The error pattern as it stands now.
    pub pattern: PauliModel,
    /// The recorded patterns: entry 0 before any gate, entry `k` after `k` gates.
    pub timeline: Seq<SnapshotModel>,
    /// The number of gates applied so far.
    pub current_time: nat,
}

impl SimulatorModel {
    /// What holds of every state of a simulator.
    pub open spec fn wf(self) -> bool {
        &&& self.num_qubits <= 64
        &&& forall|i: int|
            0 <= i < self.gates.len() ==> (#[trigger] self.gates[i]).applies_to(self.num_qubits)
        &&& self.current_time <= self.gates.len()
        &&& self.timeline.len() == self.current_time + 1
        &&& self.pattern.wf()
        &&& self.pattern.num_qubits() == self.num_qubits
        &&& self.timeline.last().pattern == self.pattern
        &&& forall|i: int|
            0 <= i < self.timeline.len() ==> {
                &&& (#[trigger] self.timeline[i]).time == i
                &&& self.timeline[i].gate_applied == (if i == 0 {
                    None
                } else {
                    Some((i - 1) as nat)
                })
                &&& self.timeline[i].pattern.wf()
                &&& self.timeline[i].pattern.num_qubits() == self.num_qubits
            }
    }

    /// The state before any gate, with no error on any qubit.
    pub open spec fn initial(num_qubits: nat, gates: Seq<Gate>) -> SimulatorModel {
        SimulatorModel {
            num_qubits,
            gates,
            pattern: PauliModel::identity(num_qubits),
            timeline: seq![
                SnapshotModel {
                    time: 0,
                    pattern: PauliModel::identity(num_qubits),
                    gate_applied: None,
                },
            ],
            current_time: 0,
        }
    }

    /// The state after `pauli` was put on qubit `qubit` of the pattern: the
    /// newest snapshot records the new pattern, the older ones stay.
    pub open spec fn inject(self, qubit: int, pauli: SinglePauli) -> SimulatorModel {
        let pattern = self.pattern.with_pauli(qubit, pauli);
        SimulatorModel {
            pattern,
            timeline: self.timeline.update(
                self.timeline.len() - 1,
                SnapshotModel { pattern, ..self.timeline.last() },
            ),
            ..self
        }
    }

    /// Whether a gate is left to apply.
    pub open spec fn can_step_forward(self) -> bool {
        self.current_time < self.gates.len()
    }

    /// Whether a gate was applied that can be taken back.
    pub open spec fn can_step_backward(self) -> bool {
        self.current_time > 0
    }

    /// The state after one step forward: the next gate has acted on the
    /// pattern and a snapshot of the result is recorded. At the end of the
    /// circuit the state stays as it is.
    pub open spec fn step_forward(self) -> SimulatorModel {
        if self.can_step_forward() {
            let pattern = conjugate(self.pattern, self.gates[self.current_time as int]);
            SimulatorModel {
                pattern,
                timeline: self.timeline.push(
                    SnapshotModel {
                        time: self.current_time + 1,
                        pattern,
                        gate_applied: Some(self.current_time),
                    },
                ),
                current_time: self.current_time + 1,
                ..self
            }
        } else {
            self
        }
    }

    /// The state after one step backward: the newest snapshot is dropped and
    /// the pattern is the one that the snapshot before it recorded. Before
    /// the first gate the state stays as it is.
    pub open spec fn step_backward(self) -> SimulatorModel {
        if self.can_step_backward() {
            let timeline = self.timeline.drop_last();
            SimulatorModel {
                pattern: timeline.last().pattern,
                timeline,
                current_time: (self.current_time - 1) as nat,
                ..self
            }
        } else {
            self
        }
    }

    /// The state after `n` steps forward.
    pub open spec fn forward(self, n: nat) -> SimulatorModel
        decreases n,
    {
        if n == 0 {
            self
        } else {
            self.step_forward().forward((n - 1) as nat)
        }
    }

    /// The state after `n` steps backward.
    pub open spec fn backward(self, n: nat) -> SimulatorModel
        decreases n,
    {
        if n == 0 {
            self
        } else {
            self.step_backward().backward((n - 1) as nat)
        }
    }

    /// The state after stepping forward to the end of the circuit.
    pub open spec fn run(self) -> SimulatorModel {
        self.forward((self.gates.len() - self.current_time) as nat)
    }

    /// The initial state of the same circuit.
    pub open spec fn reset(self) -> SimulatorModel {
        SimulatorModel::initial(self.num_qubits, self.gates)
    }
}

/// Steps an error pattern through a circuit, forward and backward.
pub struct Simulator {
    error_pattern: PauliString,
    circuit: Circuit,
    timeline: Vec<Snapshot>,
    current_time: usize,
}

impl View for Simulator {
    type V = SimulatorModel;

    closed spec fn view(&self) -> SimulatorModel {
        SimulatorModel {
            num_qubits: self.circuit.num_qubits as nat,
            gates: self.circuit.gates@,
            pattern: self.error_pattern@,
            timeline: self.timeline@.map_values(|s: Snapshot| s@),
            current_time: self.current_time as nat,
        }
    }
}

impl Simulator {
    /// Each stored pattern keeps to its qubits.
    pub closed spec fn inv(&self) -> bool {
        &&& self.error_pattern.wf()
        &&& forall|i: int|
            0 <= i < self.timeline@.len() ==> (#[trigger] self.timeline@[i]).error_pattern.wf()
    }

    /// What holds of every simulator.
    pub open spec fn wf(&self) -> bool {
        self@.wf() && self.inv()
    }

    /// A simulator at the start of `circuit`, with no error on any qubit.
    pub fn new(circuit: Circuit) -> (r: Self)
        requires
            circuit.runnable(),
        ensures
            r.wf(),
            r@ == SimulatorModel::initial(circuit.num_qubits as nat, circuit.gates@),
            r@.timeline.len() == r@.current_time + 1,
    {
        let num_qubits = circuit.num_qubits;
        let error_pattern = PauliString::new(num_qubits);
        let mut timeline: Vec<Snapshot> = Vec::new();
        timeline.push(Snapshot { time: 0, error_pattern: error_pattern.clone(), gate_applied: None });
        let r = Simulator { error_pattern, circuit, timeline, current_time: 0 };
        proof {
            assert(r@.timeline =~= SimulatorModel::initial(
                circuit.num_qubits as nat,
                circuit.gates@,
            ).timeline);
        }
        r
    }

    /// Puts `pauli` on qubit `qubit` of the pattern as it stands now, and
    /// records the new pattern in the newest snapshot.
    pub fn inject_error(&mut self, qubit: usize, pauli: SinglePauli)
        requires
            old(self).wf(),
            qubit < old(self)@.num_qubits,
        ensures
            final(self).wf(),
            final(self)@ == old(self)@.inject(qubit as int, pauli),
            final(self)@.timeline.len() == final(self)@.current_time + 1,
    {
        self.error_pattern.set_pauli(qubit, pauli);
        let last = self.timeline.len() - 1;
        self.timeline[last].error_pattern = self.error_pattern.clone();
        proof {
            assert(self@.timeline =~= old(self)@.inject(qubit as int, pauli).timeline);
        }
    }

    /// The error pattern as it stands now.
    pub fn error_pattern(&self) -> (r: &PauliString)
        requires
            self.wf(),
        ensures
            r.wf(),
            r@ == self@.pattern,
    {
        &self.error_pattern
    }

    /// The number of gates applied so far.
    pub fn current_time(&self) -> (r: usize)
        ensures
            r == self@.current_time,
    {
        self.current_time
    }

    /// The number of gates of the circuit.
    pub fn depth(&self) -> (r: usize)
        ensures
            r == self@.gates.len(),
    {
        self.circuit.depth()
    }

    /// Applies the next gate of the circuit to the pattern and records the
    /// result. Returns false, and changes nothing, at the end of the circuit.
    pub fn step_forward(&mut self) -> (r: bool)
        requires
            old(self).wf(),
        ensures
            final(self).wf(),
            r == old(self)@.can_step_forward(),
            final(self)@ == old(self)@.step_forward(),
            final(self)@.timeline.len() == final(self)@.current_time + 1,
    {
        if self.current_time >= self.circuit.gates.len() {
            return false;
        }
        let gate = &self.circuit.gates[self.current_time];
        apply_gate(&mut self.error_pattern, gate);
        self.current_time += 1;
        self.timeline.push(
            Snapshot {
                time: self.current_time,
                error_pattern: self.error_pattern.clone(),
                gate_applied: Some(self.current_time - 1),
            },
        );
        proof {
            assert(self@.timeline =~= old(self)@.step_forward().timeline);
        }
        true
    }

    /// Takes the last gate back: drops the newest snapshot and restores the
    /// pattern that the one before it recorded. Returns false, and changes
    /// nothing, before the first gate.
    pub fn step_backward(&mut self) -> (r: bool)
        requires
            old(self).wf(),
        ensures
            final(self).wf(),
            r == old(self)@.can_step_backward(),
            final(self)@ == old(self)@.step_backward(),
            final(self)@.timeline.len() == final(self)@.current_time + 1,
    {
        if self.current_time == 0 {
            return false;
        }
        self.timeline.pop();
        self.current_time -= 1;
        let last = self.timeline.len() - 1;
        self.error_pattern = self.timeline[last].error_pattern.clone();
        proof {
            assert(self@.timeline =~= old(self)@.step_backward().timeline);
        }
        true
    }

    /// Returns to the start of the circuit, with no error on any qubit and
    /// nothing recorded but that.
    pub fn reset(&mut self)
        requires
            old(self).wf(),
        ensures
            final(self).wf(),
            final(self)@ == old(self)@.reset(),
            final(self)@.timeline.len() == final(self)@.current_time + 1,
    {
        self.current_time = 0;
        self.error_pattern = PauliString::new(self.circuit.num_qubits);
        self.timeline.clear();
        self.timeline.push(
            Snapshot { time: 0, error_pattern: self.error_pattern.clone(), gate_applied: None },
        );
        proof {
            assert(self@.timeline =~= old(self)@.reset().timeline);
        }
    }

    /// Steps forward until the end of the circuit.
    pub fn run(&mut self)
        requires
            old(self).wf(),
        ensures
            final(self).wf(),
            final(self)@ == old(self)@.run(),
            final(self)@.current_time == final(self)@.gates.len(),
            final(self)@.timeline.len() == final(self)@.current_time + 1,
    {
        let ghost start = self@;
        let ghost mut done: nat = 0;
        proof {
            lemma_forward_split(start, 0, (start.gates.len() - start.current_time) as nat);
        }
        loop
            invariant
                self.wf(),
                self@.gates == start.gates,
                self@ == start.forward(done),
                self@.current_time == start.current_time + done,
                start.wf(),
                start == old(self)@,
            ensures
                self.wf(),
                self@ == start.run(),
                self@.current_time == self@.gates.len(),
            decreases self@.gates.len() - self@.current_time,
        {
            let ghost before = self@;
            let stepped = self.step_forward();
            if !stepped {
                break ;
            }
            proof {
                lemma_forward_split(start, done, 1);
                assert(before.forward(1) == before.step_forward().forward(0));
                done = done + 1;
            }
        }
    }

    /// The snapshot taken after `time` gates, if the simulator has come that
    /// far.
    pub fn get_snapshot(&self, time: usize) -> (r: Option<&Snapshot>)
        requires
            self.wf(),
        ensures
            r is Some <==> time < self@.timeline.len(),
            r matches Some(snapshot) ==> snapshot@ == self@.timeline[time as int]
                && snapshot.error_pattern.wf(),
    {
        if time < self.timeline.len() {
            Some(&self.timeline[time])
        } else {
            None
        }
    }

    /// The recorded snapshots, oldest first.
    pub fn timeline(&self) -> (r: &[Snapshot])
        requires
            self.wf(),
        ensures
            r@.map_values(|s: Snapshot| s@) == self@.timeline,
            forall|i: int| 0 <= i < r@.len() ==> (#[trigger] r@[i]).error_pattern.wf(),
    {
        self.timeline.as_slice()
    }

    /// The circuit.
    pub fn circuit(&self) -> (r: &Circuit)
        requires
            self.wf(),
        ensures
            r.num_qubits == self@.num_qubits,
            r.gates@ == self@.gates,
            r.runnable(),
    {
        &self.circuit
    }
}

/// Stepping forward `a` times and then `b` times is stepping forward
/// `a + b` times.
pub proof fn lemma_forward_split(s: SimulatorModel, a: nat, b: nat)
    ensures
        s.forward(a).forward(b) == s.forward(a + b),
    decreases a,
{
    if a > 0 {
        lemma_forward_split(s.step_forward(), (a - 1) as nat, b);
    }
}

} // verus!
