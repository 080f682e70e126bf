//! A module whose single mono output is held high while its gate is open
//! and low while it is closed.

use vstd::prelude::*;
use crate::protocol::{unlabeled_terminal, GateState, LineType, Terminal};

verus! {

#[derive(Debug)]
pub struct Trigger {
    params: GateState,
    inputs: Vec<Terminal>,
    outputs: Vec<Terminal>,
}

/// The level a trigger outputs for a gate state.
pub open spec fn trigger_level<S>(gate: GateState, open_level: S, closed_level: S) -> S {
    match gate {
        GateState::Open => open_level,
        GateState::Closed => closed_level,
    }
}

/// A gate state after one event: `Some(q)` is an update to `q`, `None`
/// is a tick, which changes nothing.
pub open spec fn gate_after_event(gate: GateState, event: Option<GateState>) -> GateState {
    match event {
        Some(q) => q,
        None => gate,
    }
}

/// A gate state after a run of events, in order.
pub open spec fn gate_after_events(gate: GateState, events: Seq<Option<GateState>>) -> GateState
    decreases events.len(),
{
    if events.len() == 0 {
        gate
    } else {
        gate_after_event(gate_after_events(gate, events.drop_last()), events.last())
    }
}

/// `i` is the position of the last update among `events`.
pub open spec fn is_last_update(events: Seq<Option<GateState>>, i: int) -> bool {
    &&& 0 <= i < events.len()
    &&& events[i] is Some
    &&& forall|j: int| i < j < events.len() ==> #[trigger] events[j] is None
}

impl Trigger {
    pub closed spec fn gate(&self) -> GateState {
        self.params
    }

    pub closed spec fn input_terminals(&self) -> Seq<Terminal> {
        self.inputs@
    }

    pub closed spec fn output_terminals(&self) -> Seq<Terminal> {
        self.outputs@
    }

    /// A trigger with the given gate, no inputs and one unlabeled mono output.
    pub fn create(params: GateState) -> (r: (Trigger, ()))
        ensures
            r.0.gate() == params,
            r.0.input_terminals() == Seq::<Terminal>::empty(),
            r.0.output_terminals() == seq![unlabeled_terminal(LineType::Mono)],
    {
        let trigger = Trigger { params, inputs: vec![], outputs: vec![LineType::Mono.unlabeled()] };
        assert(trigger.outputs@ =~= seq![unlabeled_terminal(LineType::Mono)]);
        (trigger, ())
    }

    /// The current gate state.
    pub fn params(&self) -> (r: GateState)
        ensures
            r == self.gate(),
    {
        self.params
    }

    /// Sets a new gate state; there is never anything to indicate.
    pub fn update(&mut self, new_params: GateState) -> (r: Option<()>)
        ensures
            r is None,
            final(self).gate() == new_params,
            final(self).input_terminals() == old(self).input_terminals(),
            final(self).output_terminals() == old(self).output_terminals(),
    {
        self.params = new_params;
        None
    }

    /// Writes into every sample of the first output buffer the level of the
    /// gate's state (`open_level` or `closed_level`); every other buffer keeps
    /// its samples, and nothing is indicated.
    pub fn run_tick<S: Copy>(
        &mut self,
        _t: u64,
        _inputs: &[Option<&[S]>],
        outputs: &mut [&mut [S]],
        open_level: S,
        closed_level: S,
    ) -> (r: Option<()>)
        requires
            old(outputs)@.len() > 0,
        ensures
            r is None,
            *final(self) == *old(self),
            final(outputs)@.len() == old(outputs)@.len(),
            final(outputs)@[0]@.len() == old(outputs)@[0]@.len(),
            forall|i: int| 0 <= i < final(outputs)@[0]@.len()
                ==> final(outputs)@[0]@[i] == trigger_level(old(self).gate(), open_level, closed_level),
            forall|k: int| 0 < k < final(outputs)@.len() ==> final(outputs)@[k] == old(outputs)@[k],
    {
        let value = match self.params {
            GateState::Open => open_level,
            GateState::Closed => closed_level,
        };
        let out: &mut [S] = &mut outputs[0];
        let len = out.len();
        let mut i: usize = 0;
        while i < len
            invariant
                len == out@.len(),
                i <= len,
                forall|j: int| 0 <= j < i ==> out@[j] == value,
            decreases len - i,
        {
            out[i] = value;
            i += 1;
        }
        None
    }

    /// The input terminals: none.
    pub fn inputs(&self) -> (r: &[Terminal])
        ensures
            r@ == self.input_terminals(),
    {
        self.inputs.as_slice()
    }

    /// The output terminals: one unlabeled mono output.
    pub fn outputs(&self) -> (r: &[Terminal])
        ensures
            r@ == self.output_terminals(),
    {
        self.outputs.as_slice()
    }
}

/// A trigger's parameters are those of its last update, or those it was
/// created with when it has not been updated; ticks never change them.
pub proof fn law_params_follow_last_update(created: GateState, events: Seq<Option<GateState>>)
    ensures
        (exists|i: int| #[trigger] is_last_update(events, i)) ==> gate_after_events(created, events)
            == events[choose|i: int| #[trigger] is_last_update(events, i)]->0,
        (forall|j: int| 0 <= j < events.len() ==> #[trigger] events[j] is None) ==> gate_after_events(
            created,
            events,
        ) == created,
    decreases events.len(),
{
    if events.len() > 0 {
        let init = events.drop_last();
        law_params_follow_last_update(created, init);
        let n = events.len() - 1;
        if events[n] is None {
            if exists|i: int| #[trigger] is_last_update(events, i) {
                let i = choose|i: int| #[trigger] is_last_update(events, i);
                assert(i < n);
                assert(is_last_update(init, i)) by {
                    assert forall|j: int| i < j < init.len() implies #[trigger] init[j] is None by {
                        assert(init[j] == events[j]);
                    }
                }
                let i2 = choose|i: int| #[trigger] is_last_update(init, i);
                assert(i2 == i) by {
                    if i2 < i {
                        assert(init[i] is None);
                    } else if i2 > i {
                        assert(events[i2] == init[i2]);
                        assert(events[i2] is None);
                    }
                }
            }
            if forall|j: int| 0 <= j < events.len() ==> #[trigger] events[j] is None {
                assert forall|j: int| 0 <= j < init.len() implies #[trigger] init[j] is None by {
                    assert(init[j] == events[j]);
                }
            }
        } else {
            assert(is_last_update(events, n));
            let i = choose|i: int| #[trigger] is_last_update(events, i);
            assert(i == n) by {
                if i < n {
                    assert(events[n] is None);
                }
            }
        }
    }
}

/// `states` are the values of one trigger before and after each of a run of
/// calls, and `events` the calls: `Some(q)` is `update(q)`, `None` is
/// `run_tick`. Each step is what that call's contract states.
pub open spec fn is_run(states: Seq<Trigger>, events: Seq<Option<GateState>>) -> bool {
    &&& states.len() == events.len() + 1
    &&& forall|i: int|
        0 <= i < events.len() ==> match #[trigger] events[i] {
            Some(q) => states[i + 1].gate() == q,
            None => states[i + 1] == states[i],
        }
}

/// Over any run of updates and ticks, a trigger ends with the parameters of
/// the last update, or with those it started with when there was none.
pub proof fn law_run_keeps_last_update(states: Seq<Trigger>, events: Seq<Option<GateState>>)
    requires
        is_run(states, events),
    ensures
        states.last().gate() == gate_after_events(states[0].gate(), events),
        (exists|i: int| #[trigger] is_last_update(events, i)) ==> states.last().gate()
            == events[choose|i: int| #[trigger] is_last_update(events, i)]->0,
        (forall|j: int| 0 <= j < events.len() ==> #[trigger] events[j] is None) ==> states.last().gate()
            == states[0].gate(),
    decreases events.len(),
{
    if events.len() > 0 {
        let n = events.len() - 1;
        let init = states.drop_last();
        assert(is_run(init, events.drop_last())) by {
            assert forall|i: int| 0 <= i < events.drop_last().len() implies match #[trigger] events.drop_last()[i] {
                Some(q) => init[i + 1].gate() == q,
                None => init[i + 1] == init[i],
            } by {
                assert(events.drop_last()[i] == events[i]);
                assert(init[i + 1] == states[i + 1] && init[i] == states[i]);
            }
        }
        law_run_keeps_last_update(init, events.drop_last());
        assert(init.last() == states[n]);
        assert(init[0] == states[0]);
    }
    law_params_follow_last_update(states[0].gate(), events);
}

} // verus!
