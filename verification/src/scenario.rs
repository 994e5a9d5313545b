//! A scenario: a model state driven step by step by a behavior.

use vstd::prelude::*;
use crate::behavior::{steps_to, tick_end, tick_steps, tick_trace, Behavior, TickError};
use crate::machine::Machine;

verus! {

/// Why a step of a scenario failed.
#[derive(Debug)]
pub enum ScenarioError<ME, BE> {
    /// The model refused a proposed action.
    Model(ME),
    /// The behavior failed.
    Behavior(BE),
    /// The model's machine is not defined on a proposed action.
    NotAdmissible,
    /// An earlier step failed, so the scenario has no state to go on from.
    Finished,
}

/// The error of a scenario step that a tick fails with.
pub open spec fn scenario_error<ME, BE>(e: TickError<ME, BE>) -> ScenarioError<ME, BE> {
    match e {
        TickError::Model(x) => ScenarioError::Model(x),
        TickError::Behavior(x) => ScenarioError::Behavior(x),
        TickError::NotAdmissible => ScenarioError::NotAdmissible,
    }
}

/// An initial model state and a behavior that produces actions to take
/// the model from state to state.
pub struct Scenario<B: Behavior> {
    model: B::Model,
    state: Option<<B::Model as Machine>::State>,
    initial_state: <B::Model as Machine>::State,
    behavior: B,
    steps: usize,
}

impl<B: Behavior> Scenario<B> where <B::Model as Machine>::State: Clone, <B::Model as Machine>::Action: Clone {
    /// The current model state, or `None` once a step has failed.
    pub closed spec fn current(&self) -> Option<<B::Model as Machine>::State> {
        self.state
    }

    /// The state the scenario starts from.
    pub closed spec fn start(&self) -> <B::Model as Machine>::State {
        self.initial_state
    }

    /// The model.
    pub closed spec fn machine(&self) -> B::Model {
        self.model
    }

    /// The behavior.
    pub closed spec fn driver(&self) -> B {
        self.behavior
    }

    /// The number of steps taken.
    pub closed spec fn step_count(&self) -> usize {
        self.steps
    }

    /// A scenario of `model` from `initial_state`, driven by `behavior`.
    pub fn initial(model: B::Model, initial_state: <B::Model as Machine>::State, behavior: B) -> (s: Self)
        ensures
            s.machine() == model,
            s.start() == initial_state,
            s.current() matches Some(x) && cloned(initial_state, x),
            s.driver() == behavior,
            s.step_count() == 0,
    {
        let state = initial_state.clone();
        Scenario { model, state: Some(state), initial_state, behavior, steps: 0 }
    }

    /// Bring the scenario back to its initial state.
    pub fn reset(&mut self)
        ensures
            final(self).machine() == old(self).machine(),
            final(self).start() == old(self).start(),
            final(self).current() matches Some(x) && cloned(old(self).start(), x),
            final(self).driver() == old(self).driver(),
            final(self).step_count() == 0,
    {
        self.state = Some(self.initial_state.clone());
        self.steps = 0;
    }

    /// Advance the scenario by one step: the behavior proposes actions,
    /// each is applied in turn (a clone of it) to the model, and the effects
    /// of each are handed to the behavior with the state that transition
    /// produced. On success the proposed actions are returned and the step
    /// count goes up by one; effects the behavior leaves unhandled are
    /// dropped. When the behavior or the model fails, that error is returned,
    /// the step count stays, and the scenario has no state: every later step
    /// fails with `Finished` without asking the behavior.
    pub fn advance(&mut self) -> (r: Result<Vec<<B::Model as Machine>::Action>, ScenarioError<<B::Model as Machine>::Error, B::Error>>)
        requires
            old(self).current() is Some ==> old(self).step_count() < usize::MAX,
        ensures
            final(self).machine() == old(self).machine(),
            final(self).start() == old(self).start(),
            old(self).current() is None ==> (r matches Err(ScenarioError::Finished) && final(self).current() is None
                && final(self).driver() == old(self).driver() && final(self).step_count() == old(self).step_count()),
            old(self).current() is Some ==> exists|
                proposed: Result<Vec<<B::Model as Machine>::Action>, B::Error>,
                applied: Seq<<B::Model as Machine>::Action>,
                states: Seq<<B::Model as Machine>::State>,
                fxs: Seq<<B::Model as Machine>::Fx>,
                behs: Seq<B>,
                outs: Seq<Option<<B::Model as Machine>::Fx>>,
                b_end: B,
                err: Option<TickError<<B::Model as Machine>::Error, B::Error>>,
            |
                #![trigger tick_trace(old(self).machine(), old(self).driver(), old(self).current()->Some_0, proposed, applied, states, fxs, behs, outs, b_end, err)]
                {
                    &&& tick_trace(old(self).machine(), old(self).driver(), old(self).current()->Some_0, proposed, applied, states, fxs, behs, outs, b_end, err)
                    &&& (proposed matches Ok(actions) ==> applied.len() <= actions@.len() && forall|i: int|
                        0 <= i < applied.len() ==> cloned(actions@[i], #[trigger] applied[i]))
                    &&& final(self).driver() == b_end
                    &&& match r {
                        Ok(actions) => err is None && proposed == Ok::<Vec<<B::Model as Machine>::Action>, B::Error>(actions)
                            && final(self).current() == Some(states.last())
                            && final(self).step_count() == old(self).step_count() + 1,
                        Err(e) => (err matches Some(te) && e == scenario_error(te)) && final(self).current() is None
                            && final(self).step_count() == old(self).step_count(),
                    }
                },
    {
        let state = match self.state.take() {
            Some(s) => s,
            None => {
                return Err(ScenarioError::Finished);
            },
        };
        let ghost m = self.model;
        let ghost s0 = state;
        let ghost b0 = self.behavior;
        let proposed = self.behavior.next_tick(&state);
        let ghost gp = proposed;
        let ghost b1 = self.behavior;
        let actions = match proposed {
            Ok(a) => a,
            Err(e) => {
                let ghost err = TickError::<<B::Model as Machine>::Error, B::Error>::Behavior(e);
                proof {
                    let st = seq![s0];
                    let bs = seq![b1];
                    assert(tick_steps(m, Seq::empty(), st, Seq::empty(), bs, Seq::empty()));
                    assert(m == old(self).machine() && b0 == old(self).driver() && s0 == old(self).current()->Some_0);
                    assert(tick_trace(old(self).machine(), old(self).driver(), old(self).current()->Some_0, gp, Seq::empty(), st, Seq::empty(), bs, Seq::empty(), b1, Some(err)));
                }
                return Err(ScenarioError::Behavior(e));
            },
        };
        let ghost all = actions@;
        let mut cur = state;
        let ghost mut applied: Seq<<B::Model as Machine>::Action> = Seq::empty();
        let ghost mut states: Seq<<B::Model as Machine>::State> = seq![s0];
        let ghost mut fxs: Seq<<B::Model as Machine>::Fx> = Seq::empty();
        let ghost mut behs: Seq<B> = seq![b1];
        let ghost mut outs: Seq<Option<<B::Model as Machine>::Fx>> = Seq::empty();
        let mut i: usize = 0;
        while i < actions.len()
            invariant
                self.state is None,
                self.model == old(self).model,
                m == self.model,
                self.initial_state == old(self).initial_state,
                self.steps == old(self).steps,
                old(self).state == Some(s0),
                b0 == old(self).behavior,
                gp matches Ok(v) && v@ == all,
                all == actions@,
                b0.next_tick_spec(s0, b1, gp),
                i == outs.len(),
                i <= all.len(),
                applied.len() == i,
                forall|j: int| 0 <= j < i ==> cloned(all[j], #[trigger] applied[j]),
                tick_steps(m, applied, states, fxs, behs, outs),
                states[0] == s0,
                behs[0] == b1,
                states.last() == cur,
                behs.last() == self.behavior,
            decreases actions.len() - i,
        {
            let action = actions[i].clone();
            let ghost a = action;
            let ghost a2 = applied.push(a);
            proof {
                assert(a2.last() == a);
                assert forall|j: int| 0 <= j < i + 1 implies cloned(all[j], #[trigger] a2[j]) by {
                    if j < i {
                        assert(a2[j] == applied[j]);
                    }
                }
                assert(tick_steps(m, a2, states, fxs, behs, outs)) by {
                    assert forall|j: int| 0 <= j < outs.len() implies #[trigger] steps_to(m, states[j], a2[j], states[j + 1], fxs[j])
                        && behs[j].handle_fx_spec(states[j + 1], fxs[j], behs[j + 1], Ok(outs[j])) by {
                        assert(a2[j] == applied[j]);
                        assert(steps_to(m, states[j], applied[j], states[j + 1], fxs[j]));
                    }
                }
            }
            if !self.model.is_admissible(&cur, &action) {
                let ghost err = TickError::<<B::Model as Machine>::Error, B::Error>::NotAdmissible;
                proof {
                    assert(tick_end(m, all.len(), outs.len(), a2, cur, self.behavior, self.behavior, Some(err)));
                    assert(m == old(self).machine() && b0 == old(self).driver() && s0 == old(self).current()->Some_0);
                    assert(tick_trace(old(self).machine(), old(self).driver(), old(self).current()->Some_0, gp, a2, states, fxs, behs, outs, self.behavior, Some(err)));
                }
                return Err(ScenarioError::NotAdmissible);
            }
            let ghost before = cur;
            match self.model.transition(cur, action) {
                Ok((next, fx)) => {
                    let ghost fx_v = fx;
                    let ghost bb = self.behavior;
                    proof {
                        assert(steps_to(m, before, a, next, fx_v));
                    }
                    let res = self.behavior.handle_fx(&next, fx);
                    match res {
                        Err(e) => {
                            let ghost err = TickError::<<B::Model as Machine>::Error, B::Error>::Behavior(e);
                            proof {
                                assert(bb.handle_fx_spec(next, fx_v, self.behavior, Err(e)));
                                assert(tick_end(m, all.len(), outs.len(), a2, cur, bb, self.behavior, Some(err)));
                                assert(m == old(self).machine() && b0 == old(self).driver() && s0 == old(self).current()->Some_0);
                                assert(tick_trace(old(self).machine(), old(self).driver(), old(self).current()->Some_0, gp, a2, states, fxs, behs, outs, self.behavior, Some(err)));
                            }
                            return Err(ScenarioError::Behavior(e));
                        },
                        Ok(out) => {
                            let ghost out_v = out;
                            proof {
                                let s2 = states.push(next);
                                let f2 = fxs.push(fx_v);
                                let b2 = behs.push(self.behavior);
                                let o2 = outs.push(out_v);
                                assert(bb.handle_fx_spec(next, fx_v, self.behavior, Ok(out_v)));
                                assert forall|j: int| 0 <= j < o2.len() implies #[trigger] steps_to(m, s2[j], a2[j], s2[j + 1], f2[j])
                                    && b2[j].handle_fx_spec(s2[j + 1], f2[j], b2[j + 1], Ok(o2[j])) by {
                                    if j < outs.len() {
                                        assert(s2[j] == states[j] && s2[j + 1] == states[j + 1]);
                                        assert(a2[j] == applied[j] && f2[j] == fxs[j]);
                                        assert(b2[j] == behs[j] && b2[j + 1] == behs[j + 1] && o2[j] == outs[j]);
                                        assert(steps_to(m, states[j], applied[j], states[j + 1], fxs[j]));
                                    } else {
                                        assert(s2[j] == before && s2[j + 1] == next);
                                        assert(a2[j] == a && f2[j] == fx_v);
                                        assert(b2[j] == bb && b2[j + 1] == self.behavior && o2[j] == out_v);
                                    }
                                }
                                states = s2;
                                fxs = f2;
                                behs = b2;
                                outs = o2;
                                applied = a2;
                            }
                            cur = next;
                        },
                    }
                },
                Err(e) => {
                    let ghost err = TickError::<<B::Model as Machine>::Error, B::Error>::Model(e);
                    proof {
                        assert(tick_end(m, all.len(), outs.len(), a2, cur, self.behavior, self.behavior, Some(err)));
                        assert(m == old(self).machine() && b0 == old(self).driver() && s0 == old(self).current()->Some_0);
                        assert(tick_trace(old(self).machine(), old(self).driver(), old(self).current()->Some_0, gp, a2, states, fxs, behs, outs, self.behavior, Some(err)));
                    }
                    return Err(ScenarioError::Model(e));
                },
            }
            i = i + 1;
        }
        proof {
            assert(tick_end(m, all.len(), outs.len(), applied, cur, self.behavior, self.behavior, None));
            assert(m == old(self).machine() && b0 == old(self).driver() && s0 == old(self).current()->Some_0);
            assert(tick_trace(old(self).machine(), old(self).driver(), old(self).current()->Some_0, gp, applied, states, fxs, behs, outs, self.behavior, None));
        }
        self.state = Some(cur);
        self.steps = self.steps + 1;
        Ok(actions)
    }

    /// The current state of the scenario, which has one unless a step failed.
    pub fn state(&self) -> (s: &<B::Model as Machine>::State)
        requires
            self.current() is Some,
        ensures
            *s == self.current()->Some_0,
    {
        match &self.state {
            Some(s) => s,
            None => {
                proof {
                    assert(false);
                }
                &self.initial_state
            },
        }
    }

    /// The model of the scenario.
    pub fn model(&self) -> (m: &B::Model)
        ensures
            *m == self.machine(),
    {
        &self.model
    }

    /// The number of steps taken so far.
    pub fn steps(&self) -> (n: usize)
        ensures
            n == self.step_count(),
    {
        self.steps
    }
}

} // verus!
