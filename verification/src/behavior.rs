//! Behaviors: drivers that choose a machine's actions.
//!
//! A machine defines what can happen; a behavior decides what does happen.
//! The driver alternates two calls: `next_tick` reads the model state and
//! proposes actions, and `handle_fx` consumes the effects of each
//! transition, returning those it does not handle so that they bubble up.

use vstd::prelude::*;
use crate::machine::Machine;

verus! {

/// Logic which drives a model by proposing actions and consuming effects.
pub trait Behavior: Sized {
    /// The machine being driven.
    type Model: Machine;
    /// Why the behavior itself fails.
    type Error;

    /// What `next_tick` does: proposing `r` from the model state `state`,
    /// the behavior `self` becomes `after`.
    spec fn next_tick_spec(
        self,
        state: <Self::Model as Machine>::State,
        after: Self,
        r: Result<Vec<<Self::Model as Machine>::Action>, Self::Error>,
    ) -> bool;

    /// The actions to apply next, given the current model state: one tick
    /// of a simulation.
    fn next_tick(&mut self, state: &<Self::Model as Machine>::State) -> (r: Result<
        Vec<<Self::Model as Machine>::Action>,
        Self::Error,
    >)
        ensures
            old(self).next_tick_spec(*state, *final(self), r),
    ;

    /// What `handle_fx` does: given the model state `state` and the
    /// effects `fx` of the transition that led to it, answering `r`, the
    /// behavior `self` becomes `after`.
    spec fn handle_fx_spec(
        self,
        state: <Self::Model as Machine>::State,
        fx: <Self::Model as Machine>::Fx,
        after: Self,
        r: Result<Option<<Self::Model as Machine>::Fx>, Self::Error>,
    ) -> bool;

    /// Consume the effects of one transition, given the model state right
    /// after it, and return the effects left unhandled (a behavior that
    /// handles nothing returns `Ok(Some(fx))`).
    fn handle_fx(
        &mut self,
        state: &<Self::Model as Machine>::State,
        fx: <Self::Model as Machine>::Fx,
    ) -> (r: Result<Option<<Self::Model as Machine>::Fx>, Self::Error>)
        ensures
            old(self).handle_fx_spec(*state, fx, *final(self), r),
    ;
}

/// What a behavior that handles no effects answers in `handle_fx`: every
/// effect is passed on unhandled, so it bubbles up. Such a behavior's
/// `handle_fx` is this call, and its `handle_fx_spec` is `passes_on_fx`.
pub fn pass_on_fx<F, E>(fx: F) -> (r: Result<Option<F>, E>)
    ensures
        r == Ok::<Option<F>, E>(Some(fx)),
{
    Ok(Some(fx))
}

/// The answer of a behavior that handles no effects: the effect passed on,
/// and the behavior left as it was.
pub open spec fn passes_on_fx<B, F, E>(before: B, fx: F, after: B, r: Result<Option<F>, E>) -> bool {
    r == Ok::<Option<F>, E>(Some(fx)) && after == before
}

/// A boxed behavior behaves as the behavior in the box.
impl<B: Behavior> Behavior for Box<B> {
    type Model = B::Model;
    type Error = B::Error;

    open spec fn next_tick_spec(
        self,
        state: <Self::Model as Machine>::State,
        after: Self,
        r: Result<Vec<<Self::Model as Machine>::Action>, Self::Error>,
    ) -> bool {
        (*self).next_tick_spec(state, *after, r)
    }

    open spec fn handle_fx_spec(
        self,
        state: <Self::Model as Machine>::State,
        fx: <Self::Model as Machine>::Fx,
        after: Self,
        r: Result<Option<<Self::Model as Machine>::Fx>, Self::Error>,
    ) -> bool {
        (*self).handle_fx_spec(state, fx, *after, r)
    }

    fn next_tick(&mut self, state: &<Self::Model as Machine>::State) -> (r: Result<
        Vec<<Self::Model as Machine>::Action>,
        Self::Error,
    >) {
        (**self).next_tick(state)
    }

    fn handle_fx(
        &mut self,
        state: &<Self::Model as Machine>::State,
        fx: <Self::Model as Machine>::Fx,
    ) -> (r: Result<Option<<Self::Model as Machine>::Fx>, Self::Error>) {
        (**self).handle_fx(state, fx)
    }
}

/// Why a tick failed.
#[derive(Debug)]
pub enum TickError<ME, BE> {
    /// The model refused a proposed action.
    Model(ME),
    /// The behavior failed.
    Behavior(BE),
    /// The model's machine is not defined on a proposed action.
    NotAdmissible,
}

/// The effects left unhandled, in order, from what the behavior returned
/// for each transition.
pub open spec fn unhandled_of<F>(handled: Seq<Option<F>>) -> Seq<F>
    decreases handled.len(),
{
    if handled.len() == 0 {
        Seq::empty()
    } else {
        let rest = unhandled_of(handled.drop_last());
        match handled.last() {
            Some(f) => rest.push(f),
            None => rest,
        }
    }
}

/// The machine is defined on `action` in `state`, and takes it to `next`
/// with the effects `fx`.
pub open spec fn steps_to<M: Machine>(
    model: M,
    state: M::State,
    action: M::Action,
    next: M::State,
    fx: M::Fx,
) -> bool {
    model.admissible(state, action) && model.outcome(state, action, Ok((next, fx)))
}

/// `states` is a run of `model` through `actions`: each state is the
/// previous one after its action, with the effects `fxs`.
pub open spec fn is_model_run<M: Machine>(
    model: M,
    actions: Seq<M::Action>,
    states: Seq<M::State>,
    fxs: Seq<M::Fx>,
) -> bool {
    &&& states.len() == actions.len() + 1
    &&& fxs.len() == actions.len()
    &&& forall|i: int|
        0 <= i < actions.len() ==> #[trigger] steps_to(model, states[i], actions[i], states[i + 1], fxs[i])
}

/// The first `outs.len()` actions of `applied` ran in turn: each took the
/// model from `states[i]` to `states[i + 1]` with the effects `fxs[i]`, and
/// the behavior, handed that state and those effects, went from `behs[i]`
/// to `behs[i + 1]` answering `Ok(outs[i])`.
pub open spec fn tick_steps<B: Behavior>(
    model: B::Model,
    applied: Seq<<B::Model as Machine>::Action>,
    states: Seq<<B::Model as Machine>::State>,
    fxs: Seq<<B::Model as Machine>::Fx>,
    behs: Seq<B>,
    outs: Seq<Option<<B::Model as Machine>::Fx>>,
) -> bool {
    &&& states.len() == outs.len() + 1
    &&& behs.len() == outs.len() + 1
    &&& fxs.len() == outs.len()
    &&& outs.len() <= applied.len()
    &&& forall|i: int|
        0 <= i < outs.len() ==> #[trigger] steps_to(model, states[i], applied[i], states[i + 1], fxs[i])
            && behs[i].handle_fx_spec(states[i + 1], fxs[i], behs[i + 1], Ok(outs[i]))
}

/// How a tick of `n` proposed actions ends after `k` of them ran, from the
/// model state `s` and the behavior `b` they left: with all of them run,
/// the tick succeeds (`err` is `None`) with the behavior `b`; otherwise the
/// next action, the last of `applied`, fails it: the machine is not defined
/// on it, or refuses it, or the behavior fails on its effects, ending as
/// `b_end`.
pub open spec fn tick_end<B: Behavior>(
    model: B::Model,
    n: nat,
    k: nat,
    applied: Seq<<B::Model as Machine>::Action>,
    s: <B::Model as Machine>::State,
    b: B,
    b_end: B,
    err: Option<TickError<<B::Model as Machine>::Error, B::Error>>,
) -> bool {
    if k == n {
        applied.len() == n && b_end == b && err is None
    } else {
        &&& k < n
        &&& applied.len() == k + 1
        &&& {
            let a = applied.last();
            ||| !model.admissible(s, a) && b_end == b && err == Some(
                TickError::<<B::Model as Machine>::Error, B::Error>::NotAdmissible,
            )
            ||| model.admissible(s, a) && b_end == b && (err matches Some(TickError::Model(e))
                && model.outcome(s, a, Err(e)))
            ||| err matches Some(TickError::Behavior(e)) && exists|
                next: <B::Model as Machine>::State,
                fx: <B::Model as Machine>::Fx,
            |
                #[trigger] steps_to(model, s, a, next, fx) && b.handle_fx_spec(next, fx, b_end, Err(e))
        }
    }
}

/// A tick of `model` driven by the behavior `b0` from the state `s0`: the
/// behavior proposed `proposed`, becoming `behs[0]`; then the actions
/// `applied` ran as `tick_steps` says, and the tick ended as `tick_end`
/// says, with the behavior `b_end` and the error `err`, if any. A failed
/// proposal fails the tick at once.
pub open spec fn tick_trace<B: Behavior>(
    model: B::Model,
    b0: B,
    s0: <B::Model as Machine>::State,
    proposed: Result<Vec<<B::Model as Machine>::Action>, B::Error>,
    applied: Seq<<B::Model as Machine>::Action>,
    states: Seq<<B::Model as Machine>::State>,
    fxs: Seq<<B::Model as Machine>::Fx>,
    behs: Seq<B>,
    outs: Seq<Option<<B::Model as Machine>::Fx>>,
    b_end: B,
    err: Option<TickError<<B::Model as Machine>::Error, B::Error>>,
) -> bool {
    &&& behs.len() > 0
    &&& states.len() > 0
    &&& b0.next_tick_spec(s0, behs[0], proposed)
    &&& states[0] == s0
    &&& tick_steps(model, applied, states, fxs, behs, outs)
    &&& match proposed {
        Err(e) => outs.len() == 0 && applied.len() == 0 && b_end == behs[0] && err == Some(
            TickError::<<B::Model as Machine>::Error, B::Error>::Behavior(e),
        ),
        Ok(actions) => tick_end(
            model,
            actions@.len(),
            outs.len(),
            applied,
            states.last(),
            behs.last(),
            b_end,
            err,
        ),
    }
}

/// A behavior closed over its model: a machine with no choices left, whose
/// one action runs a tick.
pub struct BehaviorModel<B: Behavior> {
    model: B::Model,
}

impl<B: Behavior> BehaviorModel<B> {
    /// The underlying model.
    pub closed spec fn inner(&self) -> B::Model {
        self.model
    }

    /// A behavior model over `model`.
    pub fn new(model: B::Model) -> (m: Self)
        ensures
            m.inner() == model,
    {
        BehaviorModel { model }
    }

    /// The underlying model.
    pub fn model(&self) -> (m: &B::Model)
        ensures
            *m == self.inner(),
    {
        &self.model
    }

    /// What a tick of the behavior `b0` from the model state `s0` gives:
    /// the actions applied are those the behavior proposed, in order, and
    /// the rest is as `tick_trace` says; on success, the behavior and the
    /// model state where the tick ended, and the effects the behavior left
    /// unhandled, in order.
    pub open spec fn tick_outcome(
        &self,
        b0: B,
        s0: <B::Model as Machine>::State,
        r: Result<
            (B, <B::Model as Machine>::State, Vec<<B::Model as Machine>::Fx>),
            TickError<<B::Model as Machine>::Error, B::Error>,
        >,
    ) -> bool {
        exists|
            proposed: Result<Vec<<B::Model as Machine>::Action>, B::Error>,
            applied: Seq<<B::Model as Machine>::Action>,
            states: Seq<<B::Model as Machine>::State>,
            fxs: Seq<<B::Model as Machine>::Fx>,
            behs: Seq<B>,
            outs: Seq<Option<<B::Model as Machine>::Fx>>,
            b_end: B,
            err: Option<TickError<<B::Model as Machine>::Error, B::Error>>,
        |
            #![trigger tick_trace(self.inner(), b0, s0, proposed, applied, states, fxs, behs, outs, b_end, err)]
            {
                &&& tick_trace(self.inner(), b0, s0, proposed, applied, states, fxs, behs, outs, b_end, err)
                &&& (proposed matches Ok(actions) ==> applied == actions@.take(applied.len() as int))
                &&& match r {
                    Ok((b, s, unhandled)) => err is None && b == b_end && s == states.last()
                        && unhandled@ == unhandled_of(outs),
                    Err(e) => err == Some(e),
                }
            }
    }

    /// Run one tick: the behavior proposes actions, each is applied in
    /// turn, and the effects of each transition are handed to the behavior,
    /// with the state that transition produced, before the next action
    /// runs. The effects it leaves unhandled are returned, one entry per
    /// transition that left one. A refused action fails the tick.
    pub fn tick(
        &self,
        behavior: B,
        state: <B::Model as Machine>::State,
    ) -> (r: Result<
        (B, <B::Model as Machine>::State, Vec<<B::Model as Machine>::Fx>),
        TickError<<B::Model as Machine>::Error, B::Error>,
    >)
        ensures
            self.tick_outcome(behavior, state, r),
    {
        let ghost b0 = behavior;
        let ghost m = self.inner();
        let mut beh = behavior;
        let proposed = beh.next_tick(&state);
        let ghost gp = proposed;
        let ghost b1 = beh;
        let actions = match proposed {
            Ok(a) => a,
            Err(e) => {
                let err = TickError::Behavior(e);
                proof {
                    let st = seq![state];
                    let bs = seq![b1];
                    assert(tick_steps(m, Seq::empty(), st, Seq::empty(), bs, Seq::empty()));
                    assert(tick_trace(m, b0, state, gp, Seq::empty(), st, Seq::empty(), bs, Seq::empty(), b1, Some(err)));
                }
                return Err(err);
            },
        };
        let ghost all = actions@;
        let mut cur = state;
        let ghost mut applied: Seq<<B::Model as Machine>::Action> = Seq::empty();
        let ghost mut states: Seq<<B::Model as Machine>::State> = seq![state];
        let ghost mut fxs: Seq<<B::Model as Machine>::Fx> = Seq::empty();
        let ghost mut behs: Seq<B> = seq![b1];
        let ghost mut outs: Seq<Option<<B::Model as Machine>::Fx>> = Seq::empty();
        let mut unhandled: Vec<<B::Model as Machine>::Fx> = Vec::new();
        let mut actions = actions;
        proof {
            assert(actions@.skip(0) =~= actions@);
            assert(all.take(0) =~= Seq::<<B::Model as Machine>::Action>::empty());
        }
        while actions.len() > 0
            invariant
                m == self.inner(),
                b0 == behavior,
                m == self.model,
                gp matches Ok(v) && v@ == all,
                b0.next_tick_spec(state, b1, gp),
                applied.len() == outs.len(),
                outs.len() <= all.len(),
                applied == all.take(outs.len() as int),
                actions@ == all.skip(outs.len() as int),
                tick_steps(m, applied, states, fxs, behs, outs),
                states[0] == state,
                behs[0] == b1,
                states.last() == cur,
                behs.last() == beh,
                unhandled@ == unhandled_of(outs),
            decreases actions.len(),
        {
            let ghost k: int = outs.len() as int;
            let action = actions.remove(0);
            let ghost a = action;
            proof {
                assert(a == all[k]);
                assert(actions@ =~= all.skip(k + 1));
                assert(applied.push(a) =~= all.take(k + 1));
                assert(applied.push(a).last() == a);
                assert(tick_steps(m, applied.push(a), states, fxs, behs, outs)) by {
                    assert forall|i: int| 0 <= i < outs.len() implies #[trigger] steps_to(m, states[i], applied.push(a)[i], states[i + 1], fxs[i])
                        && behs[i].handle_fx_spec(states[i + 1], fxs[i], behs[i + 1], Ok(outs[i])) by {
                        assert(applied.push(a)[i] == applied[i]);
                        assert(steps_to(m, states[i], applied[i], states[i + 1], fxs[i]));
                    }
                }
            }
            if !self.model.is_admissible(&cur, &action) {
                let err = TickError::NotAdmissible;
                proof {
                    assert(tick_end(m, all.len(), outs.len(), applied.push(a), cur, beh, beh, Some(err)));
                    assert(tick_trace(m, b0, state, gp, applied.push(a), states, fxs, behs, outs, beh, Some(err)));
                }
                return Err(err);
            }
            let ghost before = cur;
            match self.model.transition(cur, action) {
                Ok((next, fx)) => {
                    let ghost fx_v = fx;
                    let ghost bb = beh;
                    proof {
                        assert(steps_to(m, before, a, next, fx_v));
                    }
                    let res = beh.handle_fx(&next, fx);
                    match res {
                        Err(e) => {
                            let err = TickError::Behavior(e);
                            proof {
                                assert(bb.handle_fx_spec(next, fx_v, beh, Err(e)));
                                assert(tick_end(m, all.len(), outs.len(), applied.push(a), cur, bb, beh, Some(err)));
                                assert(tick_trace(m, b0, state, gp, applied.push(a), states, fxs, behs, outs, beh, Some(err)));
                            }
                            return Err(err);
                        },
                        Ok(out) => {
                            let ghost out_v = out;
                            proof {
                                let s2 = states.push(next);
                                let f2 = fxs.push(fx_v);
                                let b2 = behs.push(beh);
                                let o2 = outs.push(out_v);
                                let a2 = applied.push(a);
                                assert(bb.handle_fx_spec(next, fx_v, beh, Ok(out_v)));
                                assert forall|i: int| 0 <= i < o2.len() implies #[trigger] steps_to(m, s2[i], a2[i], s2[i + 1], f2[i])
                                    && b2[i].handle_fx_spec(s2[i + 1], f2[i], b2[i + 1], Ok(o2[i])) by {
                                    if i < outs.len() {
                                        assert(s2[i] == states[i] && s2[i + 1] == states[i + 1]);
                                        assert(a2[i] == applied[i] && f2[i] == fxs[i]);
                                        assert(b2[i] == behs[i] && b2[i + 1] == behs[i + 1] && o2[i] == outs[i]);
                                        assert(steps_to(m, states[i], applied[i], states[i + 1], fxs[i]));
                                    } else {
                                        assert(s2[i] == before && s2[i + 1] == next);
                                        assert(a2[i] == a && f2[i] == fx_v);
                                        assert(b2[i] == bb && b2[i + 1] == beh && o2[i] == out_v);
                                    }
                                }
                                assert(o2.drop_last() =~= outs);
                                states = s2;
                                fxs = f2;
                                behs = b2;
                                outs = o2;
                                applied = a2;
                            }
                            match out {
                                Some(f) => {
                                    unhandled.push(f);
                                },
                                None => {},
                            }
                            cur = next;
                        },
                    }
                },
                Err(e) => {
                    let err = TickError::Model(e);
                    proof {
                        assert(tick_end(m, all.len(), outs.len(), applied.push(a), cur, beh, beh, Some(err)));
                        assert(tick_trace(m, b0, state, gp, applied.push(a), states, fxs, behs, outs, beh, Some(err)));
                    }
                    return Err(err);
                },
            }
        }
        proof {
            assert(outs.len() == all.len()) by {
                if outs.len() < all.len() {
                    assert(all.skip(outs.len() as int).len() > 0);
                }
            }
            assert(tick_end(m, all.len(), outs.len(), applied, cur, beh, beh, None));
            assert(tick_trace(m, b0, state, gp, applied, states, fxs, behs, outs, beh, None));
        }
        Ok((beh, cur, unhandled))
    }
}

impl<B: Behavior> Machine for BehaviorModel<B> {
    type State = (B, <B::Model as Machine>::State);
    type Action = ();
    type Fx = Vec<<B::Model as Machine>::Fx>;
    type Error = TickError<<B::Model as Machine>::Error, B::Error>;

    open spec fn admissible(&self, state: (B, <B::Model as Machine>::State), action: ()) -> bool {
        true
    }

    fn is_admissible(&self, state: &(B, <B::Model as Machine>::State), action: &()) -> (b: bool) {
        true
    }

    /// A tick from the model state.
    open spec fn outcome(
        &self,
        state: (B, <B::Model as Machine>::State),
        action: (),
        r: Result<
            ((B, <B::Model as Machine>::State), Vec<<B::Model as Machine>::Fx>),
            TickError<<B::Model as Machine>::Error, B::Error>,
        >,
    ) -> bool {
        match r {
            Ok(((b, s), fx)) => self.tick_outcome(state.0, state.1, Ok((b, s, fx))),
            Err(e) => self.tick_outcome(state.0, state.1, Err(e)),
        }
    }

    fn transition(&self, state: (B, <B::Model as Machine>::State), action: ()) -> (r: Result<
        ((B, <B::Model as Machine>::State), Vec<<B::Model as Machine>::Fx>),
        TickError<<B::Model as Machine>::Error, B::Error>,
    >) {
        let (behavior, s) = state;
        match self.tick(behavior, s) {
            Ok((b, s2, fx)) => Ok(((b, s2), fx)),
            Err(e) => Err(e),
        }
    }

    fn is_terminal(&self, _state: &(B, <B::Model as Machine>::State)) -> (b: bool)
        ensures
            !b,
    {
        false
    }
}


/// The behavior's `next_tick` and `handle_fx`, and the model's steps, each
/// allow at most one result for given arguments.
pub open spec fn tick_deterministic<B: Behavior>(model: B::Model) -> bool {
    &&& forall|
        b: B,
        s: <B::Model as Machine>::State,
        a1: B,
        a2: B,
        r1: Result<Vec<<B::Model as Machine>::Action>, B::Error>,
        r2: Result<Vec<<B::Model as Machine>::Action>, B::Error>,
    |
        #![trigger b.next_tick_spec(s, a1, r1), b.next_tick_spec(s, a2, r2)]
        b.next_tick_spec(s, a1, r1) && b.next_tick_spec(s, a2, r2) ==> a1 == a2 && r1 == r2
    &&& forall|
        b: B,
        s: <B::Model as Machine>::State,
        fx: <B::Model as Machine>::Fx,
        a1: B,
        a2: B,
        r1: Result<Option<<B::Model as Machine>::Fx>, B::Error>,
        r2: Result<Option<<B::Model as Machine>::Fx>, B::Error>,
    |
        #![trigger b.handle_fx_spec(s, fx, a1, r1), b.handle_fx_spec(s, fx, a2, r2)]
        b.handle_fx_spec(s, fx, a1, r1) && b.handle_fx_spec(s, fx, a2, r2) ==> a1 == a2 && r1 == r2
    &&& forall|
        s: <B::Model as Machine>::State,
        a: <B::Model as Machine>::Action,
        r1: Result<(<B::Model as Machine>::State, <B::Model as Machine>::Fx), <B::Model as Machine>::Error>,
        r2: Result<(<B::Model as Machine>::State, <B::Model as Machine>::Fx), <B::Model as Machine>::Error>,
    |
        #![trigger model.outcome(s, a, r1), model.outcome(s, a, r2)]
        model.outcome(s, a, r1) && model.outcome(s, a, r2) ==> r1 == r2
}

/// Two runs of the same actions from the same state and behavior agree on
/// every step both have taken.
proof fn lemma_steps_agree<B: Behavior>(
    m: B::Model,
    applied1: Seq<<B::Model as Machine>::Action>,
    states1: Seq<<B::Model as Machine>::State>,
    fxs1: Seq<<B::Model as Machine>::Fx>,
    behs1: Seq<B>,
    outs1: Seq<Option<<B::Model as Machine>::Fx>>,
    applied2: Seq<<B::Model as Machine>::Action>,
    states2: Seq<<B::Model as Machine>::State>,
    fxs2: Seq<<B::Model as Machine>::Fx>,
    behs2: Seq<B>,
    outs2: Seq<Option<<B::Model as Machine>::Fx>>,
    i: int,
)
    requires
        tick_deterministic::<B>(m),
        tick_steps(m, applied1, states1, fxs1, behs1, outs1),
        tick_steps(m, applied2, states2, fxs2, behs2, outs2),
        states1[0] == states2[0],
        behs1[0] == behs2[0],
        0 <= i <= outs1.len(),
        i <= outs2.len(),
        forall|j: int| 0 <= j < i ==> applied1[j] == applied2[j],
    ensures
        states1[i] == states2[i],
        behs1[i] == behs2[i],
        forall|j: int| 0 <= j < i ==> outs1[j] == outs2[j],
    decreases i,
{
    if i > 0 {
        lemma_steps_agree(m, applied1, states1, fxs1, behs1, outs1, applied2, states2, fxs2, behs2, outs2, i - 1);
        let j = i - 1;
        assert(steps_to(m, states1[j], applied1[j], states1[j + 1], fxs1[j]));
        assert(steps_to(m, states2[j], applied2[j], states2[j + 1], fxs2[j]));
        assert(m.outcome(states1[j], applied1[j], Ok((states1[j + 1], fxs1[j]))));
        assert(m.outcome(states1[j], applied1[j], Ok((states2[j + 1], fxs2[j]))));
        assert(behs1[j].handle_fx_spec(states1[j + 1], fxs1[j], behs1[j + 1], Ok(outs1[j])));
        assert(behs1[j].handle_fx_spec(states1[j + 1], fxs1[j], behs2[j + 1], Ok(outs2[j])));
    }
}

/// The end of a tick after `k` actions is fixed by the state and behavior
/// it ended from and the next action; a tick cannot both fail at an action
/// and go past it.
proof fn lemma_end_agree<B: Behavior>(
    m: B::Model,
    n: nat,
    k: nat,
    applied1: Seq<<B::Model as Machine>::Action>,
    applied2: Seq<<B::Model as Machine>::Action>,
    s: <B::Model as Machine>::State,
    b: B,
    be1: B,
    be2: B,
    err1: Option<TickError<<B::Model as Machine>::Error, B::Error>>,
    err2: Option<TickError<<B::Model as Machine>::Error, B::Error>>,
)
    requires
        tick_deterministic::<B>(m),
        tick_end(m, n, k, applied1, s, b, be1, err1),
        tick_end(m, n, k, applied2, s, b, be2, err2),
        k < n ==> applied1.last() == applied2.last(),
    ensures
        err1 == err2,
        err1 is None ==> be1 == be2,
{
    if k < n {
        let a = applied1.last();
        assert(applied2.last() == a);
        if let Some(TickError::Behavior(e1)) = err1 {
            let (x1, f1) = choose|x: <B::Model as Machine>::State, f: <B::Model as Machine>::Fx|
                #[trigger] steps_to(m, s, a, x, f) && b.handle_fx_spec(x, f, be1, Err(e1));
            assert(m.outcome(s, a, Ok((x1, f1))));
            if let Some(TickError::Behavior(e2)) = err2 {
                let (x2, f2) = choose|x: <B::Model as Machine>::State, f: <B::Model as Machine>::Fx|
                    #[trigger] steps_to(m, s, a, x, f) && b.handle_fx_spec(x, f, be2, Err(e2));
                assert(m.outcome(s, a, Ok((x2, f2))));
                assert(b.handle_fx_spec(x1, f1, be2, Err(e2)));
            } else if let Some(TickError::Model(e2)) = err2 {
                assert(m.outcome(s, a, Err(e2)));
            }
        } else if let Some(TickError::Model(e1)) = err1 {
            if let Some(TickError::Behavior(e2)) = err2 {
                let (x2, f2) = choose|x: <B::Model as Machine>::State, f: <B::Model as Machine>::Fx|
                    #[trigger] steps_to(m, s, a, x, f) && b.handle_fx_spec(x, f, be2, Err(e2));
                assert(m.outcome(s, a, Ok((x2, f2))));
            } else if let Some(TickError::Model(e2)) = err2 {
                assert(m.outcome(s, a, Err(e1)));
                assert(m.outcome(s, a, Err(e2)));
            }
        }
    }
}

/// Where the behavior and the model are deterministic, so is a tick: from
/// the same behavior and model state it always gives the same result.
pub proof fn lemma_tick_deterministic<B: Behavior>(
    bm: BehaviorModel<B>,
    b0: B,
    s0: <B::Model as Machine>::State,
    r1: Result<
        (B, <B::Model as Machine>::State, Vec<<B::Model as Machine>::Fx>),
        TickError<<B::Model as Machine>::Error, B::Error>,
    >,
    r2: Result<
        (B, <B::Model as Machine>::State, Vec<<B::Model as Machine>::Fx>),
        TickError<<B::Model as Machine>::Error, B::Error>,
    >,
)
    requires
        tick_deterministic::<B>(bm.inner()),
        bm.tick_outcome(b0, s0, r1),
        bm.tick_outcome(b0, s0, r2),
    ensures
        match (r1, r2) {
            (Ok((b1, t1, u1)), Ok((b2, t2, u2))) => b1 == b2 && t1 == t2 && u1@ == u2@,
            (Err(e1), Err(e2)) => e1 == e2,
            _ => false,
        },
{
    let m = bm.inner();
    let (p1, a1, st1, f1, bh1, o1, be1, er1) = choose|
        proposed: Result<Vec<<B::Model as Machine>::Action>, B::Error>,
        applied: Seq<<B::Model as Machine>::Action>,
        states: Seq<<B::Model as Machine>::State>,
        fxs: Seq<<B::Model as Machine>::Fx>,
        behs: Seq<B>,
        outs: Seq<Option<<B::Model as Machine>::Fx>>,
        b_end: B,
        err: Option<TickError<<B::Model as Machine>::Error, B::Error>>,
    |
        #![trigger tick_trace(m, b0, s0, proposed, applied, states, fxs, behs, outs, b_end, err)]
        {
            &&& tick_trace(m, b0, s0, proposed, applied, states, fxs, behs, outs, b_end, err)
            &&& (proposed matches Ok(actions) ==> applied == actions@.take(applied.len() as int))
            &&& match r1 {
                Ok((b, s, unhandled)) => err is None && b == b_end && s == states.last()
                    && unhandled@ == unhandled_of(outs),
                Err(e) => err == Some(e),
            }
        };
    let (p2, a2, st2, f2, bh2, o2, be2, er2) = choose|
        proposed: Result<Vec<<B::Model as Machine>::Action>, B::Error>,
        applied: Seq<<B::Model as Machine>::Action>,
        states: Seq<<B::Model as Machine>::State>,
        fxs: Seq<<B::Model as Machine>::Fx>,
        behs: Seq<B>,
        outs: Seq<Option<<B::Model as Machine>::Fx>>,
        b_end: B,
        err: Option<TickError<<B::Model as Machine>::Error, B::Error>>,
    |
        #![trigger tick_trace(m, b0, s0, proposed, applied, states, fxs, behs, outs, b_end, err)]
        {
            &&& tick_trace(m, b0, s0, proposed, applied, states, fxs, behs, outs, b_end, err)
            &&& (proposed matches Ok(actions) ==> applied == actions@.take(applied.len() as int))
            &&& match r2 {
                Ok((b, s, unhandled)) => err is None && b == b_end && s == states.last()
                    && unhandled@ == unhandled_of(outs),
                Err(e) => err == Some(e),
            }
        };
    assert(b0.next_tick_spec(s0, bh1[0], p1));
    assert(b0.next_tick_spec(s0, bh2[0], p2));
    assert(p1 == p2 && bh1[0] == bh2[0]);
    if p1 is Ok {
        let acts = p1->Ok_0@;
        let n = acts.len();
        let k1 = o1.len();
        let k2 = o2.len();
        let kmin = if k1 <= k2 { k1 } else { k2 };
        assert forall|j: int| 0 <= j < kmin implies a1[j] == a2[j] by {
            assert(a1[j] == acts[j]);
            assert(a2[j] == acts[j]);
        }
        lemma_steps_agree(m, a1, st1, f1, bh1, o1, a2, st2, f2, bh2, o2, kmin as int);
        assert(st1[kmin as int] == st2[kmin as int]);
        // neither run can go past an action at which the other stopped
        if k1 < k2 {
            let a = a1.last();
            assert(a1.len() == k1 + 1);
            assert(a == acts[k1 as int] && a2[k1 as int] == acts[k1 as int]);
            assert(steps_to(m, st2[k1 as int], a2[k1 as int], st2[k1 + 1 as int], f2[k1 as int]));
            assert(bh2[k1 as int].handle_fx_spec(st2[k1 + 1 as int], f2[k1 as int], bh2[k1 + 1 as int], Ok(o2[k1 as int])));
            assert(st1.last() == st1[k1 as int] && bh1.last() == bh1[k1 as int]);
            if let Some(TickError::Behavior(e1)) = er1 {
                let (x1, g1) = choose|x: <B::Model as Machine>::State, f: <B::Model as Machine>::Fx|
                    #[trigger] steps_to(m, st1.last(), a, x, f) && bh1.last().handle_fx_spec(x, f, be1, Err(e1));
                assert(m.outcome(st1.last(), a, Ok((x1, g1))));
                assert(m.outcome(st1.last(), a, Ok((st2[k1 + 1 as int], f2[k1 as int]))));
                assert(bh1.last().handle_fx_spec(x1, g1, bh2[k1 + 1 as int], Ok(o2[k1 as int])));
            } else if let Some(TickError::Model(e1)) = er1 {
                assert(m.outcome(st1.last(), a, Err(e1)));
                assert(m.outcome(st1.last(), a, Ok((st2[k1 + 1 as int], f2[k1 as int]))));
            }
            assert(false);
        } else if k2 < k1 {
            let a = a2.last();
            assert(a2.len() == k2 + 1);
            assert(a == acts[k2 as int] && a1[k2 as int] == acts[k2 as int]);
            assert(steps_to(m, st1[k2 as int], a1[k2 as int], st1[k2 + 1 as int], f1[k2 as int]));
            assert(bh1[k2 as int].handle_fx_spec(st1[k2 + 1 as int], f1[k2 as int], bh1[k2 + 1 as int], Ok(o1[k2 as int])));
            assert(st2.last() == st2[k2 as int] && bh2.last() == bh2[k2 as int]);
            if let Some(TickError::Behavior(e2)) = er2 {
                let (x2, g2) = choose|x: <B::Model as Machine>::State, f: <B::Model as Machine>::Fx|
                    #[trigger] steps_to(m, st2.last(), a, x, f) && bh2.last().handle_fx_spec(x, f, be2, Err(e2));
                assert(m.outcome(st2.last(), a, Ok((x2, g2))));
                assert(m.outcome(st2.last(), a, Ok((st1[k2 + 1 as int], f1[k2 as int]))));
                assert(bh2.last().handle_fx_spec(x2, g2, bh1[k2 + 1 as int], Ok(o1[k2 as int])));
            } else if let Some(TickError::Model(e2)) = er2 {
                assert(m.outcome(st2.last(), a, Err(e2)));
                assert(m.outcome(st2.last(), a, Ok((st1[k2 + 1 as int], f1[k2 as int]))));
            }
            assert(false);
        }
        assert(k1 == k2);
        assert(st1.last() == st2.last() && bh1.last() == bh2.last());
        if k1 < n {
            assert(a1.last() == acts[k1 as int] && a2.last() == acts[k1 as int]);
        }
        lemma_end_agree(m, n, k1, a1, a2, st1.last(), bh1.last(), be1, be2, er1, er2);
        assert(o1 =~= o2);
    }
}

} // verus!
