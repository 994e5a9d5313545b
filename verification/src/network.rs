//! A network of nodes that all run the same machine, where a node's effects
//! are messages that make other nodes act.

use vstd::prelude::*;
use std::collections::VecDeque;
use crate::machine::Machine;
use crate::network::topology::Topology;
use crate::sorted_map::SortedMap;

pub mod adjacency;
pub mod topology;

verus! {

/// An effect of a node's step.
pub enum Effect<A> {
    /// Make node `to` take `action`.
    Send { to: u32, action: A },
}

/// Induce the given node to take an action.
pub enum Action<A> {
    Node(u32, A),
}

/// The state of every node, by id.
pub struct State<S> {
    pub nodes: SortedMap<u32, S>,
}

/// Why the network refused an action.
pub enum NetworkError<E> {
    /// No node has this id.
    NoNode(u32),
    /// The node refused the action.
    Node(E),
    /// The node's machine is not defined on this action in its state.
    NotAdmissible(u32),
    /// The topology has no node for this id.
    NotInTopology(u32),
    /// As many deliveries as a `usize` counts were made and effects remain.
    StepLimit,
}

/// A network of nodes running `node_model`, joined as `topology` says.
pub struct Model<M> {
    node_model: M,
    topology: Topology,
}

/// Where a propagation of effects stands: the state of every node, the
/// effects still to deliver (each with the node that caused it), and the
/// actions applied so far (each with the node that caused it).
pub struct Propagation<S, A> {
    pub nodes: Map<u32, S>,
    pub queue: Seq<(u32, Effect<A>)>,
    pub applied: Seq<(u32, Action<A>)>,
}

impl<M> Model<M> {
    /// The machine every node runs.
    pub closed spec fn node_machine(&self) -> M {
        self.node_model
    }

    /// How the nodes are joined.
    pub closed spec fn shape(&self) -> Topology {
        self.topology
    }

    /// A network of nodes running `node_model`, joined as `topology` says.
    pub fn new(node_model: M, topology: Topology) -> (m: Self)
        ensures
            m.node_machine() == node_model,
            m.shape() == topology,
    {
        Model { node_model, topology }
    }
}

impl<M: Machine<Fx = Vec<Effect<<M as Machine>::Action>>>> Model<M> where M::Action: Clone {
    /// The node of `action` takes (a clone of) it, whatever the topology
    /// says: the propagation of its effects then starts from `c`, each
    /// effect sent by that node, with the action recorded as the node's own;
    /// or the step fails with `err`: the node is missing, its machine is not
    /// defined on the action, or it refuses the action.
    pub open spec fn first_step(
        &self,
        nodes: Map<u32, M::State>,
        action: Action<M::Action>,
        c: Propagation<M::State, M::Action>,
        err: Option<NetworkError<M::Error>>,
    ) -> bool {
        match action {
            Action::Node(n, a) => if !nodes.contains_key(n) {
                err == Some(NetworkError::<M::Error>::NoNode(n))
            } else {
                exists|delivered: M::Action|
                    #![trigger self.node_machine().admissible(nodes[n], delivered)]
                    cloned(a, delivered) && if !self.node_machine().admissible(nodes[n], delivered) {
                        err == Some(NetworkError::<M::Error>::NotAdmissible(n))
                    } else {
                        ||| (err matches Some(NetworkError::Node(e)) && self.node_machine().outcome(
                            nodes[n],
                            delivered,
                            Err(e),
                        ))
                        ||| err is None && exists|next: M::State, fx: Vec<Effect<M::Action>>|
                            #[trigger] self.node_machine().outcome(nodes[n], delivered, Ok((next, fx)))
                                && c == Propagation {
                                nodes: nodes.insert(n, next),
                                queue: fx@.map_values(|e: Effect<M::Action>| (n, e)),
                                applied: seq![(n, Action::Node(n, a))],
                            }
                    }
            },
        }
    }

    /// Delivering the first effect of `c` leads to `d`. An effect between
    /// nodes that are not joined is dropped. Otherwise the receiver takes a
    /// clone of the action, its effects join the end of the queue, sent by
    /// the receiver, and the action is recorded with its sender.
    pub open spec fn delivers(
        &self,
        c: Propagation<M::State, M::Action>,
        d: Propagation<M::State, M::Action>,
    ) -> bool {
        c.queue.len() > 0 && match c.queue[0] {
            (sender, Effect::Send { to, action }) => {
                &&& self.shape().has_node(sender)
                &&& self.shape().has_node(to)
                &&& if !self.shape().joins(sender, to) {
                    d == Propagation { nodes: c.nodes, queue: c.queue.drop_first(), applied: c.applied }
                } else {
                    &&& c.nodes.contains_key(to)
                    &&& exists|delivered: M::Action, next: M::State, fx: Vec<Effect<M::Action>>|
                        {
                            &&& cloned(action, delivered)
                            &&& self.node_machine().admissible(c.nodes[to], delivered)
                            &&& self.node_machine().outcome(c.nodes[to], delivered, Ok((next, fx)))
                            &&& d == Propagation {
                                nodes: c.nodes.insert(to, next),
                                queue: c.queue.drop_first() + fx@.map_values(
                                    |e: Effect<M::Action>| (to, e),
                                ),
                                applied: c.applied.push((sender, Action::Node(to, action))),
                            }
                        }
                }
            },
        }
    }

    /// Every configuration of `trace` leads to the next by one delivery.
    pub open spec fn is_run(&self, trace: Seq<Propagation<M::State, M::Action>>) -> bool {
        forall|i: int| 0 <= i < trace.len() - 1 ==> #[trigger] self.delivers(trace[i], trace[i + 1])
    }

    /// Delivering the first effect of `c` fails with `e`: an id the
    /// topology lacks, a receiver that is not in the network, an action its
    /// machine is not defined on, or the receiver's own refusal.
    pub open spec fn stops_with(&self, c: Propagation<M::State, M::Action>, e: NetworkError<M::Error>) -> bool {
        c.queue.len() > 0 && match c.queue[0] {
            (sender, Effect::Send { to, action }) => match e {
                NetworkError::NotInTopology(x) => (x == sender && !self.shape().has_node(sender)) || (
                self.shape().has_node(sender) && x == to && !self.shape().has_node(to)),
                NetworkError::NoNode(x) => x == to && self.shape().has_node(sender)
                    && self.shape().has_node(to) && self.shape().joins(sender, to)
                    && !c.nodes.contains_key(to),
                NetworkError::NotAdmissible(x) => x == to && self.shape().has_node(sender)
                    && self.shape().has_node(to) && self.shape().joins(sender, to)
                    && c.nodes.contains_key(to) && exists|delivered: M::Action|
                    cloned(action, delivered) && !self.node_machine().admissible(
                        c.nodes[to],
                        delivered,
                    ),
                NetworkError::Node(err) => self.shape().has_node(sender) && self.shape().has_node(to)
                    && self.shape().joins(sender, to) && c.nodes.contains_key(to) && exists|
                    delivered: M::Action,
                |
                    cloned(action, delivered) && self.node_machine().admissible(c.nodes[to], delivered)
                        && self.node_machine().outcome(c.nodes[to], delivered, Err(err)),
                NetworkError::StepLimit => false,
            },
        }
    }

    /// Make a node act, then deliver the effects that follow, in the order
    /// they arise, until none is left; return the final state and the
    /// actions applied, each with the node that caused it. The node acts
    /// whatever the topology says; a follow-on effect only reaches a node
    /// joined to its sender.
    pub fn transition_recursively(&self, state: State<M::State>, action: Action<M::Action>) -> (r:
        Result<(State<M::State>, Vec<(u32, Action<M::Action>)>), NetworkError<M::Error>>)
        ensures
            exists|c0: Propagation<M::State, M::Action>, err0: Option<NetworkError<M::Error>>|
                #![trigger self.first_step(state.nodes@, action, c0, err0)]
                {
                    &&& self.first_step(state.nodes@, action, c0, err0)
                    &&& (err0 matches Some(e) ==> r == Err::<(State<M::State>, Vec<(u32, Action<M::Action>)>), NetworkError<M::Error>>(e))
                    &&& (err0 is None ==> exists|trace: Seq<Propagation<M::State, M::Action>>|
                        #![trigger self.is_run(trace)]
                        {
                            &&& trace.len() > 0
                            &&& trace[0] == c0
                            &&& self.is_run(trace)
                            &&& match r {
                                Ok((s, applied)) => trace.last().queue.len() == 0 && s.nodes@
                                    == trace.last().nodes && applied@ == trace.last().applied,
                                Err(NetworkError::StepLimit) => trace.len() == usize::MAX + 1
                                    && trace.last().queue.len() > 0,
                                Err(e) => self.stops_with(trace.last(), e),
                            }
                        })
                },
    {
        let mut cur = state;
        let ghost nodes0 = cur.nodes@;
        let mut applied: Vec<(u32, Action<M::Action>)> = Vec::new();
        let mut fx: VecDeque<(u32, Effect<M::Action>)> = VecDeque::new();
        let Action::Node(node_id, a) = action;
        let delivered = a.clone();
        let ghost delivered_v = delivered;
        let node = match cur.nodes.remove(&node_id) {
            Some(n) => n,
            None => {
                let ghost c0 = arbitrary();
                proof {
                    assert(self.first_step(nodes0, action, c0, Some(NetworkError::NoNode(node_id))));
                }
                return Err(NetworkError::NoNode(node_id));
            },
        };
        proof {
            assert(node == nodes0[node_id]);
        }
        if !self.node_model.is_admissible(&node, &delivered) {
            let ghost c0 = arbitrary();
            proof {
                assert(!self.node_machine().admissible(nodes0[node_id], delivered_v));
                assert(self.first_step(nodes0, action, c0, Some(NetworkError::NotAdmissible(node_id))));
            }
            return Err(NetworkError::NotAdmissible(node_id));
        }
        let ghost start;
        match self.node_model.transition(node, delivered) {
            Err(e) => {
                let ghost c0 = arbitrary();
                proof {
                    assert(self.node_machine().admissible(nodes0[node_id], delivered_v));
                    assert(self.first_step(nodes0, action, c0, Some(NetworkError::Node(e))));
                }
                return Err(NetworkError::Node(e));
            },
            Ok((next, effects)) => {
                let ghost next_v = next;
                let ghost effects_v = effects;
                cur.nodes.insert(node_id, next);
                applied.push((node_id, Action::Node(node_id, a)));
                let mut effects = effects;
                let ghost mut k: int = 0;
                while effects.len() > 0
                    invariant
                        0 <= k <= effects_v@.len(),
                        effects@ == effects_v@.skip(k),
                        fx@ == effects_v@.take(k).map_values(|e: Effect<M::Action>| (node_id, e)),
                    decreases effects.len(),
                {
                    let e = effects.remove(0);
                    proof {
                        assert(effects_v@.take(k + 1).map_values(|e: Effect<M::Action>| (node_id, e))
                            =~= effects_v@.take(k).map_values(|e: Effect<M::Action>| (node_id, e)).push(
                            (node_id, e),
                        ));
                        k = k + 1;
                        assert(effects@ =~= effects_v@.skip(k));
                    }
                    fx.push_back((node_id, e));
                }
                proof {
                    assert(effects_v@.take(k) =~= effects_v@);
                    assert(cur.nodes@ =~= nodes0.insert(node_id, next_v));
                    assert(applied@ =~= seq![(node_id, Action::Node(node_id, a))]);
                    start = Propagation { nodes: cur.nodes@, queue: fx@, applied: applied@ };
                    assert(self.node_machine().admissible(nodes0[node_id], delivered_v));
                    assert(self.node_machine().outcome(nodes0[node_id], delivered_v, Ok((next_v, effects_v))));
                    assert(self.first_step(nodes0, action, start, None));
                }
            },
        }
        let ghost mut trace: Seq<Propagation<M::State, M::Action>> = seq![start];
        let mut steps: usize = 0;
        loop
            invariant
                self.first_step(state.nodes@, action, start, None),
                trace.len() == steps + 1,
                trace[0] == start,
                self.is_run(trace),
                trace.last() == (Propagation { nodes: cur.nodes@, queue: fx@, applied: applied@ }),
            ensures
                trace.len() > 0,
                trace[0] == start,
                self.is_run(trace),
                trace.last().nodes == cur.nodes@,
                trace.last().applied == applied@,
                trace.last().queue.len() == 0,
            decreases usize::MAX - steps,
        {
            if fx.len() == 0 {
                break;
            }
            if steps == usize::MAX {
                proof {
                    assert(trace.last().queue.len() > 0);
                    assert(trace.len() == usize::MAX + 1);
                    assert(trace[0] == start);
                    assert(self.is_run(trace));
                }
                return Err(NetworkError::StepLimit);
            }
            let ghost c = trace.last();
            let (sender, effect) = match fx.pop_front() {
                Some(x) => x,
                None => {
                    proof {
                        assert(false);
                    }
                    break;
                },
            };
            let Effect::Send { to: receiver, action: act } = effect;
            proof {
                assert(c.queue[0] == (sender, Effect::Send { to: receiver, action: act }));
            }
            if !self.topology.knows(sender) {
                proof {
                    assert(self.stops_with(trace.last(), NetworkError::NotInTopology(sender)));
                    assert(trace[0] == start && self.is_run(trace));
                }
                return Err(NetworkError::NotInTopology(sender));
            }
            if !self.topology.knows(receiver) {
                proof {
                    assert(self.stops_with(trace.last(), NetworkError::NotInTopology(receiver)));
                    assert(trace[0] == start && self.is_run(trace));
                }
                return Err(NetworkError::NotInTopology(receiver));
            }
            if self.topology.has_edge(sender, receiver) {
                let delivered = act.clone();
                let node = match cur.nodes.remove(&receiver) {
                    Some(n) => n,
                    None => {
                        return Err(NetworkError::NoNode(receiver));
                    },
                };
                proof {
                    assert(cloned(act, delivered));
                    assert(node == c.nodes[receiver]);
                }
                if !self.node_model.is_admissible(&node, &delivered) {
                    proof {
                        assert(self.stops_with(c, NetworkError::NotAdmissible(receiver)));
                    }
                    return Err(NetworkError::NotAdmissible(receiver));
                }
                let ghost node_before = node;
                let ghost delivered_v = delivered;
                match self.node_model.transition(node, delivered) {
                    Ok((next, effects)) => {
                        let ghost next_v = next;
                        let ghost effects_v = effects;
                        cur.nodes.insert(receiver, next);
                        applied.push((sender, Action::Node(receiver, act)));
                        let ghost q0 = fx@;
                        let mut effects = effects;
                        let ghost mut k: int = 0;
                        while effects.len() > 0
                            invariant
                                0 <= k <= effects_v@.len(),
                                effects@ == effects_v@.skip(k),
                                fx@ == q0 + effects_v@.take(k).map_values(
                                    |e: Effect<M::Action>| (receiver, e),
                                ),
                            decreases effects.len(),
                        {
                            let e = effects.remove(0);
                            proof {
                                assert(effects_v@.take(k + 1).map_values(
                                    |e: Effect<M::Action>| (receiver, e),
                                ) =~= effects_v@.take(k).map_values(
                                    |e: Effect<M::Action>| (receiver, e),
                                ).push((receiver, e)));
                                k = k + 1;
                                assert(effects@ =~= effects_v@.skip(k));
                            }
                            fx.push_back((receiver, e));
                        }
                        proof {
                            assert(effects_v@.take(k) =~= effects_v@);
                            let d = Propagation { nodes: cur.nodes@, queue: fx@, applied: applied@ };
                            assert(c.nodes.insert(receiver, next_v) =~= cur.nodes@);
                            assert(d.queue =~= c.queue.drop_first() + effects_v@.map_values(
                                |e: Effect<M::Action>| (receiver, e),
                            ));
                            assert(c.queue[0] == (sender, Effect::Send { to: receiver, action: act }));
                            assert(cloned(act, delivered_v));
                            assert(self.node_machine().outcome(c.nodes[receiver], delivered_v, Ok((next_v, effects_v))));
                            assert(d.applied == c.applied.push((sender, Action::Node(receiver, act))));
                            assert(d == Propagation {
                                nodes: c.nodes.insert(receiver, next_v),
                                queue: c.queue.drop_first() + effects_v@.map_values(
                                    |e: Effect<M::Action>| (receiver, e),
                                ),
                                applied: c.applied.push((sender, Action::Node(receiver, act))),
                            });
                            assert(self.delivers(c, d));
                            let t2 = trace.push(d);
                            assert forall|i: int| 0 <= i < t2.len() - 1 implies #[trigger] self.delivers(
                                t2[i],
                                t2[i + 1],
                            ) by {
                                if i < trace.len() - 1 {
                                    assert(t2[i] == trace[i] && t2[i + 1] == trace[i + 1]);
                                }
                            }
                            trace = t2;
                        }
                    },
                    Err(e) => {
                        proof {
                            assert(self.stops_with(c, NetworkError::Node(e)));
                        }
                        return Err(NetworkError::Node(e));
                    },
                }
            } else {
                proof {
                    let d = Propagation { nodes: cur.nodes@, queue: fx@, applied: applied@ };
                    assert(d.queue =~= c.queue.drop_first());
                    assert(self.delivers(c, d));
                    let t2 = trace.push(d);
                    assert forall|i: int| 0 <= i < t2.len() - 1 implies #[trigger] self.delivers(
                        t2[i],
                        t2[i + 1],
                    ) by {
                        if i < trace.len() - 1 {
                            assert(t2[i] == trace[i] && t2[i + 1] == trace[i + 1]);
                        }
                    }
                    trace = t2;
                }
            }
            steps = steps + 1;
        }
        Ok((cur, applied))
    }
}

impl<M: Machine<Fx = Vec<Effect<<M as Machine>::Action>>>> Machine for Model<M> {
    type State = State<M::State>;
    type Action = Action<M::Action>;
    type Fx = Vec<Effect<M::Action>>;
    type Error = NetworkError<M::Error>;

    /// The node's machine must be defined on the action.
    open spec fn admissible(&self, state: State<M::State>, action: Action<M::Action>) -> bool {
        match action {
            Action::Node(id, a) => state.nodes@.contains_key(id) ==> self.node_machine().admissible(
                state.nodes@[id],
                a,
            ),
        }
    }

    fn is_admissible(&self, state: &State<M::State>, action: &Action<M::Action>) -> (b: bool) {
        match action {
            Action::Node(id, a) => match state.nodes.get(id) {
                Some(node) => self.node_model.is_admissible(node, a),
                None => true,
            },
        }
    }

    /// The node of the action takes it, and its effects are those of the
    /// step; an action for a node that is not in the network is refused.
    open spec fn outcome(
        &self,
        state: State<M::State>,
        action: Action<M::Action>,
        r: Result<(State<M::State>, Vec<Effect<M::Action>>), NetworkError<M::Error>>,
    ) -> bool {
        match action {
            Action::Node(id, a) => if !state.nodes@.contains_key(id) {
                r matches Err(NetworkError::NoNode(x)) && x == id
            } else {
                match r {
                    Ok((s2, fx)) => s2.nodes@.contains_key(id) && self.node_machine().outcome(
                        state.nodes@[id],
                        a,
                        Ok((s2.nodes@[id], fx)),
                    ) && s2.nodes@ == state.nodes@.insert(id, s2.nodes@[id]),
                    Err(NetworkError::Node(e)) => self.node_machine().outcome(
                        state.nodes@[id],
                        a,
                        Err(e),
                    ),
                    Err(_) => false,
                }
            },
        }
    }

    fn transition(&self, state: State<M::State>, action: Action<M::Action>) -> (r: Result<
        (State<M::State>, Vec<Effect<M::Action>>),
        NetworkError<M::Error>,
    >) {
        let Action::Node(node_id, a) = action;
        let mut cur = state;
        let node = match cur.nodes.remove(&node_id) {
            Some(n) => n,
            None => {
                return Err(NetworkError::NoNode(node_id));
            },
        };
        match self.node_model.transition(node, a) {
            Ok((next, fx)) => {
                let ghost before = cur.nodes@;
                cur.nodes.insert(node_id, next);
                proof {
                    assert(cur.nodes@ =~= state.nodes@.insert(node_id, next));
                }
                Ok((cur, fx))
            },
            Err(e) => Err(NetworkError::Node(e)),
        }
    }

    fn is_terminal(&self, _state: &State<M::State>) -> (b: bool)
        ensures
            !b,
    {
        false
    }
}

} // verus!
