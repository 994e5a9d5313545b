//! The lifecycle of an op together with the ops it depends on.
//!
//! Ops are grouped by the action that produced them: an `OpId` is the pair
//! of an action id and the index of the op within that action. An op that
//! awaits another action cannot be validated until some op of that action
//! has been integrated.

use vstd::prelude::*;
use crate::machine::Machine;
use crate::op_single::{
    is_definitely_valid_spec, op_single_next, InvalidTransition, OpAction, OpPhase, OpSingleMachine,
    Outcome, ValidationType,
};
use crate::sorted_map::{
    entries_map, keys_sorted, lemma_entries_map_at, lemma_sorted_key_unique, MapKey, SortedMap,
};

verus! {

/// An op: the action it belongs to and its index within that action.
#[derive(Clone, Copy, Debug, PartialEq, Eq, PartialOrd, Ord, Hash, Structural)]
pub struct OpId(pub u32, pub u32);

impl MapKey for OpId {
    open spec fn key_lt(self, other: Self) -> bool {
        self.0 < other.0 || (self.0 == other.0 && self.1 < other.1)
    }

    proof fn lemma_key_lt_irreflexive(a: Self) {
    }

    proof fn lemma_key_lt_transitive(a: Self, b: Self, c: Self) {
    }

    proof fn lemma_key_lt_total(a: Self, b: Self) {
    }

    fn key_less(&self, other: &Self) -> (r: bool) {
        self.0 < other.0 || (self.0 == other.0 && self.1 < other.1)
    }

    fn key_same(&self, other: &Self) -> (r: bool) {
        self.0 == other.0 && self.1 == other.1
    }

    fn key_copy(&self) -> (r: Self) {
        *self
    }
}

/// The phase of one op of the family.
#[derive(Clone, Copy, Debug, PartialEq, Eq, Hash, Structural)]
pub enum OpFamilyPhase {
    /// The op follows the single-op lifecycle.
    Op(OpPhase),
    /// Validation of this type waits for some op of the given action.
    Awaiting(ValidationType, u32),
}

impl Default for OpFamilyPhase {
    fn default() -> (p: Self)
        ensures
            p == OpFamilyPhase::Op(OpPhase::Unseen),
    {
        OpFamilyPhase::Op(OpPhase::Unseen)
    }
}

impl OpFamilyPhase {
    pub fn is_definitely_valid(&self) -> (b: bool)
        ensures
            b == (*self is Op && is_definitely_valid_spec(self->Op_0)),
    {
        match self {
            OpFamilyPhase::Op(p) => p.is_definitely_valid(),
            _ => false,
        }
    }
}

/// What can happen to one op of the family.
#[derive(Clone, Copy, Debug, PartialEq, Eq, Hash, Structural)]
pub enum OpFamilyAction {
    /// A single-op action.
    Op(OpAction),
    /// Start awaiting ops of the given action before this validation.
    Await(ValidationType, u32),
}

/// Why a family transition was refused.
#[derive(Clone, Copy, Debug, PartialEq, Eq, Hash, Structural)]
pub enum OpFamilyError {
    /// The op is not covered by the machine.
    NotCovered(OpId),
    /// An op can't depend on its own action.
    SelfDependency,
    /// The focus op (first dep) can't be depended on.
    FocusDependency,
    /// The single-op transition was refused.
    Op(InvalidTransition),
    /// This phase can't start awaiting.
    InvalidAwait(OpFamilyPhase, OpFamilyAction),
    /// The op still awaits the given action.
    StillAwaiting(OpId, u32),
    /// This action can't leave the awaiting phase.
    InvalidFromAwaiting(OpFamilyPhase, OpFamilyAction),
    /// No rule applies.
    Invalid(OpFamilyPhase, OpFamilyAction),
    /// The step would make the dependencies loop.
    DependencyLoop(OpFamilyPhase, OpFamilyAction),
}

// --------------------------------------------------------------------------
// Dependency graph of a family state
// --------------------------------------------------------------------------

/// The action an awaiting phase waits for.
pub open spec fn awaited(p: OpFamilyPhase) -> u32 {
    match p {
        OpFamilyPhase::Awaiting(_, d) => d,
        _ => 0,
    }
}

/// The op `k` is in the state and awaits some action.
pub open spec fn is_await_edge(m: Map<OpId, OpFamilyPhase>, k: OpId) -> bool {
    m.contains_key(k) && m[k] is Awaiting
}

/// Some op of action `a` awaits action `b`.
pub open spec fn await_step(m: Map<OpId, OpFamilyPhase>, a: u32, b: u32) -> bool {
    exists|k: OpId| #[trigger] is_await_edge(m, k) && k.0 == a && awaited(m[k]) == b
}

/// Consecutive actions of `p` are linked by awaits.
pub open spec fn is_await_path(m: Map<OpId, OpFamilyPhase>, p: Seq<u32>) -> bool {
    forall|i: int| 0 <= i < p.len() - 1 ==> #[trigger] await_step(m, p[i], p[i + 1])
}

/// Action `b` can be reached from action `a` by following one or more awaits.
pub open spec fn awaits_reach(m: Map<OpId, OpFamilyPhase>, a: u32, b: u32) -> bool {
    exists|p: Seq<u32>| p.len() >= 2 && p[0] == a && p.last() == b && #[trigger] is_await_path(m, p)
}

/// Action `a` is `root` or reached from it.
pub open spec fn in_family(m: Map<OpId, OpFamilyPhase>, root: u32, a: u32) -> bool {
    a == root || awaits_reach(m, root, a)
}

/// Following awaits from `root` comes to an action from which the awaits
/// lead back to that action: some path of awaits from `root` returns to an
/// action already on it.
pub open spec fn awaits_loop(m: Map<OpId, OpFamilyPhase>, root: u32) -> bool {
    exists|v: u32| #[trigger] in_family(m, root, v) && awaits_reach(m, v, v)
}

/// A path of `k` awaits leads from `root` to `v`.
pub open spec fn walk_to(m: Map<OpId, OpFamilyPhase>, root: u32, k: nat, v: u32) -> bool {
    exists|p: Seq<u32>| #[trigger] is_await_path(m, p) && p.len() == k + 1 && p[0] == root && p.last() == v
}

proof fn lemma_path_sub(m: Map<OpId, OpFamilyPhase>, p: Seq<u32>, a: int, b: int)
    requires
        is_await_path(m, p),
        0 <= a < b <= p.len(),
    ensures
        is_await_path(m, p.subrange(a, b)),
{
    let q = p.subrange(a, b);
    assert forall|i: int| 0 <= i < q.len() - 1 implies #[trigger] await_step(m, q[i], q[i + 1]) by {
        assert(q[i] == p[a + i] && q[i + 1] == p[a + i + 1]);
        assert(await_step(m, p[a + i], p[a + i + 1]));
    }
}

proof fn lemma_path_join(m: Map<OpId, OpFamilyPhase>, p: Seq<u32>, q: Seq<u32>)
    requires
        is_await_path(m, p),
        is_await_path(m, q),
        p.len() >= 1,
        q.len() >= 1,
        p.last() == q[0],
    ensures
        is_await_path(m, p + q.drop_first()),
        (p + q.drop_first()).len() == p.len() + q.len() - 1,
        (p + q.drop_first())[0] == p[0],
        (p + q.drop_first()).last() == q.last(),
{
    let r = p + q.drop_first();
    assert forall|i: int| 0 <= i < r.len() - 1 implies #[trigger] await_step(m, r[i], r[i + 1]) by {
        if i < p.len() - 1 {
            assert(r[i] == p[i] && r[i + 1] == p[i + 1]);
            assert(await_step(m, p[i], p[i + 1]));
        } else {
            let t = i - (p.len() - 1);
            assert(r[i] == q[t]) by {
                if t > 0 {
                    assert(r[i] == q.drop_first()[i - p.len()]);
                }
            }
            assert(r[i + 1] == q[t + 1]);
            assert(await_step(m, q[t], q[t + 1]));
        }
    }
    if q.len() > 1 {
        assert(r.last() == q.drop_first().last());
    }
}

/// `base` followed by `t` more rounds of the cycle `cyc`.
spec fn pump(base: Seq<u32>, cyc: Seq<u32>, t: nat) -> Seq<u32>
    decreases t,
{
    if t == 0 {
        base
    } else {
        pump(base, cyc, (t - 1) as nat) + cyc.drop_first()
    }
}

proof fn lemma_pump(m: Map<OpId, OpFamilyPhase>, base: Seq<u32>, cyc: Seq<u32>, t: nat)
    requires
        is_await_path(m, base),
        is_await_path(m, cyc),
        base.len() >= 1,
        cyc.len() >= 2,
        base.last() == cyc[0],
        cyc.last() == cyc[0],
    ensures
        is_await_path(m, pump(base, cyc, t)),
        pump(base, cyc, t).len() >= base.len() + t,
        pump(base, cyc, t)[0] == base[0],
        pump(base, cyc, t).last() == cyc[0],
    decreases t,
{
    if t > 0 {
        lemma_pump(m, base, cyc, (t - 1) as nat);
        lemma_path_join(m, pump(base, cyc, (t - 1) as nat), cyc);
    }
}

/// Out of `k` > `n` values below `n`, two are equal.
proof fn lemma_pigeonhole(f: spec_fn(int) -> int, k: int, n: int)
    requires
        0 <= n < k,
        forall|i: int| 0 <= i < k ==> 0 <= #[trigger] f(i) < n,
    ensures
        exists|i: int, j: int| #![trigger f(i), f(j)] 0 <= i < j < k && f(i) == f(j),
    decreases n,
{
    if n == 0 {
        assert(0 <= f(0) < n);
    } else if exists|i: int, j: int| #![trigger f(i), f(j)] 0 <= i < j < k && f(i) == f(j) {
    } else if exists|i0: int| 0 <= i0 < k && #[trigger] f(i0) == n - 1 {
        let i0 = choose|i0: int| 0 <= i0 < k && #[trigger] f(i0) == n - 1;
        let g = |i: int| if i < i0 { f(i) } else { f(i + 1) };
        assert forall|i: int| 0 <= i < k - 1 implies 0 <= #[trigger] g(i) < n - 1 by {
            let ii = if i < i0 { i } else { i + 1 };
            assert(g(i) == f(ii));
            assert(0 <= f(ii) < n);
            if f(ii) == n - 1 {
                if ii < i0 {
                    assert(f(ii) == f(i0));
                } else {
                    assert(f(i0) == f(ii));
                }
            }
        }
        lemma_pigeonhole(g, k - 1, n - 1);
        let (i, j) = choose|i: int, j: int| #![trigger g(i), g(j)] 0 <= i < j < k - 1 && g(i) == g(j);
        let ii = if i < i0 { i } else { i + 1 };
        let jj = if j < i0 { j } else { j + 1 };
        assert(f(ii) == f(jj) && ii < jj);
    } else {
        assert forall|i: int| 0 <= i < k implies 0 <= #[trigger] f(i) < n - 1 by {
            assert(f(i) != n - 1);
        }
        lemma_pigeonhole(f, k, n - 1);
    }
}

// --------------------------------------------------------------------------
// State
// --------------------------------------------------------------------------

/// The phase of every op seen so far, by op id.
pub struct OpFamilyState(pub SortedMap<OpId, OpFamilyPhase>);

impl View for OpFamilyState {
    type V = Map<OpId, OpFamilyPhase>;

    open spec fn view(&self) -> Map<OpId, OpFamilyPhase> {
        self.0@
    }
}

/// The entries of `s` whose op belongs to action `a`, in order.
pub open spec fn entries_of_action(s: Seq<(OpId, OpFamilyPhase)>, a: u32) -> Seq<
    (OpId, OpFamilyPhase),
>
    decreases s.len(),
{
    if s.len() == 0 {
        Seq::empty()
    } else {
        let r = entries_of_action(s.drop_last(), a);
        if s.last().0.0 == a {
            r.push(s.last())
        } else {
            r
        }
    }
}

/// The actions awaited by ops of action `a`, in op order.
pub open spec fn awaited_by_action(s: Seq<(OpId, OpFamilyPhase)>, a: u32) -> Seq<u32>
    decreases s.len(),
{
    if s.len() == 0 {
        Seq::empty()
    } else {
        let r = awaited_by_action(s.drop_last(), a);
        if s.last().0.0 == a && s.last().1 is Awaiting {
            r.push(awaited(s.last().1))
        } else {
            r
        }
    }
}

/// The outcomes of the integrated ops of action `a`, in op order.
pub open spec fn integrated_of_action(s: Seq<(OpId, OpFamilyPhase)>, a: u32) -> Seq<Outcome>
    decreases s.len(),
{
    if s.len() == 0 {
        Seq::empty()
    } else {
        let r = integrated_of_action(s.drop_last(), a);
        if s.last().0.0 == a && s.last().1 is Op && s.last().1->Op_0 is Integrated {
            r.push(s.last().1->Op_0->Integrated_0)
        } else {
            r
        }
    }
}

impl OpFamilyState {
    /// A state in which no op has been seen.
    pub fn new() -> (s: Self)
        ensures
            s@ == Map::<OpId, OpFamilyPhase>::empty(),
    {
        OpFamilyState(SortedMap::new())
    }

    /// All ops of action `key`, in op order.
    pub fn iter_from(&self, key: u32) -> (r: Vec<(OpId, OpFamilyPhase)>)
        ensures
            r@ == entries_of_action(self.0.entries(), key),
    {
        let n = self.0.len();
        let ghost s = self.0.entries();
        let mut r: Vec<(OpId, OpFamilyPhase)> = Vec::new();
        let mut i: usize = 0;
        while i < n
            invariant
                n == s.len(),
                s == self.0.entries(),
                i <= n,
                r@ == entries_of_action(s.take(i as int), key),
            decreases n - i,
        {
            let e = self.0.entry_at(i);
            proof {
                assert(s.take(i + 1).drop_last() =~= s.take(i as int));
            }
            if e.0.0 == key {
                r.push(*e);
            }
            i = i + 1;
        }
        proof {
            assert(s.take(n as int) =~= s);
        }
        r
    }

    /// For every op of action `key` that is awaiting, the action it awaits.
    pub fn all_awaiting(&self, key: u32) -> (r: Vec<u32>)
        ensures
            r@ == awaited_by_action(self.0.entries(), key),
    {
        let n = self.0.len();
        let ghost s = self.0.entries();
        let mut r: Vec<u32> = Vec::new();
        let mut i: usize = 0;
        while i < n
            invariant
                n == s.len(),
                s == self.0.entries(),
                i <= n,
                r@ == awaited_by_action(s.take(i as int), key),
            decreases n - i,
        {
            let e = self.0.entry_at(i);
            proof {
                assert(s.take(i + 1).drop_last() =~= s.take(i as int));
            }
            if e.0.0 == key {
                match e.1 {
                    OpFamilyPhase::Awaiting(_, dep) => r.push(dep),
                    _ => {},
                }
            }
            i = i + 1;
        }
        proof {
            assert(s.take(n as int) =~= s);
        }
        r
    }

    /// The outcome of every integrated op of action `key`.
    pub fn all_integrated(&self, key: u32) -> (r: Vec<Outcome>)
        ensures
            r@ == integrated_of_action(self.0.entries(), key),
    {
        let n = self.0.len();
        let ghost s = self.0.entries();
        let mut r: Vec<Outcome> = Vec::new();
        let mut i: usize = 0;
        while i < n
            invariant
                n == s.len(),
                s == self.0.entries(),
                i <= n,
                r@ == integrated_of_action(s.take(i as int), key),
            decreases n - i,
        {
            let e = self.0.entry_at(i);
            proof {
                assert(s.take(i + 1).drop_last() =~= s.take(i as int));
            }
            if e.0.0 == key {
                match e.1 {
                    OpFamilyPhase::Op(OpPhase::Integrated(o)) => r.push(o),
                    _ => {},
                }
            }
            i = i + 1;
        }
        proof {
            assert(s.take(n as int) =~= s);
        }
        r
    }
}

impl Default for OpFamilyState {
    fn default() -> (s: Self)
        ensures
            s@ == Map::<OpId, OpFamilyPhase>::empty(),
    {
        OpFamilyState::new()
    }
}

fn vec_contains(v: &Vec<u32>, x: u32) -> (b: bool)
    ensures
        b == v@.contains(x),
{
    let mut i: usize = 0;
    while i < v.len()
        invariant
            i <= v.len(),
            forall|j: int| 0 <= j < i ==> v@[j] != x,
        decreases v.len() - i,
    {
        if v[i] == x {
            return true;
        }
        i = i + 1;
    }
    false
}

spec fn s_edge(s: Seq<(OpId, OpFamilyPhase)>, j: int) -> bool {
    0 <= j < s.len() && s[j].1 is Awaiting
}

/// An await of the state, as an entry of the sorted entries `s`, leads
/// from action `a` to action `b` whenever some op of `a` awaits `b`.
proof fn lemma_step_entry(s: Seq<(OpId, OpFamilyPhase)>, a: u32, b: u32)
    requires
        keys_sorted(s),
        await_step(entries_map(s), a, b),
    ensures
        exists|jj: int| #[trigger] s_edge(s, jj) && s[jj].0.0 == a && awaited(s[jj].1) == b,
{
    let m = entries_map(s);
    let k = choose|k: OpId| #[trigger] is_await_edge(m, k) && k.0 == a && awaited(m[k]) == b;
    let jj = choose|jj: int| 0 <= jj < s.len() && s[jj].0 == k;
    lemma_entries_map_at(s, jj);
    assert(s_edge(s, jj));
}

/// The entry `jj` is an await from action `a` to action `b`.
proof fn lemma_entry_step(s: Seq<(OpId, OpFamilyPhase)>, jj: int)
    requires
        keys_sorted(s),
        s_edge(s, jj),
    ensures
        await_step(entries_map(s), s[jj].0.0, awaited(s[jj].1)),
{
    lemma_entries_map_at(s, jj);
    assert(is_await_edge(entries_map(s), s[jj].0));
}

/// The actions one more await away from those of `f`, which are those
/// reached from `id` by `k` awaits.
fn step_frontier(state: &OpFamilyState, id: u32, Ghost(k): Ghost<nat>, f: &Vec<u32>) -> (g: Vec<u32>)
    requires
        forall|v: u32| f@.contains(v) <==> walk_to(state@, id, k, v),
    ensures
        forall|v: u32| g@.contains(v) <==> walk_to(state@, id, k + 1, v),
{
    let ghost s = state.0.entries();
    let ghost m = state@;
    let n = state.0.len();
    let mut g: Vec<u32> = Vec::new();
    let mut j: usize = 0;
    while j < n
        invariant
            s == state.0.entries(),
            m == state@,
            m == entries_map(s),
            keys_sorted(s),
            n == s.len(),
            j <= n,
            forall|v: u32| f@.contains(v) <==> walk_to(m, id, k, v),
            forall|v: u32|
                g@.contains(v) <==> exists|jj: int|
                    0 <= jj < j && #[trigger] s_edge(s, jj) && f@.contains(s[jj].0.0) && awaited(s[jj].1) == v,
        decreases n - j,
    {
        let e = state.0.entry_at(j);
        let ghost g0 = g@;
        match e.1 {
            OpFamilyPhase::Awaiting(_, dep) => {
                if vec_contains(f, e.0.0) {
                    g.push(dep);
                }
            },
            _ => {},
        }
        proof {
            assert forall|v: u32|
                g@.contains(v) <==> exists|jj: int|
                    0 <= jj < j + 1 && #[trigger] s_edge(s, jj) && f@.contains(s[jj].0.0) && awaited(s[jj].1) == v by {
                if g@.contains(v) && !g0.contains(v) {
                    assert(s_edge(s, j as int));
                }
                if g@.contains(v) && g0.contains(v) {
                    let jj = choose|jj: int|
                        0 <= jj < j && #[trigger] s_edge(s, jj) && f@.contains(s[jj].0.0) && awaited(s[jj].1) == v;
                    assert(s_edge(s, jj));
                }
                if exists|jj: int|
                    0 <= jj < j + 1 && #[trigger] s_edge(s, jj) && f@.contains(s[jj].0.0) && awaited(s[jj].1) == v {
                    let jj = choose|jj: int|
                        0 <= jj < j + 1 && #[trigger] s_edge(s, jj) && f@.contains(s[jj].0.0) && awaited(s[jj].1) == v;
                    if jj < j {
                        assert(g0.contains(v));
                        assert(g@.contains(v)) by {
                            let t = choose|t: int| 0 <= t < g0.len() && g0[t] == v;
                            assert(g@[t] == v);
                        }
                    } else {
                        assert(g@.last() == v);
                        assert(g@.contains(v)) by {
                            assert(g@[g@.len() - 1] == v);
                        }
                    }
                }
            }
        }
        j = j + 1;
    }
    proof {
        assert forall|v: u32| g@.contains(v) <==> walk_to(m, id, k + 1, v) by {
            if g@.contains(v) {
                let jj = choose|jj: int|
                    0 <= jj < n && #[trigger] s_edge(s, jj) && f@.contains(s[jj].0.0) && awaited(s[jj].1) == v;
                let a = s[jj].0.0;
                assert(walk_to(m, id, k, a));
                let p = choose|p: Seq<u32>| #[trigger] is_await_path(m, p) && p.len() == k + 1 && p[0] == id && p.last() == a;
                lemma_entry_step(s, jj);
                let q = seq![a, v];
                assert(is_await_path(m, q)) by {
                    assert forall|i: int| 0 <= i < q.len() - 1 implies #[trigger] await_step(m, q[i], q[i + 1]) by {
                        assert(i == 0);
                    }
                }
                lemma_path_join(m, p, q);
                assert((p + q.drop_first()).len() == k + 2);
            }
            if walk_to(m, id, k + 1, v) {
                let p = choose|p: Seq<u32>| #[trigger] is_await_path(m, p) && p.len() == k + 2 && p[0] == id && p.last() == v;
                lemma_path_sub(m, p, 0, k + 1 as int);
                let q = p.subrange(0, k + 1 as int);
                assert(q.last() == p[k as int]);
                assert(walk_to(m, id, k, p[k as int]));
                assert(await_step(m, p[k as int], p[k + 1 as int]));
                lemma_step_entry(s, p[k as int], v);
            }
        }
    }
    g
}

/// A path of more awaits than the state has entries from `root` returns
/// to an action already on it; and a path that does so can be made as long
/// as one likes.
proof fn lemma_loop_iff_long_walk(s: Seq<(OpId, OpFamilyPhase)>, root: u32)
    requires
        keys_sorted(s),
    ensures
        awaits_loop(entries_map(s), root) <==> exists|v: u32| #[trigger] walk_to(entries_map(s), root, s.len() + 1, v),
{
    let m = entries_map(s);
    let n = s.len();
    if awaits_loop(m, root) {
        let v = choose|v: u32| #[trigger] in_family(m, root, v) && awaits_reach(m, v, v);
        let base = if v == root {
            seq![root]
        } else {
            choose|p: Seq<u32>| p.len() >= 2 && p[0] == root && p.last() == v && #[trigger] is_await_path(m, p)
        };
        if v == root {
            assert(is_await_path(m, base)) by {
                assert forall|i: int| 0 <= i < base.len() - 1 implies #[trigger] await_step(m, base[i], base[i + 1]) by {
                }
            }
        }
        let cyc = choose|p: Seq<u32>| p.len() >= 2 && p[0] == v && p.last() == v && #[trigger] is_await_path(m, p);
        lemma_pump(m, base, cyc, n + 2);
        let long = pump(base, cyc, n + 2);
        lemma_path_sub(m, long, 0, n + 2 as int);
        let w = long.subrange(0, n + 2 as int);
        assert(walk_to(m, root, n + 1, w.last()));
    }
    if exists|v: u32| #[trigger] walk_to(m, root, n + 1, v) {
        let v = choose|v: u32| #[trigger] walk_to(m, root, n + 1, v);
        let p = choose|p: Seq<u32>| #[trigger] is_await_path(m, p) && p.len() == n + 2 && p[0] == root && p.last() == v;
        let f = |i: int|
            choose|jj: int| #[trigger] s_edge(s, jj) && s[jj].0.0 == p[i] && awaited(s[jj].1) == p[i + 1];
        assert forall|i: int| 0 <= i < n + 1 implies 0 <= #[trigger] f(i) < n by {
            assert(await_step(m, p[i], p[i + 1]));
            lemma_step_entry(s, p[i], p[i + 1]);
        }
        lemma_pigeonhole(f, n + 1 as int, n as int);
        let (i, j) = choose|i: int, j: int| #![trigger f(i), f(j)] 0 <= i < j < n + 1 && f(i) == f(j);
        assert(await_step(m, p[i], p[i + 1]));
        lemma_step_entry(s, p[i], p[i + 1]);
        assert(await_step(m, p[j], p[j + 1]));
        lemma_step_entry(s, p[j], p[j + 1]);
        let x = p[i + 1];
        assert(p[j + 1] == x);
        lemma_path_sub(m, p, 0, i + 2);
        let pre = p.subrange(0, i + 2);
        assert(pre.last() == x && pre[0] == root);
        assert(awaits_reach(m, root, x));
        lemma_path_sub(m, p, i + 1, j + 2);
        let cyc = p.subrange(i + 1, j + 2);
        assert(cyc[0] == x && cyc.last() == x);
        assert(awaits_reach(m, x, x));
        assert(in_family(m, root, x));
    }
}

/// Whether following awaits from action `id` ever returns to an action
/// already on the path: exactly when some action reached from `id` leads
/// back to itself.
pub fn detect_loop(state: &OpFamilyState, id: u32) -> (r: bool)
    ensures
        r == awaits_loop(state@, id),
{
    let ghost s = state.0.entries();
    let ghost m = state@;
    let n = state.0.len();
    proof {
        assert(state.0.wf());
    }
    let mut f: Vec<u32> = Vec::new();
    f.push(id);
    proof {
        assert forall|v: u32| f@.contains(v) <==> walk_to(m, id, 0, v) by {
            if v == id {
                let p = seq![id];
                assert(is_await_path(m, p)) by {
                    assert forall|i: int| 0 <= i < p.len() - 1 implies #[trigger] await_step(m, p[i], p[i + 1]) by {
                    }
                }
                assert(p.last() == id);
            }
            if f@.contains(v) {
                assert(f@[0] == id);
            }
            if walk_to(m, id, 0, v) {
                let p = choose|p: Seq<u32>| #[trigger] is_await_path(m, p) && p.len() == 1 && p[0] == id && p.last() == v;
                assert(f@[0] == v);
            }
        }
    }
    let mut f = step_frontier(state, id, Ghost(0), &f);
    let mut k: usize = 0;
    while k < n
        invariant
            s == state.0.entries(),
            m == state@,
            n == s.len(),
            k <= n,
            forall|v: u32| f@.contains(v) <==> walk_to(m, id, (k + 1) as nat, v),
        decreases n - k,
    {
        f = step_frontier(state, id, Ghost((k + 1) as nat), &f);
        k = k + 1;
    }
    proof {
        lemma_loop_iff_long_walk(s, id);
        if f.len() > 0 {
            assert(f@.contains(f@[0]));
        }
        if exists|v: u32| #[trigger] walk_to(m, id, (n + 1) as nat, v) {
            let v = choose|v: u32| #[trigger] walk_to(m, id, (n + 1) as nat, v);
            assert(f@.contains(v));
        }
    }
    f.len() > 0
}

// --------------------------------------------------------------------------
// Machine
// --------------------------------------------------------------------------

/// Machine that tracks the state of an op and all its dependencies.
pub struct OpFamilyMachine {
    /// All ops covered, including the root; `None` covers every op.
    pub deps: Option<SortedMap<OpId, ()>>,
}

/// The op `k` of action `a` is integrated in `m`.
pub open spec fn integrated_in(m: Map<OpId, OpFamilyPhase>, a: u32, k: OpId) -> bool {
    &&& m.contains_key(k)
    &&& k.0 == a
    &&& m[k] is Op
    &&& m[k]->Op_0 is Integrated
}

/// `k` is the integrated op of action `a` with the least index.
pub open spec fn is_first_integrated(m: Map<OpId, OpFamilyPhase>, a: u32, k: OpId) -> bool {
    &&& integrated_in(m, a, k)
    &&& forall|k2: OpId| #[trigger] integrated_in(m, a, k2) ==> k.1 <= k2.1
}

/// The integrated op of action `a` with the least index, if any.
pub open spec fn first_integrated(m: Map<OpId, OpFamilyPhase>, a: u32) -> Option<OpId> {
    if exists|k: OpId| #[trigger] is_first_integrated(m, a, k) {
        Some(choose|k: OpId| #[trigger] is_first_integrated(m, a, k))
    } else {
        None
    }
}

/// The op is covered by the machine.
pub open spec fn is_op_handled_spec(machine: OpFamilyMachine, target: OpId) -> bool {
    match machine.deps {
        Some(d) => d@.contains_key(target),
        None => true,
    }
}

/// The action of the focus op (the least covered op), if the machine is bounded.
pub open spec fn focus_action(machine: OpFamilyMachine) -> Option<u32> {
    match machine.deps {
        Some(d) => if d.entries().len() > 0 {
            Some(d.entries()[0].0.0)
        } else {
            None
        },
        None => None,
    }
}

/// The next phase of op `target`, whose other ops are in `rest`.
pub open spec fn family_phase_next(
    rest: Map<OpId, OpFamilyPhase>,
    target: OpId,
    state: OpFamilyPhase,
    action: OpFamilyAction,
) -> Result<OpFamilyPhase, OpFamilyError> {
    match (state, action) {
        (OpFamilyPhase::Op(s), OpFamilyAction::Op(e)) => match op_single_next(s, e) {
            Some(n) => Ok(OpFamilyPhase::Op(n)),
            None => Err(OpFamilyError::Op(InvalidTransition { state: s, action: e })),
        },
        (OpFamilyPhase::Op(s), OpFamilyAction::Await(vt, dep)) => {
            if vt == ValidationType::Sys && s == OpPhase::Stored {
                Ok(OpFamilyPhase::Awaiting(ValidationType::Sys, dep))
            } else if vt == ValidationType::App && s == OpPhase::Validated(ValidationType::Sys) {
                Ok(OpFamilyPhase::Awaiting(ValidationType::App, dep))
            } else {
                Err(OpFamilyError::InvalidAwait(state, action))
            }
        },
        (OpFamilyPhase::Awaiting(vt, dep_id), OpFamilyAction::Op(a)) => {
            if a == OpAction::Validate(vt) {
                match first_integrated(rest, dep_id) {
                    None => Err(OpFamilyError::StillAwaiting(target, dep_id)),
                    Some(k) => if rest[k] == OpFamilyPhase::Op(OpPhase::Integrated(Outcome::Accepted)) {
                        Ok(OpFamilyPhase::Op(OpPhase::Validated(vt)))
                    } else {
                        Ok(state)
                    },
                }
            } else {
                Err(OpFamilyError::InvalidFromAwaiting(state, action))
            }
        },
        (OpFamilyPhase::Awaiting(_, _), OpFamilyAction::Await(_, _)) => Err(
            OpFamilyError::Invalid(state, action),
        ),
    }
}

/// One step of the family machine on the state `m`.
pub open spec fn op_family_next(
    machine: OpFamilyMachine,
    m: Map<OpId, OpFamilyPhase>,
    target: OpId,
    action: OpFamilyAction,
) -> Result<Map<OpId, OpFamilyPhase>, OpFamilyError> {
    if !is_op_handled_spec(machine, target) {
        Err(OpFamilyError::NotCovered(target))
    } else if action is Await && action->Await_1 == target.0 {
        Err(OpFamilyError::SelfDependency)
    } else if action is Await && focus_action(machine) == Some(action->Await_1) {
        Err(OpFamilyError::FocusDependency)
    } else {
        let state = if m.contains_key(target) {
            m[target]
        } else {
            OpFamilyPhase::Op(OpPhase::Unseen)
        };
        let rest = m.remove(target);
        match family_phase_next(rest, target, state, action) {
            Err(e) => Err(e),
            Ok(next) => {
                let m2 = m.insert(target, next);
                if !awaits_loop(m2, target.0) {
                    Ok(m2)
                } else {
                    Err(OpFamilyError::DependencyLoop(state, action))
                }
            },
        }
    }
}

/// Builds the set of covered ops.
fn op_set(ops: Vec<OpId>) -> (r: SortedMap<OpId, ()>)
    ensures
        forall|k: OpId| r@.contains_key(k) <==> ops@.contains(k),
{
    let mut r: SortedMap<OpId, ()> = SortedMap::new();
    let mut i: usize = 0;
    while i < ops.len()
        invariant
            i <= ops.len(),
            forall|k: OpId| r@.contains_key(k) <==> ops@.take(i as int).contains(k),
        decreases ops.len() - i,
    {
        let k = ops[i];
        r.insert(k, ());
        proof {
            let pre = ops@.take(i + 1);
            assert forall|kk: OpId| r@.contains_key(kk) <==> #[trigger] pre.contains(kk) by {
                if pre.contains(kk) {
                    let t = choose|t: int| 0 <= t < i + 1 && pre[t] == kk;
                    if t < i {
                        assert(ops@.take(i as int)[t] == kk);
                    }
                }
                if ops@.take(i as int).contains(kk) {
                    let t = choose|t: int| 0 <= t < i && #[trigger] ops@.take(i as int)[t] == kk;
                    assert(ops@.take(i + 1)[t] == kk);
                }
                if kk == k {
                    assert(ops@.take(i + 1)[i as int] == kk);
                }
            }
        }
        i = i + 1;
    }
    proof {
        assert(ops@.take(ops.len() as int) =~= ops@);
    }
    r
}

impl OpFamilyMachine {
    /// A machine covering every op.
    pub fn new() -> (m: Self)
        ensures
            m.deps is None,
    {
        OpFamilyMachine { deps: None }
    }

    /// A machine covering exactly the given ops.
    pub fn new_bounded(deps: Vec<OpId>) -> (m: Self)
        ensures
            m.deps is Some,
            forall|k: OpId| m.deps->0@.contains_key(k) <==> deps@.contains(k),
    {
        OpFamilyMachine { deps: Some(op_set(deps)) }
    }

    /// The state in which no op has been seen.
    pub fn initial(&self) -> (s: OpFamilyState)
        ensures
            s@ == Map::<OpId, OpFamilyPhase>::empty(),
    {
        OpFamilyState::new()
    }

    /// If the machine specifies a set of deps, then the target op must be in
    /// that set. Otherwise, any op is fair game.
    pub fn is_op_handled(&self, target: &OpId) -> (b: bool)
        ensures
            b == is_op_handled_spec(*self, *target),
    {
        match &self.deps {
            Some(d) => d.contains_key(target),
            None => true,
        }
    }

    fn focus(&self) -> (r: Option<u32>)
        ensures
            r == focus_action(*self),
    {
        match &self.deps {
            Some(d) => if d.len() > 0 {
                Some(d.entry_at(0).0.0)
            } else {
                None
            },
            None => None,
        }
    }

    /// The least op of action `dep_id` that is integrated, with its phase.
    fn find_integrated(states: &OpFamilyState, dep_id: u32) -> (r: Option<(OpId, OpFamilyPhase)>)
        ensures
            match first_integrated(states@, dep_id) {
                None => r is None,
                Some(k) => r == Some((k, states@[k])),
            },
    {
        let ghost s = states.0.entries();
        let ghost m = states@;
        let n = states.0.len();
        let mut i: usize = 0;
        while i < n
            invariant
                s == states.0.entries(),
                m == states@,
                m == entries_map(s),
                keys_sorted(s),
                n == s.len(),
                i <= n,
                forall|j: int| 0 <= j < i ==> !integrated_in(m, dep_id, (#[trigger] s[j]).0),
            decreases n - i,
        {
            let e = states.0.entry_at(i);
            proof {
                lemma_entries_map_at(s, i as int);
            }
            if e.0.0 == dep_id {
                if let OpFamilyPhase::Op(OpPhase::Integrated(_)) = e.1 {
                    proof {
                        let k = s[i as int].0;
                        assert(integrated_in(m, dep_id, k));
                        assert forall|k2: OpId| #[trigger] integrated_in(m, dep_id, k2) implies k.1 <= k2.1 by {
                            let j = choose|j: int| 0 <= j < s.len() && s[j].0 == k2;
                            lemma_entries_map_at(s, j);
                            if j < i {
                                assert(!integrated_in(m, dep_id, s[j].0));
                            } else if j > i {
                                assert(s[i as int].0.key_lt(s[j].0));
                            }
                        }
                        assert(is_first_integrated(m, dep_id, k));
                        let c = choose|c: OpId| #[trigger] is_first_integrated(m, dep_id, c);
                        assert(c.1 <= k.1 && k.1 <= c.1);
                        assert(c == k);
                    }
                    return Some(*e);
                }
            }
            i = i + 1;
        }
        proof {
            if exists|k: OpId| #[trigger] is_first_integrated(m, dep_id, k) {
                let k = choose|k: OpId| #[trigger] is_first_integrated(m, dep_id, k);
                let j = choose|j: int| 0 <= j < s.len() && s[j].0 == k;
                assert(!integrated_in(m, dep_id, s[j].0));
            }
        }
        None
    }

    fn phase_next(
        states: &OpFamilyState,
        target: OpId,
        state: OpFamilyPhase,
        action: OpFamilyAction,
    ) -> (r: Result<OpFamilyPhase, OpFamilyError>)
        ensures
            r == family_phase_next(states@, target, state, action),
    {
        match (state, action) {
            (OpFamilyPhase::Op(s), OpFamilyAction::Op(e)) => match OpSingleMachine.step(s, e) {
                Ok(n) => Ok(OpFamilyPhase::Op(n)),
                Err(err) => Err(OpFamilyError::Op(err)),
            },
            (OpFamilyPhase::Op(s), OpFamilyAction::Await(vt, dep_id)) => match (vt, s) {
                (ValidationType::Sys, OpPhase::Stored) => Ok(
                    OpFamilyPhase::Awaiting(ValidationType::Sys, dep_id),
                ),
                (ValidationType::App, OpPhase::Validated(ValidationType::Sys)) => Ok(
                    OpFamilyPhase::Awaiting(ValidationType::App, dep_id),
                ),
                _ => Err(OpFamilyError::InvalidAwait(state, action)),
            },
            (OpFamilyPhase::Awaiting(vt, dep_id), OpFamilyAction::Op(a)) => match (vt, a) {
                (ValidationType::Sys, OpAction::Validate(ValidationType::Sys)) | (
                    ValidationType::App,
                    OpAction::Validate(ValidationType::App),
                ) => {
                    match Self::find_integrated(states, dep_id) {
                        None => Err(OpFamilyError::StillAwaiting(target, dep_id)),
                        Some((_, OpFamilyPhase::Op(OpPhase::Integrated(Outcome::Accepted)))) => Ok(
                            OpFamilyPhase::Op(OpPhase::Validated(vt)),
                        ),
                        Some(_) => Ok(state),
                    }
                },
                _ => Err(OpFamilyError::InvalidFromAwaiting(state, action)),
            },
            (OpFamilyPhase::Awaiting(_, _), OpFamilyAction::Await(_, _)) => Err(
                OpFamilyError::Invalid(state, action),
            ),
        }
    }
}

impl Machine for OpFamilyMachine {
    type State = OpFamilyState;
    type Action = (OpId, OpFamilyAction);
    type Fx = ();
    type Error = OpFamilyError;

    open spec fn admissible(&self, state: OpFamilyState, action: (OpId, OpFamilyAction)) -> bool {
        true
    }

    fn is_admissible(&self, state: &OpFamilyState, action: &(OpId, OpFamilyAction)) -> (b: bool) {
        true
    }

    open spec fn outcome(
        &self,
        states: OpFamilyState,
        step: (OpId, OpFamilyAction),
        r: Result<(OpFamilyState, ()), OpFamilyError>,
    ) -> bool {
        match op_family_next(*self, states@, step.0, step.1) {
            Ok(m) => r is Ok && r->Ok_0.0@ == m,
            Err(e) => r == Err::<(OpFamilyState, ()), OpFamilyError>(e),
        }
    }

    fn transition(&self, states: OpFamilyState, step: (OpId, OpFamilyAction)) -> (r: Result<
        (OpFamilyState, ()),
        OpFamilyError,
    >)
    {
        let (target, action) = step;
        let mut states = states;
        if !self.is_op_handled(&target) {
            return Err(OpFamilyError::NotCovered(target));
        }
        let ghost m0 = states@;
        // Add a new state when seen if we didn't already bail.
        if !states.0.contains_key(&target) {
            states.0.insert(target, OpFamilyPhase::Op(OpPhase::Unseen));
        }
        if let OpFamilyAction::Await(_, dep) = action {
            if dep == target.0 {
                return Err(OpFamilyError::SelfDependency);
            }
            if let Some(f) = self.focus() {
                if dep == f {
                    return Err(OpFamilyError::FocusDependency);
                }
            }
        }
        let state = match states.0.remove(&target) {
            Some(p) => p,
            None => {
                return Err(OpFamilyError::NotCovered(target));
            },
        };
        proof {
            assert(states@ =~= m0.remove(target));
        }
        let next = match Self::phase_next(&states, target, state, action) {
            Ok(p) => p,
            Err(e) => {
                return Err(e);
            },
        };
        states.0.insert(target, next);
        proof {
            assert(states@ =~= m0.insert(target, next));
        }
        if detect_loop(&states, target.0) {
            return Err(OpFamilyError::DependencyLoop(state, action));
        }
        Ok((states, ()))
    }

    fn is_terminal(&self, _state: &OpFamilyState) -> (b: bool)
        ensures
            !b,
    {
        false
    }
}


/// An op may wait on another action before any validation it is about to
/// undergo: wherever validating it would move it on to a new validated
/// phase, awaiting that validation instead makes it wait on the action.
pub proof fn lemma_await_before_validation(
    rest: Map<OpId, OpFamilyPhase>,
    target: OpId,
    s: OpPhase,
    vt: ValidationType,
    dep: u32,
)
    requires
        op_single_next(s, OpAction::Validate(vt)) == Some(OpPhase::Validated(vt)),
        s != OpPhase::Validated(vt),
    ensures
        family_phase_next(rest, target, OpFamilyPhase::Op(s), OpFamilyAction::Await(vt, dep))
            == Ok::<OpFamilyPhase, OpFamilyError>(OpFamilyPhase::Awaiting(vt, dep)),
{
}

} // verus!
