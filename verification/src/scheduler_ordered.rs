//! A schedule of values due at relative times, where a value can also be
//! held with no time: untimed values wait behind every timed one, and a
//! value is held untimed at most once.
//!
//! The items are kept in a persistent vector of times and slots, sorted by
//! time; each slot indexes the value the item carries.

use vstd::prelude::*;
use vstd::std_specs::cmp::PartialEqSpec;
use std::cmp::Ordering;

verus! {

/// When an item is due: a time and an ordinal among the items due at that
/// time, or no time at all.
pub type Time = Option<(u8, u8)>;

#[verifier::external_type_specification]
#[verifier::external_body]
#[verifier::reject_recursive_types(A)]
pub struct ExVector<A>(im::Vector<A>);

/// The items of a vector of times and slots, in order.
pub uninterp spec fn vector_items(v: im::Vector<(Option<(u8, u8)>, usize)>) -> Seq<
    (Option<(u8, u8)>, usize),
>;

/// `a` is due no later than `b`: timed items by time, then ordinal, and
/// untimed items after all timed ones.
pub open spec fn time_le(a: Option<(u8, u8)>, b: Option<(u8, u8)>) -> bool {
    match (a, b) {
        (Some((t1, b1)), Some((t2, b2))) => t1 < t2 || (t1 == t2 && b1 <= b2),
        (Some(_), None) => true,
        (None, Some(_)) => false,
        (None, None) => true,
    }
}

/// The order of two times: by time, then ordinal, untimed last.
pub fn time_order(a: &Option<(u8, u8)>, b: &Option<(u8, u8)>) -> (o: Ordering)
    ensures
        (o == Ordering::Less) == (time_le(*a, *b) && *a != *b),
        (o == Ordering::Equal) == (*a == *b),
        (o == Ordering::Greater) == !time_le(*a, *b),
{
    match (a, b) {
        (Some((t1, b1)), Some((t2, b2))) => {
            if *t1 < *t2 || (*t1 == *t2 && *b1 < *b2) {
                Ordering::Less
            } else if *t1 == *t2 && *b1 == *b2 {
                Ordering::Equal
            } else {
                Ordering::Greater
            }
        },
        (Some(_), None) => Ordering::Less,
        (None, Some(_)) => Ordering::Greater,
        (None, None) => Ordering::Equal,
    }
}

/// `a` holds the items of `b`, rearranged.
pub open spec fn is_permutation_of<T>(a: Seq<T>, b: Seq<T>) -> bool {
    &&& a.len() == b.len()
    &&& exists|p: Seq<int>|
        {
            &&& p.len() == a.len()
            &&& forall|i: int| 0 <= i < p.len() ==> 0 <= #[trigger] p[i] < b.len()
            &&& forall|i: int, j: int| 0 <= i < j < p.len() ==> p[i] != p[j]
            &&& forall|i: int| 0 <= i < p.len() ==> a[i] == b[#[trigger] p[i]]
        }
}

/// The times are in order.
pub open spec fn times_sorted<T>(s: Seq<(Option<(u8, u8)>, T)>) -> bool {
    forall|i: int, j: int| 0 <= i < j < s.len() ==> time_le(s[i].0, s[j].0)
}

/// Every item's slot holds a value.
pub open spec fn slots_ok<V>(values: Seq<Option<V>>, s: Seq<(Option<(u8, u8)>, usize)>) -> bool {
    forall|i: int| 0 <= i < s.len() ==> (#[trigger] s[i]).1 < values.len() && values[s[i].1 as int] is Some
}

/// No two items share a slot.
pub open spec fn slots_distinct(s: Seq<(Option<(u8, u8)>, usize)>) -> bool {
    forall|i: int, j: int| 0 <= i < j < s.len() ==> (#[trigger] s[i]).1 != (#[trigger] s[j]).1
}

/// No two timed items have the same time.
pub open spec fn times_distinct<T>(s: Seq<(Option<(u8, u8)>, T)>) -> bool {
    forall|i: int, j: int| 0 <= i < j < s.len() && (#[trigger] s[i]).0 is Some ==> s[i].0 != (#[trigger] s[j]).0
}

/// The items with the values their slots hold.
pub open spec fn items_view<V>(values: Seq<Option<V>>, s: Seq<(Option<(u8, u8)>, usize)>) -> Seq<
    (Option<(u8, u8)>, V),
> {
    s.map_values(|e: (Option<(u8, u8)>, usize)| (e.0, values[e.1 as int]->Some_0))
}

/// Arranging the items and then reading their values is reading them and
/// then arranging; the times are those of the items.
proof fn lemma_arrange_view<V>(values: Seq<Option<V>>, s: Seq<(Option<(u8, u8)>, usize)>, order: Seq<int>)
    requires
        order.len() == s.len(),
        forall|i: int| 0 <= i < s.len() ==> 0 <= #[trigger] order[i] < s.len(),
    ensures
        items_view(values, arrange(s, order)) == arrange(items_view(values, s), order),
        times_of(items_view(values, s)) == times_of(s),
{
    assert(items_view(values, arrange(s, order)) =~= arrange(items_view(values, s), order));
    assert(times_of(items_view(values, s)) =~= times_of(s));
}

/// The items in the arrangement that the sort by time puts them in.
pub open spec fn sorted_by_time<V>(s: Seq<(Option<(u8, u8)>, V)>) -> Seq<(Option<(u8, u8)>, V)> {
    arrange(s, time_sort_order(times_of(s), usize::BITS))
}

/// A rearrangement keeps every slot holding a value, the slots apart, and
/// the times apart, and rearranges the items' values with them.
proof fn lemma_permutation_keeps<V>(
    values: Seq<Option<V>>,
    s1: Seq<(Option<(u8, u8)>, usize)>,
    s2: Seq<(Option<(u8, u8)>, usize)>,
)
    requires
        slots_ok(values, s1),
        slots_distinct(s1),
        times_distinct(s1),
        is_permutation_of(s2, s1),
    ensures
        slots_ok(values, s2),
        slots_distinct(s2),
        times_distinct(s2),
        is_permutation_of(items_view(values, s2), items_view(values, s1)),
{
    let p = choose|p: Seq<int>|
        {
            &&& p.len() == s2.len()
            &&& forall|i: int| 0 <= i < p.len() ==> 0 <= #[trigger] p[i] < s1.len()
            &&& forall|i: int, j: int| 0 <= i < j < p.len() ==> p[i] != p[j]
            &&& forall|i: int| 0 <= i < p.len() ==> s2[i] == s1[#[trigger] p[i]]
        };
    assert forall|i: int| 0 <= i < s2.len() implies (#[trigger] s2[i]).1 < values.len() && values[s2[i].1 as int] is Some by {
        assert(s2[i] == s1[p[i]]);
    }
    assert forall|i: int, j: int| 0 <= i < j < s2.len() implies (#[trigger] s2[i]).1 != (#[trigger] s2[j]).1 by {
        assert(s2[i] == s1[p[i]] && s2[j] == s1[p[j]]);
        assert(p[i] != p[j]);
    }
    assert forall|i: int, j: int| 0 <= i < j < s2.len() && (#[trigger] s2[i]).0 is Some implies s2[i].0 != (#[trigger] s2[j]).0 by {
        assert(s2[i] == s1[p[i]] && s2[j] == s1[p[j]]);
        assert(p[i] != p[j]);
    }
    let v1 = items_view(values, s1);
    let v2 = items_view(values, s2);
    assert forall|i: int| 0 <= i < p.len() implies v2[i] == v1[#[trigger] p[i]] by {
        assert(s2[i] == s1[p[i]]);
    }
}

/// `im::Vector::new`: an empty vector.
#[verifier::external_body]
fn vector_new() -> (v: im::Vector<(Option<(u8, u8)>, usize)>)
    ensures
        vector_items(v) == Seq::<(Option<(u8, u8)>, usize)>::empty(),
{
    im::Vector::new()
}

/// `im::Vector::len`: the number of items.
#[verifier::external_body]
fn vector_len(v: &im::Vector<(Option<(u8, u8)>, usize)>) -> (n: usize)
    ensures
        n == vector_items(*v).len(),
{
    v.len()
}

/// `im::Vector::get`: the item at index `i`, if there is one.
#[verifier::external_body]
fn vector_get(v: &im::Vector<(Option<(u8, u8)>, usize)>, i: usize) -> (r: Option<
    (Option<(u8, u8)>, usize),
>)
    ensures
        i < vector_items(*v).len() ==> r == Some(vector_items(*v)[i as int]),
        i >= vector_items(*v).len() ==> r is None,
{
    v.get(i).copied()
}

/// `im::Vector::push_back`: appends an item.
#[verifier::external_body]
fn vector_push_back(v: &mut im::Vector<(Option<(u8, u8)>, usize)>, x: (Option<(u8, u8)>, usize))
    ensures
        vector_items(*final(v)) == vector_items(*old(v)).push(x),
{
    v.push_back(x)
}

/// `im::Vector::pop_front`: removes and returns the first item, if any.
#[verifier::external_body]
fn vector_pop_front(v: &mut im::Vector<(Option<(u8, u8)>, usize)>) -> (r: Option<
    (Option<(u8, u8)>, usize),
>)
    ensures
        vector_items(*old(v)).len() == 0 ==> r is None && vector_items(*final(v)) == vector_items(
            *old(v),
        ),
        vector_items(*old(v)).len() > 0 ==> r == Some(vector_items(*old(v))[0]) && vector_items(
            *final(v),
        ) == vector_items(*old(v)).drop_first(),
{
    v.pop_front()
}

/// `im::Vector::remove`: removes and returns the item at index `i`, shifting
/// the later items down. It panics when `i` is out of bounds.
#[verifier::external_body]
fn vector_remove(v: &mut im::Vector<(Option<(u8, u8)>, usize)>, i: usize) -> (r: (
    Option<(u8, u8)>,
    usize,
))
    requires
        i < vector_items(*old(v)).len(),
    ensures
        r == vector_items(*old(v))[i as int],
        vector_items(*final(v)) == vector_items(*old(v)).remove(i as int),
{
    v.remove(i)
}

/// The arrangement in which `im::Vector::sort_by`, comparing by time, puts
/// items with these times on a machine whose `usize` has `word_bits` bits:
/// the item at position `i` afterwards is the one at position `order[i]`
/// before. (The sort draws its pivots through a cast to `usize`, so among
/// items of equal time the arrangement may depend on the word size.)
pub uninterp spec fn time_sort_order(times: Seq<Option<(u8, u8)>>, word_bits: u32) -> Seq<int>;

/// The items of `s` in the arrangement `order`.
pub open spec fn arrange<T>(s: Seq<T>, order: Seq<int>) -> Seq<T> {
    Seq::new(s.len(), |i: int| s[order[i]])
}

/// `im::Vector::sort_by`, comparing items by time: the items are
/// rearranged into order of time. The sort is not stable, but it is
/// deterministic (its pivots come from a generator seeded with a constant)
/// and the comparison reads the times alone, so the arrangement is a
/// function of the times and the word size: the name `time_sort_order`
/// stands for it.
#[verifier::external_body]
fn vector_sort_by_time(v: &mut im::Vector<(Option<(u8, u8)>, usize)>)
    ensures
        is_permutation_of(vector_items(*final(v)), vector_items(*old(v))),
        times_sorted(vector_items(*final(v))),
        time_sort_order(times_of(vector_items(*old(v))), usize::BITS).len() == vector_items(*old(v)).len(),
        forall|i: int|
            0 <= i < vector_items(*old(v)).len() ==> 0 <= #[trigger] time_sort_order(
                times_of(vector_items(*old(v))),
                usize::BITS,
            )[i] < vector_items(*old(v)).len(),
        vector_items(*final(v)) == arrange(
            vector_items(*old(v)),
            time_sort_order(times_of(vector_items(*old(v))), usize::BITS),
        ),
{
    v.sort_by(|a, b| time_order(&a.0, &b.0))
}

/// The ordinal of the last item due at time `t`, if any.
pub open spec fn last_ordinal(times: Seq<Option<(u8, u8)>>, t: u8) -> Option<u8>
    decreases times.len(),
{
    if times.len() == 0 {
        None
    } else {
        match times.last() {
            Some((tt, bb)) if tt == t => Some(bb),
            _ => last_ordinal(times.drop_last(), t),
        }
    }
}

/// The ordinal a new item due at `t` gets: one past that of the last item
/// due at `t`, or 0 when there is none.
pub open spec fn next_ordinal(times: Seq<Option<(u8, u8)>>, t: u8) -> int {
    match last_ordinal(times, t) {
        Some(b) => b + 1,
        None => 0,
    }
}

/// In sorted items with distinct times, every item due at `t` has an
/// ordinal below the next one.
proof fn lemma_next_ordinal_fresh<V>(s: Seq<(Option<(u8, u8)>, V)>, t: u8)
    requires
        times_sorted(s),
        times_distinct(s),
    ensures
        forall|i: int|
            0 <= i < s.len() && (#[trigger] s[i]).0 is Some && s[i].0->Some_0.0 == t ==> s[i].0->Some_0.1
                < next_ordinal(times_of(s), t),
    decreases s.len(),
{
    if s.len() > 0 {
        let r = s.drop_last();
        assert(times_of(s).drop_last() =~= times_of(r));
        lemma_next_ordinal_fresh(r, t);
        let n = s.len() - 1;
        assert forall|i: int|
            0 <= i < s.len() && (#[trigger] s[i]).0 is Some && s[i].0->Some_0.0 == t implies s[i].0->Some_0.1
                < next_ordinal(times_of(s), t) by {
            match s[n].0 {
                Some((tl, bl)) => {
                    if tl == t {
                        if i < n {
                            assert(time_le(s[i].0, s[n].0));
                            assert(s[i].0 != s[n].0);
                        }
                    } else {
                        if i < n {
                            assert(r[i] == s[i]);
                        }
                    }
                },
                None => {
                    if i < n {
                        assert(r[i] == s[i]);
                    }
                },
            }
        }
    }
}

/// After the first item, due at `t` with ordinal 0, is taken, every other
/// timed item is due no earlier, and those due at `t` have a later
/// ordinal; moving them all `t` earlier keeps them in order and apart.
proof fn lemma_shift_keeps(s: Seq<(Option<(u8, u8)>, usize)>, t: u8)
    requires
        s.len() > 0,
        s[0].0 == Some((t, 0u8)),
        times_sorted(s),
        times_distinct(s),
    ensures
        forall|j: int|
            0 <= j < s.len() - 1 && (#[trigger] s.drop_first()[j]).0 is Some ==> s.drop_first()[j].0->Some_0.0 >= t
                && (s.drop_first()[j].0->Some_0.0 == t ==> s.drop_first()[j].0->Some_0.1 >= 1),
        times_sorted(shift_by(s.drop_first(), t)),
        times_distinct(shift_by(s.drop_first(), t)),
{
    let r = s.drop_first();
    let q = shift_by(r, t);
    assert forall|j: int|
        0 <= j < r.len() && (#[trigger] r[j]).0 is Some implies r[j].0->Some_0.0 >= t && (r[j].0->Some_0.0 == t
            ==> r[j].0->Some_0.1 >= 1) by {
        assert(r[j] == s[j + 1]);
        assert(time_le(s[0].0, s[j + 1].0));
        assert(s[0].0 != s[j + 1].0);
    }
    assert forall|i: int, j: int| 0 <= i < j < q.len() implies time_le(q[i].0, q[j].0) by {
        assert(r[i] == s[i + 1] && r[j] == s[j + 1]);
        assert(time_le(s[i + 1].0, s[j + 1].0));
        if r[i].0 is Some {
            assert(time_le(s[0].0, s[i + 1].0));
            assert(s[0].0 != s[i + 1].0);
        }
        if r[j].0 is Some {
            assert(time_le(s[0].0, s[j + 1].0));
            assert(s[0].0 != s[j + 1].0);
        }
    }
    assert forall|i: int, j: int| 0 <= i < j < q.len() && (#[trigger] q[i]).0 is Some implies q[i].0 != (#[trigger] q[j]).0 by {
        assert(r[i] == s[i + 1] && r[j] == s[j + 1]);
        assert(s[i + 1].0 != s[j + 1].0);
        assert(time_le(s[0].0, s[i + 1].0));
        assert(s[0].0 != s[i + 1].0);
        if r[j].0 is Some {
            assert(time_le(s[0].0, s[j + 1].0));
            assert(s[0].0 != s[j + 1].0);
        }
    }
}

/// The times of the items, in order.
pub open spec fn times_of<V>(s: Seq<(Option<(u8, u8)>, V)>) -> Seq<Option<(u8, u8)>> {
    s.map_values(|e: (Option<(u8, u8)>, V)| e.0)
}

/// The items after the first one, due at `t`, is taken: every timed item is
/// moved `t` earlier, and the other items due at `t` move up one ordinal.
pub open spec fn shift_by<V>(s: Seq<(Option<(u8, u8)>, V)>, t: u8) -> Seq<(Option<(u8, u8)>, V)> {
    s.map_values(
        |e: (Option<(u8, u8)>, V)|
            (
                match e.0 {
                    Some((tt, bb)) => Some(
                        (
                            (tt - t) as u8,
                            if tt == t {
                                (bb - 1) as u8
                            } else {
                                bb
                            },
                        ),
                    ),
                    None => None,
                },
                e.1,
            ),
    )
}

/// A schedule of values.
pub struct Schedule<V> {
    items: im::Vector<(Option<(u8, u8)>, usize)>,
    values: Vec<Option<V>>,
}

impl<V> Schedule<V> {
    /// The items, in order, each with the value it carries.
    pub closed spec fn view_items(&self) -> Seq<(Option<(u8, u8)>, V)> {
        items_view(self.values@, vector_items(self.items))
    }

    /// Every item's slot holds a value, no two items share a slot, the
    /// items are in order of time, and no two items have the same time.
    #[verifier::type_invariant]
    spec fn inv(self) -> bool {
        &&& slots_ok(self.values@, vector_items(self.items))
        &&& slots_distinct(vector_items(self.items))
        &&& times_sorted(vector_items(self.items))
        &&& times_distinct(vector_items(self.items))
    }

    /// An empty schedule.
    pub fn new() -> (s: Self)
        ensures
            s.view_items() == Seq::<(Option<(u8, u8)>, V)>::empty(),
    {
        let s = Schedule { items: vector_new(), values: Vec::new() };
        assert(s.view_items() =~= Seq::<(Option<(u8, u8)>, V)>::empty());
        s
    }

    /// The items, in order: each time with the slot of its value.
    pub fn items(&self) -> (r: &im::Vector<(Option<(u8, u8)>, usize)>)
        ensures
            times_of(self.view_items()) == vector_items(*r).map_values(
                |e: (Option<(u8, u8)>, usize)| e.0,
            ),
    {
        assert(times_of(self.view_items()) =~= vector_items(self.items).map_values(
            |e: (Option<(u8, u8)>, usize)| e.0,
        ));
        &self.items
    }

    /// The number of items.
    pub fn len(&self) -> (n: usize)
        ensures
            n == self.view_items().len(),
    {
        vector_len(&self.items)
    }

    /// The time of the item at index `i`, and its value.
    pub fn get(&self, i: usize) -> (r: Option<(Option<(u8, u8)>, &V)>)
        ensures
            i < self.view_items().len() ==> (r matches Some((t, v)) && t == self.view_items()[i as int].0
                && *v == self.view_items()[i as int].1),
            i >= self.view_items().len() ==> r is None,
    {
        proof {
            use_type_invariant(self);
        }
        match vector_get(&self.items, i) {
            Some((t, slot)) => match &self.values[slot] {
                Some(v) => Some((t, v)),
                None => {
                    proof {
                        assert(false);
                    }
                    None
                },
            },
            None => None,
        }
    }
}

impl<V: PartialEq> Schedule<V> {
    /// Schedule `v` at time `t`, or with no time. A timed item gets the
    /// next ordinal at its time. An untimed value is added only if no item
    /// holds an equal value. Either way the items are then sorted by time;
    /// the order among untimed items is left open.
    pub fn insert(&mut self, t: Option<u8>, v: V)
        requires
            t matches Some(tt) ==> next_ordinal(times_of(old(self).view_items()), tt) < 256,
        ensures
            times_sorted(final(self).view_items()),
            t matches Some(tt) ==> is_permutation_of(
                final(self).view_items(),
                old(self).view_items().push(
                    (Some((tt, next_ordinal(times_of(old(self).view_items()), tt) as u8)), v),
                ),
            ),
            t is None ==> is_permutation_of(final(self).view_items(), old(self).view_items())
                || is_permutation_of(final(self).view_items(), old(self).view_items().push((None, v))),
            t is None && V::obeys_eq_spec() && (exists|i: int|
                0 <= i < old(self).view_items().len() && v.eq_spec(
                    &(#[trigger] old(self).view_items()[i]).1,
                )) ==> is_permutation_of(final(self).view_items(), old(self).view_items()),
            t is None && V::obeys_eq_spec() && !(exists|i: int|
                0 <= i < old(self).view_items().len() && v.eq_spec(
                    &(#[trigger] old(self).view_items()[i]).1,
                )) ==> is_permutation_of(
                final(self).view_items(),
                old(self).view_items().push((None, v)),
            ),
            t matches Some(tt) ==> final(self).view_items() == sorted_by_time(
                old(self).view_items().push(
                    (Some((tt, next_ordinal(times_of(old(self).view_items()), tt) as u8)), v),
                ),
            ),
            t is None && V::obeys_eq_spec() && (exists|i: int|
                0 <= i < old(self).view_items().len() && v.eq_spec(
                    &(#[trigger] old(self).view_items()[i]).1,
                )) ==> final(self).view_items() == sorted_by_time(old(self).view_items()),
            t is None && V::obeys_eq_spec() && !(exists|i: int|
                0 <= i < old(self).view_items().len() && v.eq_spec(
                    &(#[trigger] old(self).view_items()[i]).1,
                )) ==> final(self).view_items() == sorted_by_time(old(self).view_items().push((None, v))),
    {
        proof {
            use_type_invariant(&*self);
        }
        let ghost s = vector_items(self.items);
        let ghost vals = self.values@;
        let ghost view0 = self.view_items();
        proof {
            assert(times_of(view0) =~= times_of(s));
        }
        let n = vector_len(&self.items);
        let time = match t {
            Some(t) => {
                let mut last: Option<u8> = None;
                let mut i: usize = 0;
                while i < n
                    invariant
                        n == s.len(),
                        s == vector_items(self.items),
                        i <= n,
                        last == last_ordinal(times_of(s).take(i as int), t),
                    decreases n - i,
                {
                    proof {
                        assert(times_of(s).take(i + 1).drop_last() =~= times_of(s).take(i as int));
                    }
                    match vector_get(&self.items, i) {
                        Some((Some((tt, bb)), _)) => {
                            if tt == t {
                                last = Some(bb);
                            }
                        },
                        _ => {},
                    }
                    i = i + 1;
                }
                proof {
                    assert(times_of(s).take(n as int) =~= times_of(s));
                    lemma_next_ordinal_fresh(s, t);
                }
                let b: u8 = match last {
                    Some(bb) => bb + 1,
                    None => 0,
                };
                Some((t, b))
            },
            None => {
                let mut found = false;
                let mut i: usize = 0;
                while i < n
                    invariant
                        n == s.len(),
                        s == vector_items(self.items),
                        vals == self.values@,
                        view0 == items_view(vals, s),
                        slots_ok(vals, s),
                        i <= n,
                        V::obeys_eq_spec() ==> (found <==> exists|j: int|
                            0 <= j < i && v.eq_spec(&(#[trigger] view0[j]).1)),
                    decreases n - i,
                {
                    let ghost found0 = found;
                    if !found {
                        match vector_get(&self.items, i) {
                            Some((_, slot)) => match &self.values[slot] {
                                Some(x) => {
                                    if v == *x {
                                        found = true;
                                    }
                                },
                                None => {},
                            },
                            None => {},
                        }
                    }
                    proof {
                        assert(view0[i as int].1 == vals[s[i as int].1 as int]->Some_0);
                        if V::obeys_eq_spec() {
                            if found0 {
                                let j = choose|j: int| 0 <= j < i && v.eq_spec(&(#[trigger] view0[j]).1);
                                assert(0 <= j < i + 1 && v.eq_spec(&view0[j].1));
                            }
                            if exists|j: int| 0 <= j < i + 1 && v.eq_spec(&(#[trigger] view0[j]).1) {
                                let j = choose|j: int| 0 <= j < i + 1 && v.eq_spec(&(#[trigger] view0[j]).1);
                                if j < i {
                                    assert(0 <= j < i && v.eq_spec(&view0[j].1));
                                }
                            }
                        }
                    }
                    i = i + 1;
                }
                if found {
                    let mut items = vector_new();
                    std::mem::swap(&mut items, &mut self.items);
                    vector_sort_by_time(&mut items);
                    proof {
                        lemma_permutation_keeps(vals, s, vector_items(items));
                        lemma_arrange_view(vals, s, time_sort_order(times_of(s), usize::BITS));
                    }
                    self.items = items;
                    return;
                }
                None
            },
        };
        let mut items = vector_new();
        std::mem::swap(&mut items, &mut self.items);
        let mut values: Vec<Option<V>> = Vec::new();
        std::mem::swap(&mut values, &mut self.values);
        let slot = values.len();
        let ghost v_ghost = v;
        values.push(Some(v));
        vector_push_back(&mut items, (time, slot));
        proof {
            let s1 = vector_items(items);
            let vals1 = values@;
            assert(s1 == s.push((time, slot)));
            assert forall|i: int| 0 <= i < s1.len() implies (#[trigger] s1[i]).1 < vals1.len() && vals1[s1[i].1 as int] is Some by {
                if i < s.len() {
                    assert(s1[i] == s[i]);
                }
            }
            assert forall|i: int, j: int| 0 <= i < j < s1.len() implies (#[trigger] s1[i]).1 != (#[trigger] s1[j]).1 by {
                assert(s1[i] == s[i]);
                if j < s.len() {
                    assert(s1[j] == s[j]);
                }
            }
            assert forall|i: int, j: int| 0 <= i < j < s1.len() && (#[trigger] s1[i]).0 is Some implies s1[i].0 != (#[trigger] s1[j]).0 by {
                assert(s1[i] == s[i]);
                if j < s.len() {
                    assert(s1[j] == s[j]);
                }
            }
            assert(items_view(vals1, s1) =~= view0.push((time, v_ghost))) by {
                assert forall|i: int| 0 <= i < s.len() implies items_view(vals1, s1)[i] == view0[i] by {
                    assert(s1[i] == s[i]);
                }
            }
        }
        let ghost s1 = vector_items(items);
        vector_sort_by_time(&mut items);
        proof {
            lemma_permutation_keeps(values@, s1, vector_items(items));
            lemma_arrange_view(values@, s1, time_sort_order(times_of(s1), usize::BITS));
        }
        self.values = values;
        self.items = items;
    }
}

impl<V> Schedule<V> {
    /// Take the item due first, if it is timed: its value is returned and
    /// the remaining timed items move that much earlier, those due at the
    /// same time moving up one ordinal. An untimed first item is not taken.
    pub fn pop(&mut self) -> (r: Option<V>)
        requires
            old(self).view_items().len() > 0 && old(self).view_items()[0].0 is Some ==> old(
                self,
            ).view_items()[0].0->Some_0.1 == 0,
        ensures
            times_sorted(final(self).view_items()),
            old(self).view_items().len() == 0 || old(self).view_items()[0].0 is None ==> r is None
                && final(self).view_items() == old(self).view_items(),
            old(self).view_items().len() > 0 && old(self).view_items()[0].0 is Some ==> r == Some(
                old(self).view_items()[0].1,
            ) && final(self).view_items() == shift_by(
                old(self).view_items().drop_first(),
                old(self).view_items()[0].0->Some_0.0,
            ),
    {
        proof {
            use_type_invariant(&*self);
        }
        let ghost s = vector_items(self.items);
        let ghost vals = self.values@;
        let ghost view0 = self.view_items();
        let t = match vector_get(&self.items, 0) {
            Some((Some((t, _)), _)) => t,
            _ => {
                return None;
            },
        };
        proof {
            lemma_shift_keeps(s, t);
        }
        let mut items = vector_new();
        std::mem::swap(&mut items, &mut self.items);
        let mut values: Vec<Option<V>> = Vec::new();
        std::mem::swap(&mut values, &mut self.values);
        let slot = match vector_pop_front(&mut items) {
            Some((_, slot)) => slot,
            None => {
                proof {
                    assert(false);
                }
                return None;
            },
        };
        let mut taken: Option<V> = None;
        values.set_and_swap(slot, &mut taken);
        let v = match taken {
            Some(v) => v,
            None => {
                proof {
                    assert(false);
                }
                return None;
            },
        };
        let ghost rest = vector_items(items);
        let n = vector_len(&items);
        let mut k: usize = 0;
        while k < n
            invariant
                n == rest.len(),
                k <= n,
                rest == s.drop_first(),
                forall|j: int|
                    0 <= j < rest.len() && (#[trigger] rest[j]).0 is Some ==> rest[j].0->Some_0.0 >= t
                        && (rest[j].0->Some_0.0 == t ==> rest[j].0->Some_0.1 >= 1),
                vector_items(items) == rest.subrange(k as int, n as int) + shift_by(rest, t).subrange(
                    0,
                    k as int,
                ),
            decreases n - k,
        {
            let ghost before = vector_items(items);
            let (time, sl) = match vector_pop_front(&mut items) {
                Some(x) => x,
                None => {
                    proof {
                        assert(false);
                    }
                    return None;
                },
            };
            proof {
                assert(before[0] == rest[k as int]);
            }
            let shifted = match time {
                Some((tt, bb)) => {
                    if tt == t {
                        Some((tt - t, bb - 1))
                    } else {
                        Some((tt - t, bb))
                    }
                },
                None => None,
            };
            vector_push_back(&mut items, (shifted, sl));
            proof {
                assert(vector_items(items) =~= rest.subrange(k + 1, n as int) + shift_by(rest, t).subrange(
                    0,
                    k + 1,
                ));
            }
            k = k + 1;
        }
        proof {
            let s2 = vector_items(items);
            assert(s2 =~= shift_by(rest, t));
            assert forall|i: int| 0 <= i < s2.len() implies (#[trigger] s2[i]).1 < values@.len() && values@[s2[i].1 as int] is Some by {
                assert(s2[i].1 == s[i + 1].1);
                assert(s[0].1 != s[i + 1].1);
            }
            assert forall|i: int, j: int| 0 <= i < j < s2.len() implies (#[trigger] s2[i]).1 != (#[trigger] s2[j]).1 by {
                assert(s2[i].1 == s[i + 1].1 && s2[j].1 == s[j + 1].1);
            }
            assert(items_view(values@, s2) =~= shift_by(view0.drop_first(), t)) by {
                assert forall|i: int| 0 <= i < s2.len() implies items_view(values@, s2)[i] == shift_by(view0.drop_first(), t)[i] by {
                    assert(s2[i].1 == s[i + 1].1);
                    assert(s[0].1 != s[i + 1].1);
                }
            }
        }
        self.values = values;
        self.items = items;
        Some(v)
    }

    /// Take the first item whose value `f` accepts, if any.
    pub fn remove_by<F: Fn(&V) -> bool>(&mut self, f: F) -> (r: Option<V>)
        requires
            forall|x: &V| call_requires(f, (x,)),
        ensures
            times_sorted(final(self).view_items()),
            r is None ==> final(self).view_items() == old(self).view_items() && forall|i: int|
                0 <= i < old(self).view_items().len() ==> call_ensures(
                    f,
                    (&(#[trigger] old(self).view_items()[i]).1,),
                    false,
                ),
            r is Some ==> exists|i: int|
                {
                    &&& 0 <= i < old(self).view_items().len()
                    &&& r == Some((#[trigger] old(self).view_items()[i]).1)
                    &&& call_ensures(f, (&old(self).view_items()[i].1,), true)
                    &&& forall|j: int|
                        0 <= j < i ==> call_ensures(f, (&(#[trigger] old(self).view_items()[j]).1,), false)
                    &&& final(self).view_items() == old(self).view_items().remove(i)
                },
    {
        proof {
            use_type_invariant(&*self);
        }
        let ghost s = vector_items(self.items);
        let ghost view0 = self.view_items();
        let n = vector_len(&self.items);
        let mut i: usize = 0;
        let mut hit = false;
        while i < n
            invariant_except_break
                !hit,
                forall|j: int| 0 <= j < i ==> call_ensures(f, (&(#[trigger] view0[j]).1,), false),
            invariant
                n == s.len(),
                s == vector_items(self.items),
                view0 == self.view_items(),
                slots_ok(self.values@, s),
                forall|x: &V| call_requires(f, (x,)),
                i <= n,
            ensures
                hit ==> i < n && call_ensures(f, (&view0[i as int].1,), true) && forall|j: int|
                    0 <= j < i ==> call_ensures(f, (&(#[trigger] view0[j]).1,), false),
                !hit ==> i == n && forall|j: int| 0 <= j < n ==> call_ensures(f, (&(#[trigger] view0[j]).1,), false),
            decreases n - i,
        {
            let slot = match vector_get(&self.items, i) {
                Some((_, slot)) => slot,
                None => {
                    proof {
                        assert(false);
                    }
                    0
                },
            };
            let accepted = match &self.values[slot] {
                Some(x) => f(x),
                None => {
                    proof {
                        assert(false);
                    }
                    false
                },
            };
            if accepted {
                hit = true;
                break;
            }
            i = i + 1;
        }
        if !hit {
            return None;
        }
        let mut items = vector_new();
        std::mem::swap(&mut items, &mut self.items);
        let mut values: Vec<Option<V>> = Vec::new();
        std::mem::swap(&mut values, &mut self.values);
        let (_, slot) = vector_remove(&mut items, i);
        let mut taken: Option<V> = None;
        values.set_and_swap(slot, &mut taken);
        let v = match taken {
            Some(v) => v,
            None => {
                proof {
                    assert(false);
                }
                return None;
            },
        };
        proof {
            let s2 = vector_items(items);
            assert(s2 == s.remove(i as int));
            assert forall|a: int| 0 <= a < s2.len() implies (#[trigger] s2[a]).1 < values@.len() && values@[s2[a].1 as int] is Some by {
                if a < i {
                    assert(s2[a] == s[a]);
                    assert(s[a].1 != s[i as int].1);
                } else {
                    assert(s2[a] == s[a + 1]);
                    assert(s[i as int].1 != s[a + 1].1);
                }
            }
            assert forall|a: int, b: int| 0 <= a < b < s2.len() implies (#[trigger] s2[a]).1 != (#[trigger] s2[b]).1 by {
                let a1 = if a < i { a } else { a + 1 };
                let b1 = if b < i { b } else { b + 1 };
                assert(s2[a] == s[a1] && s2[b] == s[b1]);
            }
            assert forall|a: int, b: int| 0 <= a < b < s2.len() implies time_le(s2[a].0, s2[b].0) by {
                let a1 = if a < i { a } else { a + 1 };
                let b1 = if b < i { b } else { b + 1 };
                assert(s2[a] == s[a1] && s2[b] == s[b1]);
            }
            assert forall|a: int, b: int| 0 <= a < b < s2.len() && (#[trigger] s2[a]).0 is Some implies s2[a].0 != (#[trigger] s2[b]).0 by {
                let a1 = if a < i { a } else { a + 1 };
                let b1 = if b < i { b } else { b + 1 };
                assert(s2[a] == s[a1] && s2[b] == s[b1]);
            }
            assert(items_view(values@, s2) =~= view0.remove(i as int)) by {
                assert forall|a: int| 0 <= a < s2.len() implies items_view(values@, s2)[a] == view0.remove(i as int)[a] by {
                    if a < i {
                        assert(s2[a] == s[a]);
                        assert(s[a].1 != s[i as int].1);
                    } else {
                        assert(s2[a] == s[a + 1]);
                        assert(s[i as int].1 != s[a + 1].1);
                    }
                }
            }
            assert(v == view0[i as int].1);
        }
        self.values = values;
        self.items = items;
        Some(v)
    }
}

impl<V> Default for Schedule<V> {
    fn default() -> (s: Self)
        ensures
            s.view_items() == Seq::<(Option<(u8, u8)>, V)>::empty(),
    {
        Schedule::new()
    }
}

/// The key of the keyed value `e` compares equal to `k`.
pub open spec fn key_is<K: PartialEq, V>(e: (K, V), k: K) -> bool {
    e.0.eq_spec(&k)
}

fn key_matches<K: PartialEq, V>(e: &(K, V), k: &K) -> (b: bool)
    ensures
        K::obeys_eq_spec() ==> b == key_is(*e, *k),
{
    e.0 == *k
}

/// A schedule of keyed values, with at most one value per key.
pub struct ScheduleKv<K, V>(pub Schedule<(K, V)>);

impl<K: PartialEq, V: PartialEq> ScheduleKv<K, V> {
    /// Some item's key compares equal to `k`.
    pub open spec fn holds_key(&self, k: K) -> bool {
        exists|i: int| 0 <= i < self.0.view_items().len() && (#[trigger] self.0.view_items()[i]).1.0.eq_spec(&k)
    }

    /// An empty schedule.
    pub fn new() -> (s: Self)
        ensures
            s.0.view_items() == Seq::<(Option<(u8, u8)>, (K, V))>::empty(),
    {
        ScheduleKv(Schedule::new())
    }

    /// Whether some item has the key `k`.
    pub fn has_key(&self, k: &K) -> (r: bool)
        ensures
            K::obeys_eq_spec() ==> r == self.holds_key(*k),
    {
        let n = self.0.len();
        let mut i: usize = 0;
        while i < n
            invariant
                n == self.0.view_items().len(),
                i <= n,
                K::obeys_eq_spec() ==> forall|j: int|
                    0 <= j < i ==> !(#[trigger] self.0.view_items()[j]).1.0.eq_spec(k),
            decreases n - i,
        {
            match self.0.get(i) {
                Some((_, kv)) => {
                    if kv.0 == *k {
                        return true;
                    }
                },
                None => {},
            }
            i = i + 1;
        }
        false
    }

    /// The value of the first item with the key `k`, if any.
    pub fn get_key(&self, k: &K) -> (r: Option<&V>)
        ensures
            K::obeys_eq_spec() ==> (r is None <==> !self.holds_key(*k)),
            K::obeys_eq_spec() && r is Some ==> exists|i: int|
                {
                    &&& 0 <= i < self.0.view_items().len()
                    &&& (#[trigger] self.0.view_items()[i]).1.0.eq_spec(k)
                    &&& *r->Some_0 == self.0.view_items()[i].1.1
                    &&& forall|j: int| 0 <= j < i ==> !(#[trigger] self.0.view_items()[j]).1.0.eq_spec(k)
                },
    {
        let n = self.0.len();
        let mut i: usize = 0;
        while i < n
            invariant
                n == self.0.view_items().len(),
                i <= n,
                K::obeys_eq_spec() ==> forall|j: int|
                    0 <= j < i ==> !(#[trigger] self.0.view_items()[j]).1.0.eq_spec(k),
            decreases n - i,
        {
            match self.0.get(i) {
                Some((_, kv)) => {
                    if kv.0 == *k {
                        return Some(&kv.1);
                    }
                },
                None => {},
            }
            i = i + 1;
        }
        None
    }

    /// Take the first item with the key `k`, returning its value.
    pub fn remove_key(&mut self, k: &K) -> (r: Option<V>)
        ensures
            times_sorted(final(self).0.view_items()),
            r is None ==> final(self).0.view_items() == old(self).0.view_items(),
            K::obeys_eq_spec() ==> (r is None <==> !old(self).holds_key(*k)),
            K::obeys_eq_spec() && r is Some ==> exists|i: int|
                {
                    &&& 0 <= i < old(self).0.view_items().len()
                    &&& (#[trigger] old(self).0.view_items()[i]).1.0.eq_spec(k)
                    &&& r == Some(old(self).0.view_items()[i].1.1)
                    &&& final(self).0.view_items() == old(self).0.view_items().remove(i)
                },
    {
        let same_key = |e: &(K, V)| -> (b: bool)
            ensures
                K::obeys_eq_spec() ==> b == key_is(*e, *k),
            { key_matches(e, k) };
        let found = self.0.remove_by(same_key);
        match found {
            Some((_, v)) => Some(v),
            None => None,
        }
    }

    /// Schedule `v` under the key `k` at time `t`, unless some item already
    /// has the key; true if it was scheduled.
    pub fn insert_kv(&mut self, t: Option<u8>, k: K, v: V) -> (r: bool)
        requires
            t matches Some(tt) ==> next_ordinal(times_of(old(self).0.view_items()), tt) < 256 || (
            K::obeys_eq_spec() && old(self).holds_key(k)),
        ensures
            !r ==> final(self).0.view_items() == old(self).0.view_items(),
            K::obeys_eq_spec() ==> r == !old(self).holds_key(k),
            t matches Some(tt) ==> (r ==> is_permutation_of(
                final(self).0.view_items(),
                old(self).0.view_items().push(
                    (Some((tt, next_ordinal(times_of(old(self).0.view_items()), tt) as u8)), (k, v)),
                ),
            )),
            t matches Some(tt) ==> (r ==> final(self).0.view_items() == sorted_by_time(
                old(self).0.view_items().push(
                    (Some((tt, next_ordinal(times_of(old(self).0.view_items()), tt) as u8)), (k, v)),
                ),
            )),
            r && t is None && K::obeys_eq_spec() && V::obeys_eq_spec() && (forall|i: int|
                0 <= i < old(self).0.view_items().len() ==> !k.eq_spec(
                    &(#[trigger] old(self).0.view_items()[i]).1.0,
                )) ==> final(self).0.view_items() == sorted_by_time(
                old(self).0.view_items().push((None, (k, v))),
            ),
            r && t is None ==> is_permutation_of(final(self).0.view_items(), old(self).0.view_items())
                || is_permutation_of(
                final(self).0.view_items(),
                old(self).0.view_items().push((None, (k, v))),
            ),
    {
        if self.has_key(&k) {
            false
        } else {
            proof {
                let s0 = self.0.view_items();
                if K::obeys_eq_spec() && V::obeys_eq_spec() && (forall|i: int|
                    0 <= i < s0.len() ==> !k.eq_spec(&(#[trigger] s0[i]).1.0)) {
                    assert forall|i: int| 0 <= i < s0.len() implies !(k, v).eq_spec(&(#[trigger] s0[i]).1) by {
                        assert(!k.eq_spec(&s0[i].1.0));
                    }
                }
            }
            self.0.insert(t, (k, v));
            true
        }
    }
}


/// How many of `times` are due at time `t`.
pub open spec fn count_at(times: Seq<Option<(u8, u8)>>, t: u8) -> nat
    decreases times.len(),
{
    if times.len() == 0 {
        0
    } else {
        count_at(times.drop_last(), t) + if times.last() is Some && times.last()->Some_0.0 == t {
            1nat
        } else {
            0nat
        }
    }
}

/// The items due at `t` are numbered 0, 1, 2, ... in the order they stand.
pub open spec fn numbered_in_order(times: Seq<Option<(u8, u8)>>, t: u8) -> bool {
    forall|i: int|
        0 <= i < times.len() && (#[trigger] times[i]) is Some && times[i]->Some_0.0 == t
            ==> times[i]->Some_0.1 == count_at(times.take(i), t)
}

/// Where the items due at `t` are numbered in the order they stand, the
/// ordinal a new item due at `t` gets is the number of items already due
/// at `t`.
pub proof fn lemma_next_ordinal_counts(times: Seq<Option<(u8, u8)>>, t: u8)
    requires
        numbered_in_order(times, t),
    ensures
        next_ordinal(times, t) == count_at(times, t),
    decreases times.len(),
{
    if times.len() > 0 {
        let d = times.drop_last();
        assert forall|i: int|
            0 <= i < d.len() && (#[trigger] d[i]) is Some && d[i]->Some_0.0 == t implies d[i]->Some_0.1
                == count_at(d.take(i), t) by {
            assert(d[i] == times[i]);
            assert(d.take(i) =~= times.take(i));
        }
        lemma_next_ordinal_counts(d, t);
        let l = times.last();
        if l is Some && l->Some_0.0 == t {
            assert(times[times.len() - 1] == l);
            assert(times.take(times.len() - 1) =~= d);
        }
    }
}

} // verus!
