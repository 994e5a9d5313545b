//! A schedule of values due at relative times, in the order they are due.
//!
//! Each item carries its time and an ordinal among the items due at the
//! same time, so that items inserted for the same time come out in
//! insertion order.

use vstd::prelude::*;
use std::collections::VecDeque;

verus! {

pub open spec fn time_of<V>(e: ((u8, u8), V)) -> u8 {
    e.0.0
}

pub open spec fn ordinal_of<V>(e: ((u8, u8), V)) -> u8 {
    e.0.1
}

/// Items are ordered by (time, ordinal).
pub open spec fn schedule_sorted<V>(s: Seq<((u8, u8), V)>) -> bool {
    forall|i: int, j: int|
        #![trigger s[i], s[j]]
        0 <= i < j < s.len() ==> time_of(s[i]) < time_of(s[j]) || (time_of(s[i]) == time_of(s[j])
            && ordinal_of(s[i]) < ordinal_of(s[j]))
}

/// The first item due at each time has ordinal 0.
pub open spec fn schedule_first_zero<V>(s: Seq<((u8, u8), V)>) -> bool {
    forall|i: int|
        0 <= i < s.len() && (i == 0 || time_of(s[i - 1]) != time_of(#[trigger] s[i])) ==> ordinal_of(
            s[i],
        ) == 0
}

/// Each further item due at the same time has the next ordinal.
pub open spec fn schedule_consecutive<V>(s: Seq<((u8, u8), V)>) -> bool {
    forall|i: int|
        0 < i < s.len() && time_of(s[i - 1]) == time_of(#[trigger] s[i]) ==> ordinal_of(s[i])
            == ordinal_of(s[i - 1]) + 1
}

/// Items are ordered by (time, ordinal), and the items due at one time
/// are numbered 0, 1, 2, ... in order.
pub open spec fn schedule_wf<V>(s: Seq<((u8, u8), V)>) -> bool {
    &&& schedule_sorted(s)
    &&& schedule_first_zero(s)
    &&& schedule_consecutive(s)
}

/// How many items are due at or before time `t`.
pub open spec fn count_due_by<V>(s: Seq<((u8, u8), V)>, t: u8) -> nat
    decreases s.len(),
{
    if s.len() == 0 {
        0
    } else {
        count_due_by(s.drop_last(), t) + if time_of(s.last()) <= t {
            1nat
        } else {
            0nat
        }
    }
}

/// The ordinal a new item due at `t` gets: one past that of the last item
/// due at `t`, or 0 when there is none.
pub open spec fn next_ordinal<V>(s: Seq<((u8, u8), V)>, t: u8) -> int {
    let p = count_due_by(s, t) as int;
    if p > 0 && time_of(s[p - 1]) == t {
        ordinal_of(s[p - 1]) + 1
    } else {
        0
    }
}

/// The items after one due at `t` is taken: every time is moved `t`
/// earlier, and the other items due at `t` move up one ordinal.
pub open spec fn shift_by<V>(s: Seq<((u8, u8), V)>, t: u8) -> Seq<((u8, u8), V)> {
    Seq::new(
        s.len(),
        |i: int|
            (
                (
                    (time_of(s[i]) - t) as u8,
                    if time_of(s[i]) == t {
                        (ordinal_of(s[i]) - 1) as u8
                    } else {
                        ordinal_of(s[i])
                    },
                ),
                s[i].1,
            ),
    )
}

proof fn lemma_count_due_by<V>(s: Seq<((u8, u8), V)>, t: u8, p: int)
    requires
        schedule_wf(s),
        0 <= p <= s.len(),
        forall|j: int| 0 <= j < p ==> time_of(#[trigger] s[j]) <= t,
        forall|j: int| p <= j < s.len() ==> time_of(#[trigger] s[j]) > t,
    ensures
        count_due_by(s, t) == p,
    decreases s.len(),
{
    if s.len() > 0 {
        let s2 = s.drop_last();
        assert(schedule_wf(s2)) by {
            assert forall|i: int| 0 <= i < s2.len() implies s2[i] == s[i] by {}
        }
        if p == s.len() {
            lemma_count_due_by(s2, t, p - 1);
        } else {
            lemma_count_due_by(s2, t, p);
        }
    }
}

proof fn lemma_insert_sorted<V>(s: Seq<((u8, u8), V)>, i: int, t: u8, b: u8, v: V)
    requires
        schedule_sorted(s),
        0 <= i <= s.len(),
        forall|j: int| 0 <= j < i ==> time_of(#[trigger] s[j]) <= t,
        forall|j: int| i <= j < s.len() ==> time_of(#[trigger] s[j]) > t,
        i > 0 && time_of(s[i - 1]) == t ==> b == ordinal_of(s[i - 1]) + 1,
    ensures
        schedule_sorted(s.insert(i, ((t, b), v))),
{
    let s2 = s.insert(i, ((t, b), v));
    assert forall|a: int, c: int|
        #![trigger s2[a], s2[c]]
        0 <= a < c < s2.len() implies time_of(s2[a]) < time_of(s2[c]) || (time_of(s2[a])
            == time_of(s2[c]) && ordinal_of(s2[a]) < ordinal_of(s2[c])) by {
        if c < i {
            assert(s2[a] == s[a] && s2[c] == s[c]);
        } else if c == i {
            assert(s2[a] == s[a]);
            if time_of(s[a]) == t && a < i - 1 {
                assert(time_of(s[a]) <= time_of(s[i - 1]));
            }
        } else if a < i {
            assert(s2[a] == s[a] && s2[c] == s[c - 1]);
        } else if a == i {
            assert(s2[c] == s[c - 1]);
        } else {
            assert(s2[a] == s[a - 1] && s2[c] == s[c - 1]);
        }
    }
}

proof fn lemma_insert_first_zero<V>(s: Seq<((u8, u8), V)>, i: int, t: u8, b: u8, v: V)
    requires
        schedule_first_zero(s),
        0 <= i <= s.len(),
        i > 0 ==> time_of(s[i - 1]) <= t,
        i < s.len() ==> time_of(s[i]) > t,
        !(i > 0 && time_of(s[i - 1]) == t) ==> b == 0,
    ensures
        schedule_first_zero(s.insert(i, ((t, b), v))),
{
    let s2 = s.insert(i, ((t, b), v));
    assert forall|k: int|
        0 <= k < s2.len() && (k == 0 || time_of(s2[k - 1]) != time_of(#[trigger] s2[k])) implies
        ordinal_of(s2[k]) == 0 by {
        if k < i {
            assert(s2[k] == s[k]);
            if k > 0 {
                assert(s2[k - 1] == s[k - 1]);
            }
        } else if k == i {
            if k > 0 {
                assert(s2[k - 1] == s[k - 1]);
            }
        } else if k == i + 1 {
            assert(s2[k] == s[k - 1]);
        } else {
            assert(s2[k] == s[k - 1] && s2[k - 1] == s[k - 2]);
        }
    }
}

proof fn lemma_insert_consecutive<V>(s: Seq<((u8, u8), V)>, i: int, t: u8, b: u8, v: V)
    requires
        schedule_consecutive(s),
        0 <= i <= s.len(),
        i < s.len() ==> time_of(s[i]) > t,
        i > 0 && time_of(s[i - 1]) == t ==> b == ordinal_of(s[i - 1]) + 1,
    ensures
        schedule_consecutive(s.insert(i, ((t, b), v))),
{
    let s2 = s.insert(i, ((t, b), v));
    assert forall|k: int|
        0 < k < s2.len() && time_of(s2[k - 1]) == time_of(#[trigger] s2[k]) implies ordinal_of(s2[k])
        == ordinal_of(s2[k - 1]) + 1 by {
        if k < i {
            assert(s2[k] == s[k] && s2[k - 1] == s[k - 1]);
        } else if k == i {
            assert(s2[k - 1] == s[k - 1]);
        } else if k == i + 1 {
            assert(s2[k] == s[k - 1]);
        } else {
            assert(s2[k] == s[k - 1] && s2[k - 1] == s[k - 2]);
        }
    }
}

/// A schedule of values.
pub struct Schedule<V> {
    items: VecDeque<((u8, u8), V)>,
}

impl<V> Schedule<V> {
    #[verifier::type_invariant]
    spec fn inv(self) -> bool {
        schedule_wf(self.items@)
    }

    /// The items, in order.
    pub closed spec fn view_items(&self) -> Seq<((u8, u8), V)> {
        self.items@
    }

    /// An empty schedule.
    pub fn new() -> (s: Self)
        ensures
            s.view_items() == Seq::<((u8, u8), V)>::empty(),
            schedule_wf(s.view_items()),
    {
        Schedule { items: VecDeque::new() }
    }

    /// The items, in order.
    pub fn items(&self) -> (r: &VecDeque<((u8, u8), V)>)
        ensures
            r@ == self.view_items(),
    {
        &self.items
    }

    /// Schedule `v` at time `t`, after everything due at or before `t`.
    pub fn insert(&mut self, tv: (u8, V))
        requires
            next_ordinal(old(self).view_items(), tv.0) < 256,
        ensures
            schedule_wf(final(self).view_items()),
            final(self).view_items() == old(self).view_items().insert(
                count_due_by(old(self).view_items(), tv.0) as int,
                ((tv.0, next_ordinal(old(self).view_items(), tv.0) as u8), tv.1),
            ),
    {
        proof {
            use_type_invariant(&*self);
        }
        let (t, v) = tv;
        let ghost s = self.items@;
        let n = self.items.len();
        let mut i: usize = 0;
        while i < n && self.items[i].0.0 <= t
            invariant
                s == self.items@,
                n == s.len(),
                i <= n,
                forall|j: int| 0 <= j < i ==> time_of(#[trigger] s[j]) <= t,
            decreases n - i,
        {
            i = i + 1;
        }
        proof {
            assert forall|j: int| i <= j < s.len() implies time_of(#[trigger] s[j]) > t by {
                if j > i {
                    assert(time_of(s[i as int]) <= time_of(s[j]));
                }
            }
            lemma_count_due_by(s, t, i as int);
        }
        let b: u8 = if i > 0 && self.items[i - 1].0.0 == t {
            self.items[i - 1].0.1 + 1
        } else {
            0
        };
        proof {
            if i > 0 {
                assert(time_of(s[i - 1]) <= t);
            }
            if i < s.len() {
                assert(time_of(s[i as int]) > t);
            }
            lemma_insert_sorted(s, i as int, t, b, v);
            lemma_insert_first_zero(s, i as int, t, b, v);
            lemma_insert_consecutive(s, i as int, t, b, v);
        }
        let mut items: VecDeque<((u8, u8), V)> = VecDeque::new();
        std::mem::swap(&mut items, &mut self.items);
        items.insert(i, ((t, b), v));
        self.items = items;
    }

    /// Take the item due first; the remaining times move that much earlier.
    pub fn pop(&mut self) -> (r: Option<V>)
        ensures
            schedule_wf(final(self).view_items()),
            old(self).view_items().len() == 0 ==> r is None && final(self).view_items() == old(
                self,
            ).view_items(),
            old(self).view_items().len() > 0 ==> r == Some(old(self).view_items()[0].1)
                && final(self).view_items() == shift_by(
                old(self).view_items().drop_first(),
                time_of(old(self).view_items()[0]),
            ),
    {
        proof {
            use_type_invariant(&*self);
        }
        let ghost s = self.items@;
        let mut items: VecDeque<((u8, u8), V)> = VecDeque::new();
        std::mem::swap(&mut items, &mut self.items);
        let ((t, b), v) = match items.pop_front() {
            Some(x) => x,
            None => {
                self.items = items;
                return None;
            },
        };
        let ghost rest = items@;
        proof {
            assert(rest =~= s.drop_first());
            assert(b == 0);
            assert forall|k: int| 0 <= k < rest.len() implies time_of(#[trigger] rest[k]) >= t && (time_of(rest[k]) == t
                ==> ordinal_of(rest[k]) >= 1) by {
                assert(rest[k] == s[k + 1]);
                assert(time_of(s[0]) <= time_of(s[k + 1]));
                if time_of(s[k + 1]) == t {
                    assert(time_of(s[k]) <= time_of(s[k + 1]));
                    if k > 0 {
                        assert(time_of(s[0]) <= time_of(s[k]));
                    }
                    assert(time_of(s[k]) == t);
                }
            }
        }
        let n = items.len();
        let mut k: usize = 0;
        while k < n
            invariant
                n == rest.len(),
                k <= n,
                forall|j: int| 0 <= j < rest.len() ==> time_of(#[trigger] rest[j]) >= t && (time_of(rest[j]) == t
                    ==> ordinal_of(rest[j]) >= 1),
                items@ == rest.subrange(k as int, n as int) + shift_by(rest, t).subrange(0, k as int),
            decreases n - k,
        {
            let ghost before = items@;
            let ((tt, bb), vv) = match items.pop_front() {
                Some(x) => x,
                None => {
                    proof {
                        assert(false);
                    }
                    return None;
                },
            };
            proof {
                assert(before[0] == rest[k as int]);
                assert(time_of(rest[k as int]) >= t);
            }
            let nb = if tt == t {
                bb - 1
            } else {
                bb
            };
            items.push_back(((tt - t, nb), vv));
            proof {
                assert(items@ =~= rest.subrange(k + 1, n as int) + shift_by(rest, t).subrange(0, k + 1));
            }
            k = k + 1;
        }
        proof {
            let s2 = items@;
            assert(s2 =~= shift_by(rest, t));
            assert forall|a: int, c: int|
                #![trigger s2[a], s2[c]]
                0 <= a < c < s2.len() implies time_of(s2[a]) < time_of(s2[c]) || (time_of(s2[a])
                    == time_of(s2[c]) && ordinal_of(s2[a]) < ordinal_of(s2[c])) by {
                assert(s[a + 1] == rest[a] && s[c + 1] == rest[c]);
            }
            assert forall|q: int|
                0 <= q < s2.len() && (q == 0 || time_of(s2[q - 1]) != time_of(#[trigger] s2[q])) implies
                ordinal_of(s2[q]) == 0 by {
                assert(s[q + 1] == rest[q]);
                if q > 0 {
                    assert(s[q] == rest[q - 1]);
                }
            }
            assert forall|q: int|
                0 < q < s2.len() && time_of(s2[q - 1]) == time_of(#[trigger] s2[q]) implies ordinal_of(s2[q])
                == ordinal_of(s2[q - 1]) + 1 by {
                assert(s[q + 1] == rest[q]);
                assert(s[q] == rest[q - 1]);
            }
        }
        self.items = items;
        Some(v)
    }
}

impl<V> Default for Schedule<V> {
    fn default() -> (s: Self)
        ensures
            s.view_items() == Seq::<((u8, u8), V)>::empty(),
    {
        Schedule::new()
    }
}


/// How many items are due at time `t`.
pub open spec fn count_at<V>(s: Seq<((u8, u8), V)>, t: u8) -> nat
    decreases s.len(),
{
    if s.len() == 0 {
        0
    } else {
        count_at(s.drop_last(), t) + if time_of(s.last()) == t {
            1nat
        } else {
            0nat
        }
    }
}

proof fn lemma_wf_drop_last<V>(s: Seq<((u8, u8), V)>)
    requires
        schedule_wf(s),
        s.len() > 0,
    ensures
        schedule_wf(s.drop_last()),
{
    let d = s.drop_last();
    assert forall|i: int, j: int| 0 <= i < j < d.len() implies time_of(#[trigger] d[i]) < time_of(#[trigger] d[j])
        || (time_of(d[i]) == time_of(d[j]) && ordinal_of(d[i]) < ordinal_of(d[j])) by {
        assert(d[i] == s[i] && d[j] == s[j]);
    }
    assert forall|i: int| 0 <= i < d.len() && (i == 0 || time_of(d[i - 1]) != time_of(#[trigger] d[i])) implies ordinal_of(d[i]) == 0 by {
        assert(d[i] == s[i]);
        if i > 0 {
            assert(d[i - 1] == s[i - 1]);
        }
    }
    assert forall|i: int| 0 < i < d.len() && time_of(d[i - 1]) == time_of(#[trigger] d[i]) implies ordinal_of(d[i])
        == ordinal_of(d[i - 1]) + 1 by {
        assert(d[i] == s[i] && d[i - 1] == s[i - 1]);
    }
}

proof fn lemma_count_due_all<V>(s: Seq<((u8, u8), V)>, t: u8)
    requires
        forall|i: int| 0 <= i < s.len() ==> time_of(#[trigger] s[i]) <= t,
    ensures
        count_due_by(s, t) == s.len(),
    decreases s.len(),
{
    if s.len() > 0 {
        let d = s.drop_last();
        assert forall|i: int| 0 <= i < d.len() implies time_of(#[trigger] d[i]) <= t by {
            assert(d[i] == s[i]);
        }
        lemma_count_due_all(d, t);
        assert(time_of(s[s.len() - 1]) <= t);
    }
}

proof fn lemma_count_at_none<V>(s: Seq<((u8, u8), V)>, t: u8)
    requires
        forall|i: int| 0 <= i < s.len() ==> time_of(#[trigger] s[i]) < t,
    ensures
        count_at(s, t) == 0,
    decreases s.len(),
{
    if s.len() > 0 {
        let d = s.drop_last();
        assert forall|i: int| 0 <= i < d.len() implies time_of(#[trigger] d[i]) < t by {
            assert(d[i] == s[i]);
        }
        lemma_count_at_none(d, t);
        assert(time_of(s[s.len() - 1]) < t);
    }
}

proof fn lemma_count_due_le<V>(s: Seq<((u8, u8), V)>, t: u8)
    ensures
        count_due_by(s, t) <= s.len(),
    decreases s.len(),
{
    if s.len() > 0 {
        lemma_count_due_le(s.drop_last(), t);
    }
}

/// In a well-formed schedule, the ordinal a new item due at `t` gets is
/// the number of items already due at `t`.
pub proof fn lemma_next_ordinal_counts<V>(s: Seq<((u8, u8), V)>, t: u8)
    requires
        schedule_wf(s),
    ensures
        next_ordinal(s, t) == count_at(s, t),
    decreases s.len(),
{
    if s.len() > 0 {
        let d = s.drop_last();
        let l = s.last();
        lemma_wf_drop_last(s);
        lemma_next_ordinal_counts(d, t);
        lemma_count_due_le(d, t);
        if time_of(l) > t {
            assert(count_due_by(s, t) == count_due_by(d, t));
            let p = count_due_by(d, t) as int;
            if p > 0 {
                assert(s[p - 1] == d[p - 1]);
            }
        } else {
            assert forall|i: int| 0 <= i < d.len() implies time_of(#[trigger] d[i]) <= time_of(l) by {
                assert(d[i] == s[i]);
                assert(s[i] == s[i]);
                assert(s[s.len() - 1] == l);
            }
            lemma_count_due_all(d, t);
            assert(count_due_by(s, t) == s.len());
            assert(s[s.len() - 1] == l);
            if time_of(l) < t {
                assert forall|i: int| 0 <= i < d.len() implies time_of(#[trigger] d[i]) < t by {
                    assert(time_of(d[i]) <= time_of(l));
                }
                lemma_count_at_none(d, t);
            } else {
                if d.len() > 0 && time_of(d.last()) == t {
                    assert(d[d.len() - 1] == s[s.len() - 2]);
                    lemma_count_due_all(d, t);
                    assert(time_of(s[s.len() - 2]) == time_of(s[s.len() - 1]));
                    assert(ordinal_of(s[s.len() - 1]) == ordinal_of(s[s.len() - 2]) + 1);
                } else {
                    assert(ordinal_of(s[s.len() - 1]) == 0) by {
                        let i = s.len() - 1;
                        if i > 0 {
                            assert(s[i - 1] == d.last());
                        }
                    }
                    if d.len() > 0 {
                        assert(time_of(d.last()) < t) by {
                            assert(d.last() == d[d.len() - 1]);
                        }
                        assert forall|i: int| 0 <= i < d.len() implies time_of(#[trigger] d[i]) < t by {
                            assert(d[i] == s[i]);
                            if i < d.len() - 1 {
                                assert(time_of(s[i]) <= time_of(s[d.len() - 1]));
                            }
                        }
                        lemma_count_at_none(d, t);
                    }
                }
            }
        }
    }
}

} // verus!
