//! Helpers for working with effects in transition functions.

use vstd::prelude::*;

verus! {

/// The passed-through effects of a run of outcomes: the first error if any
/// outcome is one, otherwise the outcomes that pass an effect through, in
/// order.
pub open spec fn collect_fx<B, E>(outs: Seq<Result<Option<B>, E>>) -> Result<Seq<B>, E>
    decreases outs.len(),
{
    if outs.len() == 0 {
        Ok(Seq::empty())
    } else {
        match outs[0] {
            Err(e) => Err(e),
            Ok(o) => match collect_fx(outs.drop_first()) {
                Err(e) => Err(e),
                Ok(rest) => Ok(
                    match o {
                        Some(b) => seq![b] + rest,
                        None => rest,
                    },
                ),
            },
        }
    }
}

/// `outs` are outcomes of `f` on the effects, in order, up to and including
/// the first error, and cover every effect unless one of them is an error.
pub open spec fn is_absorb_run<A, B, E, F: FnMut(A) -> Result<Option<B>, E>>(
    fx: Seq<A>,
    f: F,
    outs: Seq<Result<Option<B>, E>>,
) -> bool {
    &&& outs.len() <= fx.len()
    &&& forall|i: int| 0 <= i < outs.len() ==> call_ensures(f, (fx[i],), #[trigger] outs[i])
    &&& forall|i: int| 0 <= i < outs.len() - 1 ==> (#[trigger] outs[i]) is Ok
    &&& outs.len() < fx.len() ==> outs.len() > 0 && outs.last() is Err
}

proof fn lemma_collect_push<B, E>(outs: Seq<Result<Option<B>, E>>, o: Option<B>)
    requires
        collect_fx(outs) is Ok,
    ensures
        collect_fx(outs.push(Ok(o))) == Ok::<Seq<B>, E>(
            match o {
                Some(b) => collect_fx(outs)->Ok_0.push(b),
                None => collect_fx(outs)->Ok_0,
            },
        ),
    decreases outs.len(),
{
    let t = outs.push(Ok(o));
    if outs.len() == 0 {
        assert(t.drop_first() =~= Seq::<Result<Option<B>, E>>::empty());
        match o {
            Some(b) => {
                assert(seq![b] + Seq::<B>::empty() =~= Seq::<B>::empty().push(b));
            },
            None => {},
        }
    } else {
        assert(t.drop_first() =~= outs.drop_first().push(Ok(o)));
        lemma_collect_push(outs.drop_first(), o);
        match outs[0] {
            Ok(Some(b)) => {
                match o {
                    Some(c) => {
                        assert(seq![b] + collect_fx(outs.drop_first())->Ok_0.push(c) =~= (seq![b]
                            + collect_fx(outs.drop_first())->Ok_0).push(c));
                    },
                    None => {},
                }
            },
            _ => {},
        }
    }
}

proof fn lemma_collect_push_err<B, E>(outs: Seq<Result<Option<B>, E>>, e: E)
    requires
        collect_fx(outs) is Ok,
    ensures
        collect_fx(outs.push(Err(e))) == Err::<Seq<B>, E>(e),
    decreases outs.len(),
{
    let t = outs.push(Err(e));
    if outs.len() > 0 {
        assert(t.drop_first() =~= outs.drop_first().push(Err(e)));
        lemma_collect_push_err(outs.drop_first(), e);
    }
}

/// Resolve a batch of effects against some state: each effect is either
/// absorbed (the closure changes state it captures and returns `Ok(None)`)
/// or passed through, possibly translated, as `Ok(Some(out))`, never both.
/// The passed-through effects are returned in order; the first error stops
/// the batch.
pub fn absorb_fx<A, B, E, F: FnMut(A) -> Result<Option<B>, E>>(fx: Vec<A>, f: F) -> (r: Result<
    Vec<B>,
    E,
>)
    requires
        forall|i: int| 0 <= i < fx@.len() ==> call_requires(f, (#[trigger] fx@[i],)),
    ensures
        exists|outs: Seq<Result<Option<B>, E>>|
            #![trigger collect_fx(outs)]
            is_absorb_run(fx@, f, outs) && match collect_fx(outs) {
                Ok(v) => r is Ok && r->Ok_0@ == v,
                Err(e) => r == Err::<Vec<B>, E>(e),
            },
{
    let ghost f0 = f;
    let mut g = f;
    let ghost all = fx@;
    let mut rest = fx;
    let mut out: Vec<B> = Vec::new();
    let ghost mut outs: Seq<Result<Option<B>, E>> = Seq::empty();
    let ghost mut k: int = 0;
    while rest.len() > 0
        invariant
            g == f0,
            f0 == f,
            all == fx@,
            0 <= k <= all.len(),
            rest@ == all.subrange(k, all.len() as int),
            outs.len() == k,
            forall|i: int| 0 <= i < all.len() ==> call_requires(f0, (#[trigger] all[i],)),
            forall|i: int| 0 <= i < outs.len() ==> call_ensures(f0, (all[i],), #[trigger] outs[i]),
            forall|i: int| 0 <= i < outs.len() ==> (#[trigger] outs[i]) is Ok,
            collect_fx(outs) is Ok,
            collect_fx(outs)->Ok_0 == out@,
        decreases rest.len(),
    {
        let a = rest.remove(0);
        proof {
            assert(a == all[k]);
        }
        let res = g(a);
        let ghost res0 = res;
        match res {
            Ok(Some(b)) => {
                proof {
                    lemma_collect_push(outs, Some(b));
                    outs = outs.push(res0);
                    k = k + 1;
                }
                out.push(b);
            },
            Ok(None) => {
                proof {
                    lemma_collect_push(outs, None);
                    outs = outs.push(res0);
                    k = k + 1;
                }
            },
            Err(e) => {
                proof {
                    assert(call_ensures(f0, (all[k],), res0));
                    lemma_collect_push_err(outs, e);
                    outs = outs.push(res0);
                    assert(outs[k] == res0);
                    assert(outs.len() == k + 1);
                    assert(outs.len() <= all.len());
                    assert(forall|i: int| 0 <= i < outs.len() ==> call_ensures(f0, (all[i],), #[trigger] outs[i]));
                    assert(forall|i: int| 0 <= i < outs.len() - 1 ==> (#[trigger] outs[i]) is Ok);
                    assert(outs.len() < all.len() ==> outs.len() > 0 && outs.last() is Err);
                    assert(is_absorb_run(all, f0, outs));
                    assert(collect_fx(outs) == Err::<Seq<B>, E>(e));
                }
                let r: Result<Vec<B>, E> = Err(e);
                proof {
                    assert(is_absorb_run(fx@, f, outs) && match collect_fx(outs) {
                        Ok(v) => r is Ok && r->Ok_0@ == v,
                        Err(e) => r == Err::<Vec<B>, E>(e),
                    });
                }
                return r;
            },
        }
        proof {
            assert(rest@ =~= all.subrange(k, all.len() as int));
        }
    }
    proof {
        assert(is_absorb_run(all, f0, outs));
    }
    Ok(out)
}

} // verus!
