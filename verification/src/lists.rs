//! Facts about filtered lists.
use vstd::prelude::*;

verus! {

/// What a filter keeps of one item more.
pub proof fn filter_next<A>(s: Seq<A>, i: int, p: spec_fn(A) -> bool)
    requires
        0 <= i < s.len(),
    ensures
        s.take(i + 1).filter(p) == (if p(s[i]) {
            s.take(i).filter(p).push(s[i])
        } else {
            s.take(i).filter(p)
        }),
{
    reveal(Seq::filter);
    assert(s.take(i + 1).drop_last() =~= s.take(i));
    assert(s.take(i + 1).last() == s[i]);
}

/// A filter keeps what satisfies its condition and nothing else.
pub proof fn filter_keeps<A>(s: Seq<A>, p: spec_fn(A) -> bool, x: A)
    ensures
        s.filter(p).contains(x) <==> s.contains(x) && p(x),
    decreases s.len(),
{
    reveal(Seq::filter);
    if s.len() > 0 {
        let t = s.drop_last();
        let last = s.last();
        filter_keeps(t, p, x);
        if s.contains(x) {
            let i = choose|i: int| 0 <= i < s.len() && s[i] == x;
            if i < t.len() {
                assert(t[i] == x);
            }
        }
        if t.contains(x) {
            let i = choose|i: int| 0 <= i < t.len() && t[i] == x;
            assert(s[i] == x);
        }
        assert(s[s.len() - 1] == last);
        if p(last) {
            let f = t.filter(p);
            let g = f.push(last);
            assert(g[f.len() as int] == last);
            if f.contains(x) {
                let i = choose|i: int| 0 <= i < f.len() && f[i] == x;
                assert(g[i] == x);
            }
            if g.contains(x) {
                let i = choose|i: int| 0 <= i < g.len() && g[i] == x;
                if i < f.len() {
                    assert(f[i] == x);
                }
            }
        }
    }
}

/// Two conditions that agree on the items of a list keep the same of them.
pub proof fn filter_agrees<A>(s: Seq<A>, p: spec_fn(A) -> bool, q: spec_fn(A) -> bool)
    requires
        forall|i: int| 0 <= i < s.len() ==> p(#[trigger] s[i]) == q(s[i]),
    ensures
        s.filter(p) == s.filter(q),
    decreases s.len(),
{
    reveal(Seq::filter);
    if s.len() > 0 {
        let t = s.drop_last();
        assert forall|i: int| 0 <= i < t.len() implies p(#[trigger] t[i]) == q(t[i]) by {
            assert(t[i] == s[i]);
        }
        filter_agrees(t, p, q);
        assert(p(s[s.len() - 1]) == q(s[s.len() - 1]));
    }
}

/// A condition that no item of a list meets keeps none.
pub proof fn filter_of_none<A>(s: Seq<A>, p: spec_fn(A) -> bool)
    requires
        forall|i: int| 0 <= i < s.len() ==> !p(#[trigger] s[i]),
    ensures
        s.filter(p).len() == 0,
    decreases s.len(),
{
    reveal(Seq::filter);
    if s.len() > 0 {
        let t = s.drop_last();
        assert forall|i: int| 0 <= i < t.len() implies !p(#[trigger] t[i]) by {
            assert(t[i] == s[i]);
        }
        filter_of_none(t, p);
        assert(!p(s[s.len() - 1]));
    }
}

/// A condition that one item of a list alone meets keeps that item.
pub proof fn filter_of_one<A>(s: Seq<A>, p: spec_fn(A) -> bool, k: int)
    requires
        0 <= k < s.len(),
        p(s[k]),
        forall|i: int| 0 <= i < s.len() && i != k ==> !p(#[trigger] s[i]),
    ensures
        s.filter(p) == seq![s[k]],
    decreases s.len(),
{
    reveal(Seq::filter);
    let t = s.drop_last();
    if k == s.len() - 1 {
        assert forall|i: int| 0 <= i < t.len() implies !p(#[trigger] t[i]) by {
            assert(t[i] == s[i]);
        }
        filter_of_none(t, p);
        assert(s.filter(p) =~= seq![s[k]]);
    } else {
        assert forall|i: int| 0 <= i < t.len() && i != k implies !p(#[trigger] t[i]) by {
            assert(t[i] == s[i]);
        }
        filter_of_one(t, p, k);
        assert(!p(s[s.len() - 1]));
    }
}

/// A condition that two items of a list meet keeps more than one.
pub proof fn filter_of_two<A>(s: Seq<A>, p: spec_fn(A) -> bool, i: int, j: int)
    requires
        0 <= i < j < s.len(),
        p(s[i]),
        p(s[j]),
    ensures
        s.filter(p).len() > 1,
    decreases s.len(),
{
    reveal(Seq::filter);
    let t = s.drop_last();
    if j == s.len() - 1 {
        filter_keeps(t, p, s[i]);
        assert(t[i] == s[i]);
        assert(t.filter(p).contains(s[i]));
        assert(t.filter(p).len() > 0);
    } else {
        filter_of_two(t, p, i, j);
    }
}

/// A filter leaves items in their order: where the numbers of a list grow, so do those that are
/// kept.
pub proof fn filter_keeps_order(s: Seq<u32>, p: spec_fn(u32) -> bool)
    requires
        forall|i: int, j: int| 0 <= i < j < s.len() ==> s[i] < s[j],
    ensures
        forall|i: int, j: int|
            0 <= i < j < s.filter(p).len() ==> s.filter(p)[i] < s.filter(p)[j],
    decreases s.len(),
{
    reveal(Seq::filter);
    if s.len() > 0 {
        let t = s.drop_last();
        assert forall|i: int, j: int| 0 <= i < j < t.len() implies t[i] < t[j] by {
            assert(t[i] == s[i] && t[j] == s[j]);
        }
        filter_keeps_order(t, p);
        let f = t.filter(p);
        let last = s.last();
        assert forall|i: int| 0 <= i < f.len() implies f[i] < last by {
            filter_keeps(t, p, f[i]);
            assert(f.contains(f[i]));
            let k = choose|k: int| 0 <= k < t.len() && t[k] == f[i];
            assert(s[k] < s[s.len() - 1]);
        }
    }
}

} // verus!
