//! A stable sort.
use vstd::prelude::*;

verus! {

/// Something that is listed in an order.
pub trait Ranked: DeepView + Sized {
    /// Does `a` belong before `b`? Where neither belongs before the other, they
    /// stay as they stood.
    spec fn before(a: Self::V, b: Self::V) -> bool;

    /// Nothing belongs before what belongs before it.
    proof fn before_is_asymmetric(a: Self::V, b: Self::V)
        ensures
            !(Self::before(a, b) && Self::before(b, a)),
    ;

    /// "Does not belong before" is transitive.
    proof fn not_before_is_transitive(a: Self::V, b: Self::V, c: Self::V)
        requires
            !Self::before(b, a),
            !Self::before(c, b),
        ensures
            !Self::before(c, a),
    ;

    fn precedes(&self, other: &Self) -> (r: bool)
        ensures
            r == Self::before(self.deep_view(), other.deep_view()),
    ;
}

/// `s` with `x` put behind everything that it does not belong before, counted
/// from the end.
pub open spec fn placed<T: Ranked>(s: Seq<T::V>, x: T::V) -> Seq<T::V>
    decreases s.len(),
{
    if s.len() > 0 && T::before(x, s.last()) {
        placed::<T>(s.drop_last(), x).push(s.last())
    } else {
        s.push(x)
    }
}

/// `s` in order; what belongs to one place stands as it stood.
pub open spec fn sorted<T: Ranked>(s: Seq<T::V>) -> Seq<T::V>
    decreases s.len(),
{
    if s.len() == 0 {
        s
    } else {
        placed::<T>(sorted::<T>(s.drop_last()), s.last())
    }
}

/// Does nothing stand behind what it belongs before?
pub open spec fn in_order<T: Ranked>(s: Seq<T::V>) -> bool {
    forall|i: int, j: int|
        #![trigger s[i], s[j]]
        0 <= i < j < s.len() ==> !T::before(s[j], s[i])
}

proof fn placed_in_order<T: Ranked>(s: Seq<T::V>, x: T::V)
    requires
        in_order::<T>(s),
    ensures
        in_order::<T>(placed::<T>(s, x)),
        placed::<T>(s, x).to_multiset() == s.to_multiset().insert(x),
        placed::<T>(s, x).len() == s.len() + 1,
    decreases s.len(),
{
    broadcast use vstd::seq_lib::group_to_multiset_ensures;

    if s.len() > 0 && T::before(x, s.last()) {
        let init = s.drop_last();
        let last = s.last();
        placed_in_order::<T>(init, x);
        let p = placed::<T>(init, x);
        let r = p.push(last);
        assert(init.push(last) =~= s);
        assert(r.to_multiset() =~= s.to_multiset().insert(x));
        assert forall|i: int, j: int|
            #![trigger r[i], r[j]]
            0 <= i < j < r.len() implies !T::before(r[j], r[i]) by {
            if j < p.len() {
                assert(!T::before(p[j], p[i]));
            } else {
                assert(p.to_multiset().contains(p[i])) by {
                    assert(p.contains(p[i]));
                }
                if p[i] == x {
                    T::before_is_asymmetric(x, last);
                } else {
                    assert(init.to_multiset().contains(p[i]));
                    assert(init.contains(p[i]));
                    let k = choose|k: int| 0 <= k < init.len() && init[k] == p[i];
                    assert(!T::before(s[s.len() - 1], s[k]));
                }
            }
        }
    } else {
        let r = s.push(x);
        assert forall|i: int, j: int|
            #![trigger r[i], r[j]]
            0 <= i < j < r.len() implies !T::before(r[j], r[i]) by {
            if j == s.len() && i < s.len() - 1 {
                assert(!T::before(s[s.len() - 1], s[i]));
                T::not_before_is_transitive(s[i], s.last(), x);
            }
        }
    }
}

/// Sorting puts everything in order and loses nothing.
pub proof fn sorted_is_in_order<T: Ranked>(s: Seq<T::V>)
    ensures
        in_order::<T>(sorted::<T>(s)),
        sorted::<T>(s).to_multiset() == s.to_multiset(),
        sorted::<T>(s).len() == s.len(),
    decreases s.len(),
{
    broadcast use vstd::seq_lib::group_to_multiset_ensures;

    if s.len() > 0 {
        sorted_is_in_order::<T>(s.drop_last());
        placed_in_order::<T>(sorted::<T>(s.drop_last()), s.last());
        assert(s.drop_last().push(s.last()) =~= s);
    }
}

/// What is in order is left as it is.
pub proof fn sorting_is_idempotent<T: Ranked>(s: Seq<T::V>)
    requires
        in_order::<T>(s),
    ensures
        sorted::<T>(s) == s,
    decreases s.len(),
{
    if s.len() > 0 {
        let init = s.drop_last();
        assert forall|i: int, j: int|
            #![trigger init[i], init[j]]
            0 <= i < j < init.len() implies !T::before(init[j], init[i]) by {
            assert(!T::before(s[j], s[i]));
        }
        sorting_is_idempotent::<T>(init);
        if init.len() > 0 {
            assert(!T::before(s[s.len() - 1], s[s.len() - 2]));
        }
        assert(init.push(s.last()) =~= s);
    }
}

proof fn placed_selection<T: Ranked>(s: Seq<T::V>, x: T::V, p: spec_fn(T::V) -> bool)
    requires
        in_order::<T>(s),
    ensures
        placed::<T>(s, x).filter(p) == (if p(x) {
            placed::<T>(s.filter(p), x)
        } else {
            s.filter(p)
        }),
    decreases s.len(),
{
    reveal(Seq::filter);
    if s.len() > 0 && T::before(x, s.last()) {
        let init = s.drop_last();
        assert forall|i: int, j: int|
            #![trigger init[i], init[j]]
            0 <= i < j < init.len() implies !T::before(init[j], init[i]) by {
            assert(!T::before(s[j], s[i]));
        }
        placed_selection::<T>(init, x, p);
        let r = placed::<T>(init, x);
        assert(r.push(s.last()).drop_last() =~= r);
        if p(x) && p(s.last()) {
            let f = s.filter(p);
            assert(f.drop_last() =~= init.filter(p));
            assert(f.last() == s.last());
        }
    } else {
        assert(s.push(x).drop_last() =~= s);
        let f = s.filter(p);
        if p(x) && f.len() > 0 {
            selected_stands(s, p, f.len() - 1);
            let k = choose|k: int| 0 <= k < s.len() && s[k] == f.last();
            if k < s.len() - 1 {
                assert(!T::before(s[s.len() - 1], s[k]));
                T::not_before_is_transitive(s[k], s.last(), x);
            }
        }
    }
}

proof fn selected_stands<A>(s: Seq<A>, p: spec_fn(A) -> bool, i: int)
    requires
        0 <= i < s.filter(p).len(),
    ensures
        exists|k: int| 0 <= k < s.len() && s[k] == s.filter(p)[i],
    decreases s.len(),
{
    reveal(Seq::filter);
    if s.len() > 0 {
        let init = s.drop_last();
        if i < init.filter(p).len() {
            selected_stands(init, p, i);
            let k = choose|k: int| 0 <= k < init.len() && init[k] == init.filter(p)[i];
            assert(s[k] == s.filter(p)[i]);
        } else {
            assert(s[s.len() - 1] == s.filter(p)[i]);
        }
    }
}

/// Leaving some out before or behind the sort comes to the same.
pub proof fn sorting_keeps_a_selection<T: Ranked>(s: Seq<T::V>, p: spec_fn(T::V) -> bool)
    ensures
        sorted::<T>(s).filter(p) == sorted::<T>(s.filter(p)),
    decreases s.len(),
{
    reveal(Seq::filter);
    if s.len() > 0 {
        let init = s.drop_last();
        sorting_keeps_a_selection::<T>(init, p);
        sorted_is_in_order::<T>(init);
        placed_selection::<T>(sorted::<T>(init), s.last(), p);
        if p(s.last()) {
            let f = s.filter(p);
            assert(f.drop_last() =~= init.filter(p));
            assert(f.last() == s.last());
        }
    }
}

/// Puts `x` at its place.
fn place<T: Ranked>(out: &mut Vec<T>, x: T)
    ensures
        final(out).deep_view() == placed::<T>(old(out).deep_view(), x.deep_view()),
{
    let ghost s = out.deep_view();
    let ghost xv = x.deep_view();
    let mut i: usize = out.len();
    assert(s.take(s.len() as int) =~= s);
    assert(s.skip(s.len() as int) =~= Seq::empty());
    while i > 0 && x.precedes(&out[i - 1])
        invariant
            out.deep_view() == s,
            xv == x.deep_view(),
            i <= out@.len() == s.len(),
            placed::<T>(s, xv) == placed::<T>(s.take(i as int), xv) + s.skip(i as int),
        decreases i,
    {
        let ghost head = s.take(i as int);
        assert(head.last() == out@[i - 1].deep_view());
        assert(head.drop_last() =~= s.take(i - 1));
        assert(placed::<T>(s.take(i - 1), xv).push(head.last()) + s.skip(i as int) =~= placed::<T>(
            s.take(i - 1),
            xv,
        ) + s.skip(i - 1));
        i = i - 1;
    }
    proof {
        if i > 0 {
            assert(s.take(i as int).last() == out@[i - 1].deep_view());
        }
    }
    out.insert(i, x);
    assert(out.deep_view() =~= s.take(i as int).push(xv) + s.skip(i as int));
}

/// Sorts a list; what belongs to one place stays as it stood.
pub fn sort<T: Ranked>(list: Vec<T>) -> (r: Vec<T>)
    ensures
        r.deep_view() == sorted::<T>(list.deep_view()),
{
    let ghost all = list.deep_view();
    let ghost n = all.len();
    let mut list = list;
    let mut out: Vec<T> = Vec::new();
    assert(out.deep_view() =~= sorted::<T>(all.take(0)));
    assert(all.skip(0) =~= all);
    while list.len() > 0
        invariant
            list@.len() <= n == all.len(),
            list.deep_view() == all.skip(n - list@.len()),
            out.deep_view() == sorted::<T>(all.take(n - list@.len())),
        decreases list@.len(),
    {
        let ghost i = n - list@.len();
        let ghost raw = list@;
        let ghost before = list.deep_view();
        let x = list.remove(0);
        proof {
            assert(x.deep_view() == before[0]);
            assert(before[0] == all[i]);
            assert(all.take(i + 1).drop_last() =~= all.take(i));
            assert forall|k: int| 0 <= k < list@.len() implies #[trigger] list.deep_view()[k]
                == all.skip(i + 1)[k] by {
                assert(list@[k] == raw[k + 1]);
                assert(before[k + 1] == all[i + k + 1]);
            }
            assert(list.deep_view() =~= all.skip(i + 1));
        }
        place(&mut out, x);
    }
    assert(all.take(n as int) =~= all);
    out
}

} // verus!
