//! Selections: lists made by picking some of the members of another one. What a
//! selection holds, and in which order, is said here by the places of the members
//! that were picked.
use vstd::prelude::*;

verus! {

/// Are the places listed in ascending order, each once, and all of them below `n`?
pub open spec fn are_places(at: Seq<int>, n: nat) -> bool {
    &&& forall|k: int| 0 <= k < at.len() ==> 0 <= #[trigger] at[k] < n
    &&& forall|j: int, k: int|
        #![trigger at[j], at[k]]
        0 <= j < k < at.len() ==> at[j] < at[k]
}

/// Is `out` what `pick` makes of the members of `all` at the places `at`, and does
/// it make nothing of any other member?
pub open spec fn picks<A, B>(
    all: Seq<A>,
    out: Seq<B>,
    pick: spec_fn(A) -> Option<B>,
    at: Seq<int>,
) -> bool {
    &&& are_places(at, all.len())
    &&& at.len() == out.len()
    &&& forall|k: int| 0 <= k < out.len() ==> pick(all[at[k]]) == Some(#[trigger] out[k])
    &&& forall|i: int| 0 <= i < all.len() && pick(#[trigger] all[i]) is Some ==> at.contains(i)
}

/// Is `out` what `pick` makes of the members of `all`, in order: one member of it
/// for each member of `all` that `pick` makes something of, and no other?
pub open spec fn is_selection<A, B>(
    all: Seq<A>,
    out: Seq<B>,
    pick: spec_fn(A) -> Option<B>,
) -> bool {
    exists|at: Seq<int>| #[trigger] picks(all, out, pick, at)
}

/// Nothing is selected from nothing.
pub proof fn nothing_selected<A, B>(all: Seq<A>, out: Seq<B>, pick: spec_fn(A) -> Option<B>)
    requires
        all.len() == 0,
        out.len() == 0,
    ensures
        is_selection(all, out, pick),
{
    assert(picks(all, out, pick, Seq::empty()));
}

/// One more member of the list is one more of the selection, or none.
pub proof fn one_more_selected<A, B>(
    all: Seq<A>,
    out: Seq<B>,
    pick: spec_fn(A) -> Option<B>,
    x: A,
)
    requires
        is_selection(all, out, pick),
    ensures
        pick(x) matches Some(y) ==> is_selection(all.push(x), out.push(y), pick),
        pick(x) is None ==> is_selection(all.push(x), out, pick),
{
    let at = choose|at: Seq<int>| #[trigger] picks(all, out, pick, at);
    let n = all.len() as int;
    let more = all.push(x);
    match pick(x) {
        Some(y) => {
            let to = at.push(n);
            let made = out.push(y);
            assert forall|k: int| 0 <= k < made.len() implies pick(more[to[k]]) == Some(
                #[trigger] made[k],
            ) by {
                if k < out.len() {
                    assert(out[k] == made[k]);
                    assert(0 <= at[k] < n);
                    assert(more[at[k]] == all[at[k]]);
                }
            }
            assert forall|i: int| 0 <= i < more.len() && pick(#[trigger] more[i])
                is Some implies to.contains(i) by {
                if i < n {
                    assert(all[i] == more[i]);
                    let k = choose|k: int| 0 <= k < at.len() && at[k] == i;
                    assert(to[k] == i);
                } else {
                    assert(to[at.len() as int] == i);
                }
            }
            assert forall|j: int, k: int|
                #![trigger to[j], to[k]]
                0 <= j < k < to.len() implies to[j] < to[k] by {
                assert(at[j] == to[j]);
                if k < at.len() {
                    assert(at[k] == to[k]);
                }
            }
            assert forall|k: int| 0 <= k < to.len() implies 0 <= #[trigger] to[k] < more.len() by {
                if k < at.len() {
                    assert(at[k] == to[k]);
                }
            }
            assert(picks(more, made, pick, to));
        },
        None => {
            assert forall|k: int| 0 <= k < out.len() implies pick(more[at[k]]) == Some(
                #[trigger] out[k],
            ) by {
                assert(0 <= at[k] < n);
                assert(more[at[k]] == all[at[k]]);
            }
            assert forall|i: int| 0 <= i < more.len() && pick(#[trigger] more[i])
                is Some implies at.contains(i) by {
                assert(i < n);
                assert(all[i] == more[i]);
            }
            assert forall|k: int| 0 <= k < at.len() implies 0 <= #[trigger] at[k] < more.len() by {}
            assert(picks(more, out, pick, at));
        },
    }
}

/// A selection holds what `pick` makes of some member of the list, and nothing
/// else.
pub proof fn selection_holds<A, B>(
    all: Seq<A>,
    out: Seq<B>,
    pick: spec_fn(A) -> Option<B>,
    y: B,
)
    requires
        is_selection(all, out, pick),
    ensures
        out.contains(y) <==> exists|i: int|
            0 <= i < all.len() && pick(#[trigger] all[i]) == Some(y),
        out.len() <= all.len(),
{
    let at = choose|at: Seq<int>| #[trigger] picks(all, out, pick, at);
    if out.contains(y) {
        let k = choose|k: int| 0 <= k < out.len() && out[k] == y;
        assert(pick(all[at[k]]) == Some(out[k]));
        assert(0 <= at[k] < all.len());
    }
    if exists|i: int| 0 <= i < all.len() && pick(#[trigger] all[i]) == Some(y) {
        let i = choose|i: int| 0 <= i < all.len() && pick(#[trigger] all[i]) == Some(y);
        let k = choose|k: int| 0 <= k < at.len() && at[k] == i;
        assert(pick(all[at[k]]) == Some(out[k]));
        assert(out[k] == y);
    }
    places_fit(at, all.len());
}

/// There are no more places than members.
proof fn places_fit(at: Seq<int>, n: nat)
    requires
        are_places(at, n),
    ensures
        at.len() <= n,
    decreases n,
{
    if at.len() > 0 {
        let init = at.drop_last();
        let last = at.last();
        assert(at[at.len() - 1] == last);
        assert forall|k: int| 0 <= k < init.len() implies 0 <= #[trigger] init[k] < n - 1 by {
            assert(at[k] == init[k]);
            assert(at[k] < at[at.len() - 1]);
        }
        assert forall|j: int, k: int|
            #![trigger init[j], init[k]]
            0 <= j < k < init.len() implies init[j] < init[k] by {
            assert(at[j] == init[j] && at[k] == init[k]);
        }
        places_fit(init, (n - 1) as nat);
    }
}

} // verus!
