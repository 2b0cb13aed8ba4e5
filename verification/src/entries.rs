//! What becomes of a manifest's entries when the version of a module is rewritten:
//! only the versions of the module's entries change, and where the entries are
//! found again, each has the name that it had.
use vstd::prelude::*;

use crate::edge::{self, DepEdgeView};
use crate::pattern::{self, LayoutView, Span};
use crate::provider::{self, BazelDepProvider, GraphProvider};
use crate::splice;
use crate::text;

verus! {

/// Is the group `v` of the match the version that a rewrite replaces: is it not
/// empty, and do the groups that a rewrite keeps make up the match in front of it
/// and behind it?
pub open spec fn is_shaped(t: Seq<char>, m: Seq<Option<Span>>, l: LayoutView, v: int) -> bool {
    &&& 0 < v < m.len()
    &&& m[v] is Some
    &&& ({
        let w = pattern::whole(m);
        let s = m[v]->0;
        &&& w.0 <= s.0 < s.1 <= w.1
        &&& pattern::groups_text(t, m, l.before) == pattern::piece(t, w.0 as int, s.0 as int)
        &&& pattern::groups_text(t, m, l.behind) == pattern::piece(t, s.1 as int, w.1 as int)
    })
}

/// Are `ms` matches in `t`, and entries all of them?
pub open spec fn are_shaped(
    t: Seq<char>,
    ms: Seq<Seq<Option<Span>>>,
    l: LayoutView,
    v: int,
) -> bool {
    &&& pattern::are_matches(t, ms)
    &&& forall|i: int| 0 <= i < ms.len() ==> is_shaped(t, #[trigger] ms[i], l, v)
}

/// The stretch that the group `g` of a match takes up.
pub open spec fn stretch(m: Seq<Option<Span>>, g: int) -> (int, int) {
    ((m[g]->0).0 as int, (m[g]->0).1 as int)
}

/// Does the group `g` lie in front of the version?
pub open spec fn is_in_front(m: Seq<Option<Span>>, g: int, v: int) -> bool {
    &&& 0 <= g < m.len()
    &&& m[g] is Some
    &&& pattern::whole(m).0 <= stretch(m, g).0
    &&& stretch(m, g).1 <= stretch(m, v).0
}

/// Is the match an entry for `module`?
pub open spec fn is_for(
    t: Seq<char>,
    m: Seq<Option<Span>>,
    l: LayoutView,
    module: Seq<char>,
) -> bool {
    pattern::entry_name(t, m, l) == module
}

/// The stretches that the versions of the entries for `module` take up.
pub open spec fn versions_of(
    t: Seq<char>,
    ms: Seq<Seq<Option<Span>>>,
    l: LayoutView,
    v: int,
    module: Seq<char>,
) -> Seq<(int, int)>
    decreases ms.len(),
{
    if ms.len() == 0 {
        seq![]
    } else {
        let init = versions_of(t, ms.drop_last(), l, v, module);
        if is_for(t, ms.last(), l, module) {
            init.push(stretch(ms.last(), v))
        } else {
            init
        }
    }
}

/// Each listed version is that of an entry for the module.
proof fn version_has_entry(
    t: Seq<char>,
    ms: Seq<Seq<Option<Span>>>,
    l: LayoutView,
    v: int,
    module: Seq<char>,
    k: int,
) -> (i: int)
    requires
        0 <= k < versions_of(t, ms, l, v, module).len(),
    ensures
        0 <= i < ms.len(),
        is_for(t, ms[i], l, module),
        versions_of(t, ms, l, v, module)[k] == stretch(ms[i], v),
    decreases ms.len(),
{
    let init = ms.drop_last();
    if k < versions_of(t, init, l, v, module).len() {
        let i = version_has_entry(t, init, l, v, module, k);
        assert(init[i] == ms[i]);
        i
    } else {
        ms.len() - 1
    }
}

/// The version of each entry for the module is listed.
proof fn entry_has_version(
    t: Seq<char>,
    ms: Seq<Seq<Option<Span>>>,
    l: LayoutView,
    v: int,
    module: Seq<char>,
    i: int,
) -> (k: int)
    requires
        0 <= i < ms.len(),
        is_for(t, ms[i], l, module),
    ensures
        0 <= k < versions_of(t, ms, l, v, module).len(),
        versions_of(t, ms, l, v, module)[k] == stretch(ms[i], v),
    decreases ms.len(),
{
    let init = ms.drop_last();
    if i < ms.len() - 1 {
        assert(init[i] == ms[i]);
        entry_has_version(t, init, l, v, module, i)
    } else {
        versions_of(t, ms, l, v, module).len() - 1
    }
}

/// What goes for all matches goes for all but the last.
pub proof fn all_but_the_last(t: Seq<char>, ms: Seq<Seq<Option<Span>>>, l: LayoutView, v: int)
    requires
        are_shaped(t, ms, l, v),
        ms.len() > 0,
    ensures
        are_shaped(t, ms.drop_last(), l, v),
        pattern::end_of(ms.drop_last()) <= pattern::whole(ms.last()).0,
        0 <= pattern::end_of(ms.drop_last()),
        pattern::is_match(t, ms.last()),
        is_shaped(t, ms.last(), l, v),
        pattern::is_span(t, pattern::whole(ms.last())),
        pattern::is_span(t, ms.last()[v]->0),
{
    let init = ms.drop_last();
    let m = ms.last();
    assert(m == ms[ms.len() - 1]);
    assert forall|i: int| 0 <= i < init.len() implies #[trigger] init[i] == ms[i] by {}
    assert(pattern::is_match(t, m));
    assert(m[0] is Some);
    assert(m[v] is Some);
    if init.len() > 0 {
        assert(init.last() == ms[ms.len() - 2]);
        assert(pattern::whole(ms[ms.len() - 2]).1 <= pattern::whole(ms[ms.len() - 1]).0);
    }
}

/// Rewriting the entries for a module is replacing their versions.
proof fn rewriting_upto(
    t: Seq<char>,
    ms: Seq<Seq<Option<Span>>>,
    l: LayoutView,
    v: int,
    module: Seq<char>,
    target: Seq<char>,
)
    requires
        are_shaped(t, ms, l, v),
    ensures
        ({
            let vs = versions_of(t, ms, l, v, module);
            &&& splice::are_stretches(t, vs)
            &&& 0 <= splice::end_of(vs) <= pattern::end_of(ms) <= pattern::byte_len(t)
            &&& pattern::is_cut(t, splice::end_of(vs))
            &&& pattern::is_cut(t, pattern::end_of(ms))
            &&& pattern::rewritten_upto(t, ms, l, module, target) == splice::spliced_upto(
                t,
                vs,
                target,
            ) + pattern::piece(t, splice::end_of(vs), pattern::end_of(ms))
        }),
    decreases ms.len(),
{
    pattern::whole_piece(t);
    if ms.len() == 0 {
        pattern::pieces_join(t, 0, 0, pattern::byte_len(t));
        assert(pattern::piece(t, 0, 0) =~= seq![]);
    } else {
        let init = ms.drop_last();
        let m = ms.last();
        all_but_the_last(t, ms, l, v);
        rewriting_upto(t, init, l, v, module, target);
        let us = versions_of(t, init, l, v, module);
        let s = stretch(m, v);
        let w = stretch(m, 0);
        let e = splice::end_of(us);
        let d = pattern::end_of(init);
        let upto = splice::spliced_upto(t, us, target);
        pattern::pieces_join(t, e, d, w.0);
        if is_for(t, m, l, module) {
            let vs = us.push(s);
            assert(vs.drop_last() =~= us);
            pattern::pieces_join(t, e, w.0, s.0);
            assert(pattern::rewritten_upto(t, ms, l, module, target) =~= upto + pattern::piece(
                t,
                e,
                s.0,
            ) + target + pattern::piece(t, s.1, w.1));
        } else {
            pattern::pieces_join(t, e, w.0, w.1);
            assert(pattern::rewritten_upto(t, ms, l, module, target) =~= upto + pattern::piece(
                t,
                e,
                w.1,
            ));
        }
    }
}

/// Rewriting the entries for a module is replacing their versions: every
/// character outside them is kept, in order.
pub proof fn rewriting_replaces_versions(
    t: Seq<char>,
    ms: Seq<Seq<Option<Span>>>,
    l: LayoutView,
    v: int,
    module: Seq<char>,
    target: Seq<char>,
)
    requires
        are_shaped(t, ms, l, v),
    ensures
        splice::are_stretches(t, versions_of(t, ms, l, v, module)),
        pattern::rewritten(t, ms, l, module, target) == splice::spliced(
            t,
            versions_of(t, ms, l, v, module),
            target,
        ),
{
    let vs = versions_of(t, ms, l, v, module);
    let n = pattern::byte_len(t);
    let e = splice::end_of(vs);
    let d = pattern::end_of(ms);
    rewriting_upto(t, ms, l, v, module, target);
    pattern::whole_piece(t);
    pattern::pieces_join(t, e, d, n);
    assert(pattern::rewritten(t, ms, l, module, target) =~= splice::spliced_upto(t, vs, target) + (
    pattern::piece(t, e, d) + pattern::piece(t, d, n)));
}

// ─── reading back ───────────────────────────────────────────────────────

/// Is `after` the match `before`, its offsets moved by what the replaced
/// stretches have grown?
pub open spec fn is_moved(
    before: Seq<Option<Span>>,
    after: Seq<Option<Span>>,
    vs: Seq<(int, int)>,
    new: Seq<char>,
) -> bool {
    &&& after.len() == before.len()
    &&& forall|g: int|
        0 <= g < before.len() ==> match (#[trigger] before[g], after[g]) {
            (Some(s), Some(r)) => r.0 == splice::moved(vs, new, s.0 as int) && r.1
                == splice::moved(vs, new, s.1 as int),
            (None, None) => true,
            _ => false,
        }
}

/// Are `after` the matches `before`, one by one, their offsets moved?
pub open spec fn are_moved(
    before: Seq<Seq<Option<Span>>>,
    after: Seq<Seq<Option<Span>>>,
    vs: Seq<(int, int)>,
    new: Seq<char>,
) -> bool {
    &&& after.len() == before.len()
    &&& forall|i: int|
        #![trigger before[i]]
        #![trigger after[i]]
        0 <= i < before.len() ==> is_moved(before[i], after[i], vs, new)
}

/// What lies in front of an entry's version leaves every replaced version alone,
/// and so does the version of an entry for another module.
proof fn parts_are_outside(
    t: Seq<char>,
    ms: Seq<Seq<Option<Span>>>,
    l: LayoutView,
    v: int,
    module: Seq<char>,
    i: int,
)
    requires
        are_shaped(t, ms, l, v),
        0 <= i < ms.len(),
    ensures
        ({
            let vs = versions_of(t, ms, l, v, module);
            let s = stretch(ms[i], v);
            &&& !is_for(t, ms[i], l, module) ==> splice::is_outside(vs, s.0, s.1)
            &&& forall|g: int|
                #[trigger] is_in_front(ms[i], g, v) ==> splice::is_outside(
                    vs,
                    stretch(ms[i], g).0,
                    stretch(ms[i], g).1,
                )
        }),
{
    let vs = versions_of(t, ms, l, v, module);
    let m = ms[i];
    let s = stretch(m, v);
    assert(is_shaped(t, m, l, v));
    assert forall|k: int| 0 <= k < vs.len() implies (#[trigger] vs[k]) == s && is_for(
        t,
        m,
        l,
        module,
    ) || pattern::whole(m).1 <= vs[k].0 || vs[k].1 <= pattern::whole(m).0 by {
        let j = version_has_entry(t, ms, l, v, module, k);
        assert(is_shaped(t, ms[j], l, v));
        if i < j {
            assert(pattern::whole(ms[i]).1 <= pattern::whole(ms[j]).0);
        } else if j < i {
            assert(pattern::whole(ms[j]).1 <= pattern::whole(ms[i]).0);
        }
    }
}

/// What an entry holds, where it is found again in the rewritten text: in front of
/// the version what it held, and the new version if it is one for the module.
pub proof fn entry_reads_back(
    t: Seq<char>,
    ms: Seq<Seq<Option<Span>>>,
    l: LayoutView,
    v: int,
    module: Seq<char>,
    target: Seq<char>,
    i: int,
    after: Seq<Option<Span>>,
)
    requires
        are_shaped(t, ms, l, v),
        0 <= i < ms.len(),
        is_moved(ms[i], after, versions_of(t, ms, l, v, module), target),
    ensures
        ({
            let out = pattern::rewritten(t, ms, l, module, target);
            &&& pattern::group(out, after, v) == if is_for(t, ms[i], l, module) {
                target
            } else {
                pattern::group(t, ms[i], v)
            }
            &&& forall|g: int|
                #[trigger] is_in_front(ms[i], g, v) ==> pattern::group(out, after, g)
                    == pattern::group(t, ms[i], g)
        }),
{
    let vs = versions_of(t, ms, l, v, module);
    let m = ms[i];
    let s = stretch(m, v);
    assert(is_shaped(t, m, l, v) && pattern::is_match(t, m));
    rewriting_replaces_versions(t, ms, l, v, module, target);
    parts_are_outside(t, ms, l, v, module, i);
    assert(pattern::is_span(t, m[v]->0));
    if is_for(t, m, l, module) {
        let k = entry_has_version(t, ms, l, v, module, i);
        splice::new_is_placed(t, vs, target, k);
    } else {
        splice::rest_is_kept(t, vs, target, s.0, s.1);
    }
    let out = pattern::rewritten(t, ms, l, module, target);
    assert forall|g: int| #[trigger] is_in_front(m, g, v) implies pattern::group(out, after, g)
        == pattern::group(t, m, g) by {
        assert(pattern::is_span(t, m[g]->0));
        splice::rest_is_kept(t, vs, target, stretch(m, g).0, stretch(m, g).1);
    }
}

// ─── MODULE.bazel ───────────────────────────────────────────────────────

/// Are the groups of the match those of a `bazel_dep(…)` declaration? Group 3 is
/// the version, between what a rewrite keeps, and the name stands in front of it.
pub open spec fn is_bazel_dep(t: Seq<char>, m: Seq<Option<Span>>) -> bool {
    let l = provider::plain_layout();
    &&& is_shaped(t, m, l, 3)
    &&& is_in_front(m, 2, 3)
    &&& "bazel_dep("@.is_prefix_of(pattern::groups_text(t, m, l.before))
}

/// What stands in front of the first stretch still does.
proof fn first_gap(t: Seq<char>, vs: Seq<(int, int)>, new: Seq<char>)
    requires
        vs.len() > 0,
    ensures
        pattern::piece(t, 0, vs[0].0).is_prefix_of(splice::spliced_upto(t, vs, new)),
    decreases vs.len(),
{
    let gap = pattern::piece(t, 0, vs[0].0);
    let init = vs.drop_last();
    let upto = splice::spliced_upto(t, init, new);
    let all = splice::spliced_upto(t, vs, new);
    if init.len() == 0 {
        assert(upto =~= seq![]);
        assert(all =~= gap + new);
    } else {
        first_gap(t, init, new);
        assert(init[0] == vs[0]);
        assert(upto.subrange(0, gap.len() as int) =~= all.subrange(0, gap.len() as int));
    }
    assert(gap =~= all.subrange(0, gap.len() as int));
}

/// What occurs in a text occurs in a longer one.
proof fn occurs_in_longer(a: Seq<char>, b: Seq<char>, c: Seq<char>, needle: Seq<char>)
    requires
        needle.is_prefix_of(b),
    ensures
        text::occurs_in(a + b + c, needle),
{
    let n = a.len() as int;
    assert((a + b + c).subrange(n, n + needle.len()) =~= b.subrange(0, needle.len() as int));
    assert(text::occurs_at(a + b + c, needle, n));
}

/// A module file with a declaration for the module is one before and after a bump.
proof fn bazel_syntax_stays(
    t: Seq<char>,
    ms: Seq<Seq<Option<Span>>>,
    module: Seq<char>,
    target: Seq<char>,
)
    requires
        pattern::are_matches(t, ms),
        forall|i: int| 0 <= i < ms.len() ==> is_bazel_dep(t, #[trigger] ms[i]),
        versions_of(t, ms, provider::plain_layout(), 3, module).len() > 0,
    ensures
        text::occurs_in(t, "bazel_dep("@),
        text::occurs_in(
            pattern::rewritten(t, ms, provider::plain_layout(), module, target),
            "bazel_dep("@,
        ),
{
    let l = provider::plain_layout();
    let vs = versions_of(t, ms, l, 3, module);
    let n = pattern::byte_len(t);
    assert forall|i: int| 0 <= i < ms.len() implies is_shaped(t, #[trigger] ms[i], l, 3) by {
        assert(is_bazel_dep(t, ms[i]));
    }
    rewriting_replaces_versions(t, ms, l, 3, module, target);
    let i = version_has_entry(t, ms, l, 3, module, 0);
    let m = ms[i];
    assert(is_bazel_dep(t, m) && pattern::is_match(t, m));
    assert(pattern::is_span(t, m[0]->0) && pattern::is_span(t, m[3]->0));
    let w = stretch(m, 0);
    let s = stretch(m, 3);
    pattern::whole_piece(t);
    pattern::pieces_join(t, 0, w.0, s.0);
    pattern::pieces_join(t, 0, s.0, n);
    let a = pattern::piece(t, 0, w.0);
    let b = pattern::piece(t, w.0, s.0);
    assert(t =~= a + b + pattern::piece(t, s.0, n));
    occurs_in_longer(a, b, pattern::piece(t, s.0, n), "bazel_dep("@);
    first_gap(t, vs, target);
    let out = splice::spliced(t, vs, target);
    let rest = out.skip((a + b).len() as int);
    assert((a + b).is_prefix_of(splice::spliced_upto(t, vs, target)));
    assert(out =~= a + b + rest);
    occurs_in_longer(a, b, rest, "bazel_dep("@);
}

/// What is written is read back: where the declarations of a module file are found
/// again in its bumped text, each where it has moved to, the bumped file has the
/// edges that it had, in their order, and each edge on the module is at the target.
pub proof fn bumped_module_file_reads_back(
    p: BazelDepProvider,
    text: Seq<char>,
    module: Seq<char>,
    target: Seq<char>,
)
    requires
        ({
            let ms = provider::found(provider::BAZEL_DEP@, text);
            let vs = versions_of(text, ms, provider::plain_layout(), 3, module);
            let out = p.bumped(text, module, target);
            &&& pattern::are_matches(text, ms)
            &&& forall|i: int| 0 <= i < ms.len() ==> is_bazel_dep(text, #[trigger] ms[i])
            &&& are_moved(ms, provider::found(provider::BAZEL_DEP@, out), vs, target)
        }),
    ensures
        p.edges_in(p.bumped(text, module, target)) == match p.edges_in(text) {
            Some(was) => Some(
                Seq::new(
                    was.len(),
                    |i: int|
                        if was[i].module == module {
                            DepEdgeView { current: edge::exact_constraint(target), ..was[i] }
                        } else {
                            was[i]
                        },
                ),
            ),
            None => None,
        },
{
    let l = provider::plain_layout();
    let ms = provider::found(provider::BAZEL_DEP@, text);
    let vs = versions_of(text, ms, l, 3, module);
    let out = p.bumped(text, module, target);
    let ns = provider::found(provider::BAZEL_DEP@, out);
    assert forall|i: int| 0 <= i < ms.len() implies is_shaped(text, #[trigger] ms[i], l, 3) by {
        assert(is_bazel_dep(text, ms[i]));
    }
    if vs.len() > 0 {
        bazel_syntax_stays(text, ms, module, target);
    } else {
        rewriting_replaces_versions(text, ms, l, 3, module, target);
        pattern::whole_piece(text);
        assert(out =~= text);
    }
    assert(p.edges_in(out) is Some == p.edges_in(text) is Some);
    if let Some(was) = p.edges_in(text) {
        let now = p.edges_in(out)->0;
        let made = Seq::new(
            was.len(),
            |i: int|
                if was[i].module == module {
                    DepEdgeView { current: edge::exact_constraint(target), ..was[i] }
                } else {
                    was[i]
                },
        );
        assert forall|i: int| 0 <= i < was.len() implies now[i] == #[trigger] made[i] by {
            assert(is_moved(ms[i], ns[i], vs, target));
            assert(is_bazel_dep(text, ms[i]));
            entry_reads_back(text, ms, l, 3, module, target, i, ns[i]);
            assert(was[i] == provider::bazel_edge(text, ms[i]));
            assert(now[i] == provider::bazel_edge(out, ns[i]));
        }
        assert(now =~= made);
    }
}

} // verus!
