//! What a bumped catalog reads as. A bump replaces the versions of one module's
//! entries and nothing else, so the `catalog:` block stays where it is, and where
//! the entries are found again, each has the module and the operator that it had.
use vstd::prelude::*;

use crate::edge::{self, DepEdgeView};
use crate::entries;
use crate::pattern::{self, Span};
use crate::provider::{self, GraphProvider, PnpmCatalogProvider};
use crate::splice;
use crate::text;

verus! {

// ─── lines ──────────────────────────────────────────────────────────────

/// What `line_end` says: no line break before the last character of the line.
proof fn line_end_says(t: Seq<char>, i: int)
    requires
        0 <= i < t.len(),
    ensures
        ({
            let j = provider::line_end(t, i);
            &&& i < j <= t.len()
            &&& forall|k: int| i <= k < j - 1 ==> t[k] != '\n'
            &&& t[j - 1] == '\n' || j == t.len()
        }),
    decreases t.len() - i,
{
    reveal_with_fuel(provider::line_end, 2);
    if t[i] != '\n' && i + 1 < t.len() {
        line_end_says(t, i + 1);
    }
}

/// Where a line ends.
proof fn line_ends_at(t: Seq<char>, i: int, j: int)
    requires
        0 <= i < j <= t.len(),
        forall|k: int| i <= k < j - 1 ==> t[k] != '\n',
        t[j - 1] == '\n' || j == t.len(),
    ensures
        provider::line_end(t, i) == j,
    decreases j - i,
{
    reveal_with_fuel(provider::line_end, 2);
    if t[i] != '\n' && i + 1 < j {
        line_ends_at(t, i + 1, j);
    }
}

/// The first character of `s` that is no white space.
spec fn ink(s: Seq<char>) -> Option<char>
    decreases s.len(),
{
    if s.len() == 0 {
        None
    } else if text::is_white_space(s[0]) {
        ink(s.drop_first())
    } else {
        Some(s[0])
    }
}

proof fn ink_is_trimmed(s: Seq<char>)
    ensures
        provider::is_blank_or_comment(s) == (ink(s) is None || ink(s) == Some('#')),
    decreases s.len(),
{
    if s.len() > 0 && text::is_white_space(s[0]) {
        ink_is_trimmed(s.drop_first());
    }
}

proof fn ink_of_sum(a: Seq<char>, b: Seq<char>)
    ensures
        ink(a + b) == if ink(a) is Some {
            ink(a)
        } else {
            ink(b)
        },
    decreases a.len(),
{
    if a.len() == 0 {
        assert(a + b =~= b);
    } else {
        assert((a + b).drop_first() =~= a.drop_first() + b);
        ink_of_sum(a.drop_first(), b);
    }
}

proof fn ink_without_break(l: Seq<char>)
    ensures
        ink(provider::without_break(l)) == ink(l),
        provider::without_break(l).len() > 0 ==> l.len() > 0 && provider::without_break(l)[0]
            == l[0],
    decreases l.len(),
{
    if l.len() > 0 && (l.last() == '\n' || l.last() == '\r') {
        let last = seq![l.last()];
        ink_without_break(l.drop_last());
        assert(l =~= l.drop_last() + last);
        ink_of_sum(l.drop_last(), last);
        assert(last.drop_first() =~= seq![]);
        assert(ink(last) is None) by {
            reveal_with_fuel(ink, 2);
        }
    }
}

/// Does the line, with its line break, begin another block?
spec fn ends(l: Seq<char>) -> bool {
    provider::ends_block(provider::without_break(l))
}

proof fn ends_by_ink(l: Seq<char>)
    ensures
        ends(l) == (ink(l) is Some && ink(l) != Some('#') && l[0] != ' ' && l[0] != '\t'),
{
    ink_without_break(l);
    ink_is_trimmed(provider::without_break(l));
}

/// A line that goes on behind `a` with a mark that is neither white nor a comment
/// does not begin a block whatever stands there instead of the mark, if it did not
/// begin one with it.
proof fn ends_elsewhere(a: Seq<char>, old: Seq<char>, new: Seq<char>, c: Seq<char>)
    requires
        a.len() > 0,
        old.len() > 0,
        !text::is_white_space(old[0]),
        old[0] != '#',
        !ends(a + old + c),
    ensures
        !ends(a + new + c),
{
    ends_by_ink(a + old + c);
    ends_by_ink(a + new + c);
    ink_of_sum(a + old, c);
    ink_of_sum(a, old);
    ink_of_sum(a + new, c);
    ink_of_sum(a, new);
    assert((a + old + c)[0] == a[0]);
    assert((a + new + c)[0] == a[0]);
}

/// A block ends as far behind `j` in `y` as behind `i` in `x`, where the two texts
/// go on alike.
proof fn block_end_moves(x: Seq<char>, i: int, y: Seq<char>, j: int)
    requires
        0 <= i <= x.len(),
        0 <= j <= y.len(),
        x.skip(i) == y.skip(j),
    ensures
        provider::block_end(y, j) - j == provider::block_end(x, i) - i,
    decreases x.len() - i,
{
    assert(x.len() - i == x.skip(i).len() == y.skip(j).len() == y.len() - j);
    if i < x.len() {
        let n = provider::line_end(x, i);
        let m = j + (n - i);
        line_end_says(x, i);
        assert forall|k: int| i <= k < x.len() implies #[trigger] x[k] == y[k - i + j] by {
            let d = k - i;
            assert(x.skip(i)[d] == x[i + d]);
            assert(y.skip(j)[d] == y[j + d]);
        }
        assert forall|k: int| j <= k < m - 1 implies #[trigger] y[k] != '\n' by {
            assert(x[k - j + i] == y[k - j + i - i + j]);
        }
        assert(x[n - 1] == y[m - 1]);
        line_ends_at(y, j, m);
        assert(x.subrange(i, n) =~= y.subrange(j, m));
        assert(x.skip(n) =~= y.skip(m)) by {
            assert forall|k: int| 0 <= k < x.skip(n).len() implies x.skip(n)[k] == y.skip(m)[k] by {
                assert(x[n + k] == y[n + k - i + j]);
            }
        }
        block_end_moves(x, n, y, m);
    }
}

/// Putting `new` in the place of `old` within a line of a block moves the block's
/// end by what the text grows.
proof fn block_end_splice(
    a: Seq<char>,
    old: Seq<char>,
    new: Seq<char>,
    c: Seq<char>,
    i: int,
)
    requires
        0 <= i < a.len(),
        a.last() != '\n',
        old.len() > 0,
        !text::is_white_space(old[0]),
        old[0] != '#',
        !old.contains('\n'),
        !new.contains('\n'),
        a.len() + old.len() <= provider::block_end(a + old + c, i),
    ensures
        provider::block_end(a + new + c, i) == provider::block_end(a + old + c, i) - old.len()
            + new.len(),
    decreases a.len() - i,
{
    let x = a + old + c;
    let y = a + new + c;
    let j = provider::line_end(x, i);
    line_end_says(x, i);
    assert forall|k: int| 0 <= k < a.len() implies #[trigger] x[k] == a[k] && y[k] == a[k] by {}
    assert(!ends(x.subrange(i, j)));
    if j <= a.len() {
        assert(x[a.len() - 1] == a.last());
        assert(j < a.len());
        assert(x[j - 1] == y[j - 1]);
        assert forall|k: int| i <= k < j - 1 implies #[trigger] y[k] != '\n' by {
            assert(x[k] == y[k]);
        }
        line_ends_at(y, i, j);
        assert(x.subrange(i, j) =~= y.subrange(i, j));
        block_end_splice(a, old, new, c, j);
    } else {
        let v = a.len() + old.len();
        let w = a.len() + new.len();
        if j < v {
            assert(x[j - 1] == old[j - 1 - a.len()]);
            assert(old.contains(old[j - 1 - a.len()]));
            assert(false);
        }
        let m = j - v + w;
        assert forall|k: int| i <= k < m - 1 implies #[trigger] y[k] != '\n' by {
            if k < a.len() {
                assert(x[k] == y[k]);
            } else if k < w {
                assert(y[k] == new[k - a.len()]);
                assert(new.contains(new[k - a.len()]));
            } else {
                assert(y[k] == c[k - w] && x[k - w + v] == c[k - w]);
            }
        }
        assert(y[m - 1] == '\n' || m == y.len()) by {
            if j > v {
                assert(y[m - 1] == c[m - 1 - w] && x[j - 1] == c[j - 1 - v]);
            } else {
                assert(x[j - 1] == old[j - 1 - a.len()]);
                assert(old.contains(old[j - 1 - a.len()]));
            }
        }
        line_ends_at(y, i, m);
        let head = a.skip(i);
        let rest = c.take(j - v);
        assert(x.subrange(i, j) =~= head + old + rest);
        assert(y.subrange(i, m) =~= head + new + rest);
        ends_elsewhere(head, old, new, rest);
        assert(x.skip(j) =~= y.skip(m));
        block_end_moves(x, j, y, m);
    }
}

/// A catalog's header is found again in any text that is the same up to where the
/// body begins, and the line of the header is a whole one.
proof fn catalog_start_stays(x: Seq<char>, y: Seq<char>, i: int)
    requires
        0 <= i,
        provider::catalog_start(x, i) matches Some(s) && s < x.len() && s <= y.len() && x.take(s)
            == y.take(s),
    ensures
        provider::catalog_start(y, i) == provider::catalog_start(x, i),
    decreases x.len() - i,
{
    let s = provider::catalog_start(x, i)->0;
    let j = provider::line_end(x, i);
    provider::catalog_start_bounds(x, i);
    line_end_says(x, i);
    provider::catalog_start_bounds(x, j);
    assert forall|k: int| 0 <= k < s implies #[trigger] x[k] == y[k] by {
        assert(x.take(s)[k] == y.take(s)[k]);
    }
    assert(j <= s);
    assert(x[j - 1] == y[j - 1]);
    assert forall|k: int| i <= k < j - 1 implies #[trigger] y[k] != '\n' by {
        assert(x[k] == y[k]);
    }
    line_ends_at(y, i, j);
    assert(x.subrange(i, j) =~= y.subrange(i, j));
    if !provider::is_header(provider::without_break(x.subrange(i, j))) {
        catalog_start_stays(x, y, j);
    }
}

// ─── entries ────────────────────────────────────────────────────────────

/// The group of a catalog entry that holds the version.
pub open spec fn version_group() -> int {
    5
}

/// Are the groups of the match those of a catalog entry? Group 5 is the version,
/// between what a rewrite keeps; the name and the operator stand in front of it;
/// what is in front of it does not end in a line break; and the version has none,
/// and begins with neither white space nor a `#`.
pub open spec fn is_entry(t: Seq<char>, m: Seq<Option<Span>>) -> bool {
    let l = provider::catalog_layout();
    let front = pattern::groups_text(t, m, l.before);
    let version = pattern::group(t, m, version_group());
    &&& entries::is_shaped(t, m, l, version_group())
    &&& entries::is_in_front(m, 2, version_group())
    &&& entries::is_in_front(m, 4, version_group())
    &&& front.len() > 0 && front.last() != '\n'
    &&& version.len() > 0 && !version.contains('\n')
    &&& !text::is_white_space(version[0]) && version[0] != '#'
}

/// Are `ms` matches in `t`, and catalog entries all of them?
pub open spec fn are_entries(t: Seq<char>, ms: Seq<Seq<Option<Span>>>) -> bool {
    &&& pattern::are_matches(t, ms)
    &&& forall|i: int| 0 <= i < ms.len() ==> is_entry(t, #[trigger] ms[i])
}

/// The stretches that the versions of the entries for `module` take up.
pub open spec fn versions_of(
    t: Seq<char>,
    ms: Seq<Seq<Option<Span>>>,
    module: Seq<char>,
) -> Seq<(int, int)> {
    entries::versions_of(t, ms, provider::catalog_layout(), version_group(), module)
}

/// Do the stretches lie within lines: is there something in front of each on its
/// line, and no line break in it, and does it begin with neither white space nor
/// a `#`?
spec fn within_lines(t: Seq<char>, vs: Seq<(int, int)>) -> bool
    decreases vs.len(),
{
    vs.len() == 0 || {
        let v = vs.last();
        let gap = pattern::piece(t, splice::end_of(vs.drop_last()), v.0);
        let old = pattern::piece(t, v.0, v.1);
        &&& within_lines(t, vs.drop_last())
        &&& gap.len() > 0 && gap.last() != '\n'
        &&& old.len() > 0 && !old.contains('\n')
        &&& !text::is_white_space(old[0]) && old[0] != '#'
    }
}

/// The versions of catalog entries lie within lines.
proof fn versions_within_lines(t: Seq<char>, ms: Seq<Seq<Option<Span>>>, module: Seq<char>)
    requires
        are_entries(t, ms),
    ensures
        within_lines(t, versions_of(t, ms, module)),
        splice::are_stretches(t, versions_of(t, ms, module)),
        splice::end_of(versions_of(t, ms, module)) <= pattern::end_of(ms),
    decreases ms.len(),
{
    let l = provider::catalog_layout();
    let g = version_group();
    entries_are_shaped(t, ms);
    entries::rewriting_replaces_versions(t, ms, l, g, module, seq![]);
    if ms.len() > 0 {
        let init = ms.drop_last();
        let m = ms.last();
        entries::all_but_the_last(t, ms, l, g);
        assert(m == ms[ms.len() - 1]);
        assert forall|i: int| 0 <= i < init.len() implies is_entry(t, #[trigger] init[i]) by {
            assert(init[i] == ms[i]);
        }
        versions_within_lines(t, init, module);
        if entries::is_for(t, m, l, module) {
            let us = versions_of(t, init, module);
            let v = entries::stretch(m, g);
            let w = entries::stretch(m, 0);
            let e = splice::end_of(us);
            assert(us.push(v).drop_last() =~= us);
            splice::ends_are_cuts(t, us);
            pattern::pieces_join(t, e, w.0, v.0);
            let front = pattern::groups_text(t, m, l.before);
            assert(pattern::piece(t, e, v.0).last() == front.last());
        }
    }
}

// ─── reading back ───────────────────────────────────────────────────────

/// The block of a catalog goes on to the end of its rewritten body.
proof fn block_end_follows(
    pre: Seq<char>,
    t: Seq<char>,
    post: Seq<char>,
    vs: Seq<(int, int)>,
    new: Seq<char>,
)
    requires
        splice::are_stretches(t, vs),
        within_lines(t, vs),
        !new.contains('\n'),
        provider::block_end(pre + t + post, pre.len() as int) == pre.len() + t.len(),
    ensures
        provider::block_end(pre + splice::spliced(t, vs, new) + post, pre.len() as int) == pre.len()
            + splice::spliced(t, vs, new).len(),
    decreases vs.len(),
{
    if vs.len() == 0 {
        pattern::whole_piece(t);
        assert(splice::spliced(t, vs, new) =~= t);
    } else {
        let init = vs.drop_last();
        let v = vs.last();
        block_end_follows(pre, t, post, init, new);
        splice::one_more(t, vs, new);
        let gap = pattern::piece(t, splice::end_of(init), v.0);
        let front = splice::spliced_upto(t, init, new) + gap;
        let old = pattern::piece(t, v.0, v.1);
        let rest = pattern::piece(t, v.1, pattern::byte_len(t));
        let a = pre + front;
        let c = rest + post;
        assert(a.last() == gap.last());
        assert(pre + splice::spliced(t, init, new) + post =~= a + old + c);
        assert(pre + splice::spliced(t, vs, new) + post =~= a + new + c);
        block_end_splice(a, old, new, c, pre.len() as int);
    }
}

/// The body of a bumped catalog begins where it began, and holds what was written
/// there.
proof fn body_stays(text: Seq<char>, vs: Seq<(int, int)>, new: Seq<char>)
    requires
        !new.contains('\n'),
        provider::catalog_body(text) matches Some((start, end)) && ({
            let t = text.subrange(start, end);
            splice::are_stretches(t, vs) && within_lines(t, vs)
        }),
    ensures
        provider::catalog_body(text) matches Some((start, end)) && ({
            let made = splice::spliced(text.subrange(start, end), vs, new);
            let out = text.take(start) + made + text.skip(end);
            &&& provider::catalog_body(out) == Some((start, start + made.len()))
            &&& out.subrange(start, start + made.len()) == made
        }),
{
    provider::catalog_body_bounds(text);
    let (start, end) = provider::catalog_body(text)->0;
    let t = text.subrange(start, end);
    let pre = text.take(start);
    let post = text.skip(end);
    let made = splice::spliced(t, vs, new);
    let out = pre + made + post;
    assert(pre + t + post =~= text);
    assert(out.subrange(start, start + made.len()) =~= made);
    block_end_follows(pre, t, post, vs, new);
    if vs.len() == 0 {
        pattern::whole_piece(t);
        assert(made =~= t);
    } else {
        assert(t.len() > 0) by {
            if t.len() == 0 {
                assert(pattern::byte_len(t) == 0);
                splice::ends_are_cuts(t, vs.drop_last());
            }
        }
        assert(text.take(start) =~= out.take(start));
        catalog_start_stays(text, out, 0);
    }
}

/// Catalog entries are entries.
proof fn entries_are_shaped(t: Seq<char>, ms: Seq<Seq<Option<Span>>>)
    requires
        are_entries(t, ms),
    ensures
        entries::are_shaped(t, ms, provider::catalog_layout(), version_group()),
{
    assert forall|i: int| 0 <= i < ms.len() implies entries::is_shaped(
        t,
        #[trigger] ms[i],
        provider::catalog_layout(),
        version_group(),
    ) by {
        assert(is_entry(t, ms[i]));
    }
}

/// Bumping a catalog replaces the versions of the module's entries and nothing
/// else: every character outside them is kept, in order.
pub proof fn bump_replaces_versions(
    p: PnpmCatalogProvider,
    text: Seq<char>,
    module: Seq<char>,
    target: Seq<char>,
)
    requires
        provider::catalog_body(text) matches Some((start, end)) ==> ({
            let body = text.subrange(start, end);
            are_entries(body, provider::found(provider::CATALOG_ENTRY@, body))
        }),
    ensures
        provider::catalog_body(text) is None ==> p.bumped(text, module, target) == text,
        provider::catalog_body(text) matches Some((start, end)) ==> ({
            let body = text.subrange(start, end);
            let vs = versions_of(body, provider::found(provider::CATALOG_ENTRY@, body), module);
            &&& splice::are_stretches(body, vs)
            &&& p.bumped(text, module, target) == text.take(start) + splice::spliced(
                body,
                vs,
                target,
            ) + text.skip(end)
        }),
{
    if let Some((start, end)) = provider::catalog_body(text) {
        let body = text.subrange(start, end);
        let ms = provider::found(provider::CATALOG_ENTRY@, body);
        entries_are_shaped(body, ms);
        entries::rewriting_replaces_versions(
            body,
            ms,
            provider::catalog_layout(),
            version_group(),
            module,
            target,
        );
    }
}

/// What is written is read back: where the entries of a catalog are found again
/// in its bumped body, each where it has moved to, the bumped catalog has the
/// edges that it had, in their order, and each edge on the module is at its own
/// operator followed by the target.
pub proof fn bumped_catalog_reads_back(
    p: PnpmCatalogProvider,
    text: Seq<char>,
    module: Seq<char>,
    target: Seq<char>,
)
    requires
        !target.contains('\n'),
        provider::catalog_body(text) matches Some((start, end)) ==> ({
            let body = text.subrange(start, end);
            let ms = provider::found(provider::CATALOG_ENTRY@, body);
            let vs = versions_of(body, ms, module);
            let made = pattern::rewritten(body, ms, provider::catalog_layout(), module, target);
            &&& are_entries(body, ms)
            &&& entries::are_moved(ms, provider::found(provider::CATALOG_ENTRY@, made), vs, target)
        }),
    ensures
        p.edges_in(text) is None ==> p.edges_in(p.bumped(text, module, target)) is None,
        provider::catalog_body(text) matches Some((start, end)) ==> ({
            let body = text.subrange(start, end);
            let ms = provider::found(provider::CATALOG_ENTRY@, body);
            let was = p.edges_in(text)->0;
            let now = p.edges_in(p.bumped(text, module, target));
            now == Some(
                Seq::new(
                    was.len(),
                    |i: int|
                        if was[i].module == module {
                            DepEdgeView {
                                current: edge::npm_constraint(
                                    pattern::group(body, ms[i], 4) + target,
                                ),
                                ..was[i]
                            }
                        } else {
                            was[i]
                        },
                ),
            )
        }),
{
    if let Some((start, end)) = provider::catalog_body(text) {
        let body = text.subrange(start, end);
        let ms = provider::found(provider::CATALOG_ENTRY@, body);
        let vs = versions_of(body, ms, module);
        let was = p.edges_in(text)->0;
        let out = p.bumped(text, module, target);
        let made = splice::spliced(body, vs, target);
        let l = provider::catalog_layout();
        let g = version_group();
        entries_are_shaped(body, ms);
        entries::rewriting_replaces_versions(body, ms, l, g, module, target);
        versions_within_lines(body, ms, module);
        body_stays(text, vs, target);
        let ns = provider::found(provider::CATALOG_ENTRY@, made);
        let now = p.edges_in(out)->0;
        assert(p.edges_in(out) is Some);
        assert forall|i: int| 0 <= i < was.len() implies #[trigger] now[i] == (if was[i].module
            == module {
            DepEdgeView {
                current: edge::npm_constraint(pattern::group(body, ms[i], 4) + target),
                ..was[i]
            }
        } else {
            was[i]
        }) by {
            assert(entries::is_moved(ms[i], ns[i], vs, target));
            assert(is_entry(body, ms[i]));
            entries::entry_reads_back(body, ms, l, g, module, target, i, ns[i]);
            assert(was[i] == provider::catalog_edge(body, ms[i]));
            assert(now[i] == provider::catalog_edge(made, ns[i]));
        }
    }
}

// ─── where a catalog stands ─────────────────────────────────────────────

/// Is there a line of `t` from `i` to `j`, its line break counted?
pub open spec fn is_line(t: Seq<char>, i: int, j: int) -> bool {
    &&& 0 <= i < j <= t.len()
    &&& i == 0 || t[i - 1] == '\n'
    &&& forall|k: int| i <= k < j - 1 ==> #[trigger] t[k] != '\n'
    &&& t[j - 1] == '\n' || j == t.len()
}

/// Is the first character of `t` between `i` and `j` that is no white space at `p`? At
/// `j` where there is none.
pub open spec fn first_ink_at(t: Seq<char>, i: int, j: int, p: int) -> bool {
    &&& i <= p <= j
    &&& forall|k: int| i <= k < p ==> text::is_white_space(#[trigger] t[k])
    &&& p < j ==> !text::is_white_space(t[p])
}

/// Is the line from `i` to `j` the header of the catalog: `catalog:` at its very
/// beginning, and nothing behind that but white space or a comment?
pub open spec fn is_catalog_header(t: Seq<char>, i: int, j: int) -> bool {
    &&& is_line(t, i, j)
    &&& text::occurs_at(t, "catalog:"@, i)
    &&& i + 8 <= j
    &&& exists|p: int| #[trigger] first_ink_at(t, i + 8, j, p) && (p == j || t[p] == '#')
}

/// Does the line from `i` to `j` begin a block of its own: is it not indented, and is
/// there something in it that is no comment?
pub open spec fn begins_block(t: Seq<char>, i: int, j: int) -> bool {
    &&& is_line(t, i, j)
    &&& t[i] != ' ' && t[i] != '\t'
    &&& exists|p: int| #[trigger] first_ink_at(t, i, j, p) && p < j && t[p] != '#'
}

proof fn ink_place(t: Seq<char>, i: int, j: int) -> (p: int)
    requires
        0 <= i <= j <= t.len(),
    ensures
        first_ink_at(t, i, j, p),
        forall|q: int| #[trigger] first_ink_at(t, i, j, q) ==> q == p,
        ink(t.subrange(i, j)) == (if p < j {
            Some(t[p])
        } else {
            None
        }),
    decreases j - i,
{
    let s = t.subrange(i, j);
    if i < j && text::is_white_space(t[i]) {
        assert(s.drop_first() =~= t.subrange(i + 1, j));
        let p = ink_place(t, i + 1, j);
        assert forall|q: int| #[trigger] first_ink_at(t, i, j, q) implies q == p by {
            if q == i {
                assert(!text::is_white_space(t[q]));
            }
            assert(first_ink_at(t, i + 1, j, q));
        }
        p
    } else {
        assert forall|q: int| #[trigger] first_ink_at(t, i, j, q) implies q == i by {
            if q > i {
                assert(text::is_white_space(t[i]));
            }
        }
        i
    }
}

proof fn break_is_white(l: Seq<char>) -> (n: int)
    ensures
        0 <= n <= l.len(),
        provider::without_break(l) == l.take(n),
        forall|k: int| n <= k < l.len() ==> #[trigger] l[k] == '\n' || l[k] == '\r',
    decreases l.len(),
{
    if l.len() > 0 && (l.last() == '\n' || l.last() == '\r') {
        let n = break_is_white(l.drop_last());
        assert(l.drop_last().take(n) =~= l.take(n));
        assert forall|k: int| n <= k < l.len() implies #[trigger] l[k] == '\n' || l[k]
            == '\r' by {
            if k < l.len() - 1 {
                assert(l.drop_last()[k] == l[k]);
            }
        }
        n
    } else {
        assert(l.take(l.len() as int) =~= l);
        l.len() as int
    }
}

proof fn white_has_no_ink(s: Seq<char>)
    requires
        forall|k: int| 0 <= k < s.len() ==> text::is_white_space(#[trigger] s[k]),
    ensures
        ink(s) is None,
    decreases s.len(),
{
    if s.len() > 0 {
        assert forall|k: int| 0 <= k < s.drop_first().len() implies text::is_white_space(
            #[trigger] s.drop_first()[k],
        ) by {
            assert(s.drop_first()[k] == s[k + 1]);
        }
        white_has_no_ink(s.drop_first());
    }
}

proof fn header_is(t: Seq<char>, i: int, j: int)
    requires
        is_line(t, i, j),
    ensures
        provider::is_header(provider::without_break(t.subrange(i, j))) == is_catalog_header(
            t,
            i,
            j,
        ),
{
    reveal_strlit("catalog:");
    let name = "catalog:"@;
    let l = t.subrange(i, j);
    let n = break_is_white(l);
    let w = provider::without_break(l);
    if name.is_prefix_of(w) {
        assert(w.subrange(0, 8) =~= name);
        assert forall|k: int| 0 <= k < 8 implies t[i + k] == name[k] by {
            assert(w.subrange(0, 8)[k] == l[k]);
        }
        assert(t.subrange(i, i + 8) =~= name);
    }
    if text::occurs_at(t, name, i) && i + 8 <= j {
        assert(t.subrange(i, i + 8) =~= name);
        assert forall|k: int| 0 <= k < 8 implies l[k] == name[k] by {
            assert(t.subrange(i, i + 8)[k] == t[i + k]);
        }
        if n < 8 {
            assert(l[7] == ':');
            assert(false);
        }
        assert(w.subrange(0, 8) =~= name);
    }
    if name.is_prefix_of(w) {
        let rest = l.skip(8);
        assert(rest =~= w.skip(8) + l.skip(n));
        ink_of_sum(w.skip(8), l.skip(n));
        assert forall|k: int| 0 <= k < l.skip(n).len() implies text::is_white_space(
            #[trigger] l.skip(n)[k],
        ) by {
            assert(l.skip(n)[k] == l[n + k]);
        }
        white_has_no_ink(l.skip(n));
        ink_is_trimmed(w.skip(8));
        assert(rest =~= t.subrange(i + 8, j));
        let p = ink_place(t, i + 8, j);
        assert(first_ink_at(t, i + 8, j, p));
    }
}

proof fn block_is(t: Seq<char>, i: int, j: int)
    requires
        is_line(t, i, j),
    ensures
        provider::ends_block(provider::without_break(t.subrange(i, j))) == begins_block(t, i, j),
{
    let l = t.subrange(i, j);
    ends_by_ink(l);
    let p = ink_place(t, i, j);
    assert(first_ink_at(t, i, j, p));
    assert(l[0] == t[i]);
}

proof fn lines_do_not_overlap(t: Seq<char>, i: int, j: int, a: int, b: int)
    requires
        is_line(t, i, j),
        is_line(t, a, b),
        i <= a,
    ensures
        a == i && b == j || j <= a,
{
    if i < a < j {
        assert(t[a - 1] == '\n');
        assert(false);
    }
    if a == i && b < j {
        assert(t[b - 1] == '\n');
        assert(false);
    }
    if a == i && j < b {
        assert(t[j - 1] == '\n');
        assert(false);
    }
}

proof fn start_is(t: Seq<char>, i: int)
    requires
        0 <= i <= t.len(),
        i == 0 || i == t.len() || t[i - 1] == '\n',
    ensures
        provider::catalog_start(t, i) matches Some(s) ==> exists|a: int| #[trigger]
            is_catalog_header(t, a, s),
        provider::catalog_start(t, i) matches Some(s) ==> forall|a: int, b: int|
            i <= a && #[trigger] is_catalog_header(t, a, b) ==> s <= b,
        provider::catalog_start(t, i) is None ==> forall|a: int, b: int|
            i <= a ==> !#[trigger] is_catalog_header(t, a, b),
    decreases t.len() - i,
{
    if i < t.len() {
        let j = provider::line_end(t, i);
        line_end_says(t, i);
        assert(is_line(t, i, j));
        header_is(t, i, j);
        start_is(t, j);
        let found = provider::catalog_start(t, i);
        if is_catalog_header(t, i, j) {
            assert(found->0 == j);
            assert(is_catalog_header(t, i, found->0));
        } else if found is Some {
            assert(provider::catalog_start(t, j) == found);
            let a = choose|a: int| #[trigger] is_catalog_header(t, a, found->0);
            assert(is_catalog_header(t, a, found->0));
        }
        assert forall|a: int, b: int| i <= a && #[trigger] is_catalog_header(t, a, b) implies (a
            == i && b == j) || j <= a by {
            lines_do_not_overlap(t, i, j, a, b);
        }
    }
}

proof fn end_is(t: Seq<char>, i: int)
    requires
        0 <= i <= t.len(),
        i == 0 || i == t.len() || t[i - 1] == '\n',
    ensures
        ({
            let e = provider::block_end(t, i);
            &&& i <= e <= t.len()
            &&& e < t.len() ==> exists|b: int| #[trigger] begins_block(t, e, b)
            &&& forall|a: int, b: int|
                i <= a < e ==> !#[trigger] begins_block(t, a, b)
        }),
    decreases t.len() - i,
{
    if i < t.len() {
        let j = provider::line_end(t, i);
        line_end_says(t, i);
        assert(is_line(t, i, j));
        block_is(t, i, j);
        end_is(t, j);
        let e = provider::block_end(t, i);
        assert forall|a: int, b: int| i <= a < e implies !#[trigger] begins_block(t, a, b) by {
            if begins_block(t, a, b) {
                lines_do_not_overlap(t, i, j, a, b);
            }
        }
    }
}

/// Where the catalog of a workspace file stands: behind the first header line, up to
/// the next line that begins a block, or to the end of the text; and there is none just
/// where no line is its header.
pub proof fn catalog_stands_behind_its_header(t: Seq<char>)
    ensures
        provider::catalog_body(t) is None <==> forall|a: int, b: int| !#[trigger]
            is_catalog_header(t, a, b),
        provider::catalog_body(t) matches Some((start, end)) ==> start <= end <= t.len(),
        provider::catalog_body(t) matches Some((start, end)) ==> exists|a: int| #[trigger]
            is_catalog_header(t, a, start),
        provider::catalog_body(t) matches Some((start, end)) ==> forall|a: int, b: int| #[trigger]
            is_catalog_header(t, a, b) ==> start <= b,
        provider::catalog_body(t) matches Some((start, end)) ==> (end < t.len() ==> exists|b: int|
            #[trigger]
            begins_block(t, end, b)),
        provider::catalog_body(t) matches Some((start, end)) ==> forall|a: int, b: int|
            start <= a < end ==> !#[trigger] begins_block(t, a, b),
{
    start_is(t, 0);
    if let Some(s) = provider::catalog_start(t, 0) {
        let a = choose|a: int| #[trigger] is_catalog_header(t, a, s);
        end_is(t, s);
    }
}

} // verus!
