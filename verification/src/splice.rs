//! Texts with some of their stretches replaced: what becomes of the rest, and
//! where it stands afterwards. Stretches are given by byte offsets.
use vstd::prelude::*;
use vstd::utf8;

use crate::pattern;

verus! {

/// Where the last of the stretches ends; 0 where there is none.
pub open spec fn end_of(vs: Seq<(int, int)>) -> int {
    if vs.len() == 0 {
        0
    } else {
        vs.last().1
    }
}

/// Are `vs` stretches of `t`, none of them empty, each beginning where the one
/// before it has ended or later?
pub open spec fn are_stretches(t: Seq<char>, vs: Seq<(int, int)>) -> bool
    decreases vs.len(),
{
    vs.len() == 0 || {
        let v = vs.last();
        &&& are_stretches(t, vs.drop_last())
        &&& end_of(vs.drop_last()) <= v.0 < v.1 <= pattern::byte_len(t)
        &&& pattern::is_cut(t, v.0)
        &&& pattern::is_cut(t, v.1)
    }
}

/// `t` up to the end of the last stretch, `new` in the place of each of them.
pub open spec fn spliced_upto(t: Seq<char>, vs: Seq<(int, int)>, new: Seq<char>) -> Seq<char>
    decreases vs.len(),
{
    if vs.len() == 0 {
        seq![]
    } else {
        let init = vs.drop_last();
        spliced_upto(t, init, new) + pattern::piece(t, end_of(init), vs.last().0) + new
    }
}

/// `t` with `new` in the place of each stretch, and everything between them, in
/// front of the first and behind the last as it was.
pub open spec fn spliced(t: Seq<char>, vs: Seq<(int, int)>, new: Seq<char>) -> Seq<char> {
    spliced_upto(t, vs, new) + pattern::piece(t, end_of(vs), pattern::byte_len(t))
}

/// By how much the offset `p` moves when each stretch becomes `n` bytes long: by
/// what the stretches that end at `p` or before it grow.
pub open spec fn shift(vs: Seq<(int, int)>, n: int, p: int) -> int
    decreases vs.len(),
{
    if vs.len() == 0 {
        0
    } else {
        shift(vs.drop_last(), n, p) + if vs.last().1 <= p {
            n - (vs.last().1 - vs.last().0)
        } else {
            0
        }
    }
}

/// Where the offset `p` stands once each stretch is replaced by `new`.
pub open spec fn moved(vs: Seq<(int, int)>, new: Seq<char>, p: int) -> int {
    p + shift(vs, pattern::byte_len(new), p)
}

/// Does the stretch from `a` to `b` leave every one of `vs` alone?
pub open spec fn is_outside(vs: Seq<(int, int)>, a: int, b: int) -> bool {
    forall|k: int| 0 <= k < vs.len() ==> b <= (#[trigger] vs[k]).0 || vs[k].1 <= a
}

/// The bytes of two texts, one after the other.
proof fn bytes_of_sum(a: Seq<char>, b: Seq<char>)
    ensures
        utf8::encode_utf8(a + b) == utf8::encode_utf8(a) + utf8::encode_utf8(b),
    decreases a.len(),
{
    if a.len() == 0 {
        assert(a + b =~= b);
        assert(utf8::encode_utf8(a) =~= seq![]);
    } else {
        assert((a + b).drop_first() =~= a.drop_first() + b);
        bytes_of_sum(a.drop_first(), b);
    }
}

/// A stretch is as long as its offsets say.
proof fn piece_len(t: Seq<char>, a: int, b: int)
    requires
        0 <= a <= b <= pattern::byte_len(t),
        pattern::is_cut(t, a),
        pattern::is_cut(t, b),
    ensures
        pattern::byte_len(pattern::piece(t, a, b)) == b - a,
{
    let bytes = utf8::encode_utf8(t);
    utf8::encode_utf8_valid_utf8(t);
    pattern::cut_of_part(bytes, a, b, a);
    utf8::decode_utf8_encode_utf8(bytes.subrange(a, b));
}

/// Where the stretches end, the text can be cut.
pub proof fn ends_are_cuts(t: Seq<char>, vs: Seq<(int, int)>)
    requires
        are_stretches(t, vs),
    ensures
        0 <= end_of(vs) <= pattern::byte_len(t),
        pattern::is_cut(t, end_of(vs)),
    decreases vs.len(),
{
    pattern::whole_piece(t);
    if vs.len() > 0 {
        ends_are_cuts(t, vs.drop_last());
    }
}

/// The stretches come in order.
proof fn stretches_ascend(t: Seq<char>, vs: Seq<(int, int)>, k: int)
    requires
        are_stretches(t, vs),
        0 <= k < vs.len(),
    ensures
        0 <= vs[k].0 < vs[k].1 <= end_of(vs),
    decreases vs.len(),
{
    ends_are_cuts(t, vs.drop_last());
    if k < vs.len() - 1 {
        stretches_ascend(t, vs.drop_last(), k);
        assert(vs.drop_last()[k] == vs[k]);
    }
}

/// Behind the last stretch, every offset moves by the same.
proof fn shift_behind(t: Seq<char>, vs: Seq<(int, int)>, n: int, p: int)
    requires
        are_stretches(t, vs),
        end_of(vs) <= p,
    ensures
        shift(vs, n, p) == shift(vs, n, end_of(vs)),
    decreases vs.len(),
{
    if vs.len() > 0 {
        let init = vs.drop_last();
        ends_are_cuts(t, init);
        shift_behind(t, init, n, p);
        shift_behind(t, init, n, end_of(vs));
    }
}

/// The bytes of the replaced text up to `p`, which stands behind every stretch.
proof fn len_upto(t: Seq<char>, vs: Seq<(int, int)>, new: Seq<char>, p: int)
    requires
        are_stretches(t, vs),
        end_of(vs) <= p <= pattern::byte_len(t),
        pattern::is_cut(t, p),
    ensures
        pattern::byte_len(spliced_upto(t, vs, new) + pattern::piece(t, end_of(vs), p)) == moved(
            vs,
            new,
            p,
        ),
    decreases vs.len(),
{
    let n = pattern::byte_len(new);
    ends_are_cuts(t, vs);
    piece_len(t, end_of(vs), p);
    bytes_of_sum(spliced_upto(t, vs, new), pattern::piece(t, end_of(vs), p));
    if vs.len() == 0 {
        assert(utf8::encode_utf8(seq![]) =~= seq![]);
    } else {
        let init = vs.drop_last();
        let v = vs.last();
        len_upto(t, init, new, v.0);
        ends_are_cuts(t, init);
        bytes_of_sum(spliced_upto(t, init, new) + pattern::piece(t, end_of(init), v.0), new);
        shift_behind(t, init, n, v.0);
        shift_behind(t, init, n, p);
    }
}

/// Replacing the last stretch too is one more replacement: what stands in front
/// of it and behind it stays.
pub proof fn one_more(t: Seq<char>, vs: Seq<(int, int)>, new: Seq<char>)
    requires
        are_stretches(t, vs),
        vs.len() > 0,
    ensures
        ({
            let init = vs.drop_last();
            let v = vs.last();
            let front = spliced_upto(t, init, new) + pattern::piece(t, end_of(init), v.0);
            let old = pattern::piece(t, v.0, v.1);
            let rest = pattern::piece(t, v.1, pattern::byte_len(t));
            &&& spliced(t, init, new) == front + old + rest
            &&& spliced(t, vs, new) == front + new + rest
            &&& pattern::byte_len(front) == moved(init, new, v.0)
            &&& pattern::byte_len(old) == v.1 - v.0
        }),
{
    let init = vs.drop_last();
    let v = vs.last();
    let n = pattern::byte_len(t);
    pattern::whole_piece(t);
    ends_are_cuts(t, init);
    len_upto(t, init, new, v.0);
    piece_len(t, v.0, v.1);
    pattern::pieces_join(t, end_of(init), v.0, n);
    pattern::pieces_join(t, v.0, v.1, n);
    let front = spliced_upto(t, init, new) + pattern::piece(t, end_of(init), v.0);
    assert(spliced(t, init, new) =~= front + pattern::piece(t, v.0, v.1) + pattern::piece(
        t,
        v.1,
        n,
    ));
}

/// Offsets that no stretch holds stay in order.
proof fn moved_in_order(t: Seq<char>, vs: Seq<(int, int)>, new: Seq<char>, a: int, b: int)
    requires
        are_stretches(t, vs),
        a <= b,
        is_outside(vs, a, a),
        is_outside(vs, b, b),
    ensures
        moved(vs, new, a) <= moved(vs, new, b),
    decreases vs.len(),
{
    if vs.len() > 0 {
        let n = pattern::byte_len(new);
        let init = vs.drop_last();
        let v = vs.last();
        assert(vs[vs.len() - 1] == v);
        assert forall|k: int| 0 <= k < init.len() implies #[trigger] init[k] == vs[k] by {}
        if v.1 <= a || b <= v.0 {
            moved_in_order(t, init, new, a, b);
        } else {
            assert(is_outside(init, v.0, v.0)) by {
                assert forall|k: int| 0 <= k < init.len() implies v.0 <= (#[trigger] init[k]).0
                    || init[k].1 <= v.0 by {
                    stretches_ascend(t, init, k);
                }
            }
            moved_in_order(t, init, new, a, v.0);
            shift_behind(t, init, n, v.0);
            shift_behind(t, init, n, b);
        }
    }
}

/// One replacement leaves the bytes in front of it where they are, and moves
/// those behind it.
proof fn one_splice(front: Seq<char>, old: Seq<char>, new: Seq<char>, rest: Seq<char>)
    ensures
        ({
            let f = pattern::byte_len(front);
            let o = pattern::byte_len(old);
            let n = pattern::byte_len(new);
            let x = front + old + rest;
            let y = front + new + rest;
            &&& pattern::piece(y, f, f + n) == new
            &&& forall|a: int, b: int|
                0 <= a <= b <= f ==> #[trigger] pattern::piece(y, a, b) == pattern::piece(x, a, b)
            &&& forall|a: int, b: int|
                f + o <= a <= b <= pattern::byte_len(x) ==> pattern::piece(y, a + n - o, b + n - o)
                    == #[trigger] pattern::piece(x, a, b)
        }),
{
    let f = pattern::byte_len(front);
    let o = pattern::byte_len(old);
    let n = pattern::byte_len(new);
    let x = front + old + rest;
    let y = front + new + rest;
    bytes_of_sum(front, old);
    bytes_of_sum(front + old, rest);
    bytes_of_sum(front, new);
    bytes_of_sum(front + new, rest);
    let xb = utf8::encode_utf8(x);
    let yb = utf8::encode_utf8(y);
    assert(yb.subrange(f, f + n) =~= utf8::encode_utf8(new));
    utf8::encode_utf8_decode_utf8(new);
    assert forall|a: int, b: int| 0 <= a <= b <= f implies #[trigger] pattern::piece(y, a, b)
        == pattern::piece(x, a, b) by {
        assert(yb.subrange(a, b) =~= xb.subrange(a, b));
    }
    assert forall|a: int, b: int|
        f + o <= a <= b <= pattern::byte_len(x) implies pattern::piece(y, a + n - o, b + n - o)
        == #[trigger] pattern::piece(x, a, b) by {
        assert(yb.subrange(a + n - o, b + n - o) =~= xb.subrange(a, b));
    }
}

/// The replaced text is as long as the moved offset of the old end says.
proof fn spliced_len(t: Seq<char>, vs: Seq<(int, int)>, new: Seq<char>)
    requires
        are_stretches(t, vs),
    ensures
        pattern::byte_len(spliced(t, vs, new)) == moved(vs, new, pattern::byte_len(t)),
{
    pattern::whole_piece(t);
    ends_are_cuts(t, vs);
    len_upto(t, vs, new, pattern::byte_len(t));
}

/// A stretch that leaves the replaced ones alone holds the same text as before,
/// where it has moved to.
pub proof fn rest_is_kept(t: Seq<char>, vs: Seq<(int, int)>, new: Seq<char>, a: int, b: int)
    requires
        are_stretches(t, vs),
        0 <= a <= b <= pattern::byte_len(t),
        is_outside(vs, a, b),
    ensures
        pattern::piece(spliced(t, vs, new), moved(vs, new, a), moved(vs, new, b)) == pattern::piece(
            t,
            a,
            b,
        ),
    decreases vs.len(),
{
    if vs.len() == 0 {
        pattern::whole_piece(t);
        assert(spliced(t, vs, new) =~= t);
    } else {
        let n = pattern::byte_len(new);
        let init = vs.drop_last();
        let v = vs.last();
        assert(vs[vs.len() - 1] == v);
        assert forall|k: int| 0 <= k < init.len() implies #[trigger] init[k] == vs[k] by {}
        assert forall|k: int| 0 <= k < init.len() implies 0 <= (#[trigger] init[k]).0 < init[k].1
            <= v.0 by {
            stretches_ascend(t, init, k);
        }
        rest_is_kept(t, init, new, a, b);
        one_more(t, vs, new);
        let front = spliced_upto(t, init, new) + pattern::piece(t, end_of(init), v.0);
        let old = pattern::piece(t, v.0, v.1);
        let rest = pattern::piece(t, v.1, pattern::byte_len(t));
        one_splice(front, old, new, rest);
        if b <= v.0 {
            moved_in_order(t, init, new, a, b);
            moved_in_order(t, init, new, b, v.0);
            assert(0 <= moved(init, new, a)) by {
                assert(is_outside(init, 0, 0));
                moved_in_order(t, init, new, 0, a);
                shift_at_start(t, init, n);
            }
        } else {
            shift_behind(t, init, n, a);
            shift_behind(t, init, n, b);
            shift_behind(t, init, n, v.0);
            shift_behind(t, init, n, pattern::byte_len(t));
            spliced_len(t, init, new);
            assert(moved(vs, new, a) == moved(init, new, a) + n - (v.1 - v.0));
            assert(moved(vs, new, b) == moved(init, new, b) + n - (v.1 - v.0));
        }
    }
}

/// The start does not move.
proof fn shift_at_start(t: Seq<char>, vs: Seq<(int, int)>, n: int)
    requires
        are_stretches(t, vs),
    ensures
        shift(vs, n, 0) == 0,
    decreases vs.len(),
{
    if vs.len() > 0 {
        ends_are_cuts(t, vs.drop_last());
        shift_at_start(t, vs.drop_last(), n);
    }
}

/// Where a replaced stretch has moved to, the new text stands.
pub proof fn new_is_placed(t: Seq<char>, vs: Seq<(int, int)>, new: Seq<char>, k: int)
    requires
        are_stretches(t, vs),
        0 <= k < vs.len(),
    ensures
        pattern::piece(
            spliced(t, vs, new),
            moved(vs, new, vs[k].0),
            moved(vs, new, vs[k].1),
        ) == new,
    decreases vs.len(),
{
    let n = pattern::byte_len(new);
    let init = vs.drop_last();
    let v = vs.last();
    one_more(t, vs, new);
    let front = spliced_upto(t, init, new) + pattern::piece(t, end_of(init), v.0);
    let old = pattern::piece(t, v.0, v.1);
    let rest = pattern::piece(t, v.1, pattern::byte_len(t));
    one_splice(front, old, new, rest);
    if k == vs.len() - 1 {
        shift_behind(t, init, n, v.0);
        shift_behind(t, init, n, v.1);
    } else {
        assert(init[k] == vs[k]);
        let a = vs[k].0;
        let b = vs[k].1;
        new_is_placed(t, init, new, k);
        stretches_ascend(t, init, k);
        assert forall|i: int| 0 <= i < init.len() implies (a <= (#[trigger] init[i]).0
            || init[i].1 <= a) && (b <= init[i].0 || init[i].1 <= b) && (0 <= init[i].0) && (v.0
            <= init[i].0 || init[i].1 <= v.0) by {
            stretches_ascend(t, init, i);
            stretches_disjoint(t, init, i, k);
        }
        moved_in_order(t, init, new, 0, a);
        moved_in_order(t, init, new, a, b);
        moved_in_order(t, init, new, b, v.0);
        shift_at_start(t, init, n);
    }
}

/// Two of the stretches do not overlap.
proof fn stretches_disjoint(t: Seq<char>, vs: Seq<(int, int)>, i: int, k: int)
    requires
        are_stretches(t, vs),
        0 <= i < vs.len(),
        0 <= k < vs.len(),
    ensures
        i < k ==> vs[i].1 <= vs[k].0,
        k < i ==> vs[k].1 <= vs[i].0,
    decreases vs.len(),
{
    let init = vs.drop_last();
    if i < vs.len() - 1 && k < vs.len() - 1 {
        stretches_disjoint(t, init, i, k);
        assert(init[i] == vs[i] && init[k] == vs[k]);
    } else if i < k {
        stretches_ascend(t, init, i);
        assert(init[i] == vs[i]);
    } else if k < i {
        stretches_ascend(t, init, k);
        assert(init[k] == vs[k]);
    }
}

} // verus!
