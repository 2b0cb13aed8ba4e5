//! Regular-expression surgery on text: where a pattern matches, what its groups
//! hold, and the text with some matches rewritten. Matching is the `regex`
//! crate's.
use vstd::prelude::*;
use vstd::string::*;
use vstd::utf8;

verus! {

/// A stretch of a text, as two byte offsets.
pub type Span = (usize, usize);

/// The groups of one match; the whole match is group 0.
pub type Groups = Vec<Option<Span>>;

/// Is `i` a byte offset between two characters of `t`?
pub open spec fn is_cut(t: Seq<char>, i: int) -> bool {
    utf8::is_char_boundary(utf8::encode_utf8(t), i)
}

/// The text between the byte offsets `a` and `b` of `t`.
pub open spec fn piece(t: Seq<char>, a: int, b: int) -> Seq<char> {
    utf8::decode_utf8(utf8::encode_utf8(t).subrange(a, b))
}

/// The number of bytes of `t`.
pub open spec fn byte_len(t: Seq<char>) -> int {
    utf8::encode_utf8(t).len() as int
}

/// Is `s` a stretch of `t`?
pub open spec fn is_span(t: Seq<char>, s: Span) -> bool {
    s.0 <= s.1 <= byte_len(t) && is_cut(t, s.0 as int) && is_cut(t, s.1 as int)
}

/// The stretch that the whole match takes up.
pub open spec fn whole(m: Seq<Option<Span>>) -> Span {
    m[0]->0
}

/// What a list of matches says.
pub open spec fn match_list(ms: Seq<Groups>) -> Seq<Seq<Option<Span>>> {
    Seq::new(ms.len(), |i: int| ms[i]@)
}

/// Are all groups of a match stretches of `t`, the whole match among them?
pub open spec fn is_match(t: Seq<char>, m: Seq<Option<Span>>) -> bool {
    &&& m.len() > 0
    &&& m[0] is Some
    &&& forall|g: int| 0 <= g < m.len() ==> (#[trigger] m[g] matches Some(s) ==> is_span(t, s))
}

/// Are `ms` matches in `t`, each beginning where the one before it has ended or
/// later?
pub open spec fn are_matches(t: Seq<char>, ms: Seq<Seq<Option<Span>>>) -> bool {
    &&& forall|i: int| 0 <= i < ms.len() ==> is_match(t, #[trigger] ms[i])
    &&& forall|i: int, j: int|
        #![trigger ms[i], ms[j]]
        0 <= i < j < ms.len() ==> whole(ms[i]).1 <= whole(ms[j]).0
}

/// The text of the group `g` of a match; empty where the group took no part.
pub open spec fn group(t: Seq<char>, m: Seq<Option<Span>>, g: int) -> Seq<char> {
    if 0 <= g < m.len() {
        match m[g] {
            Some(s) => piece(t, s.0 as int, s.1 as int),
            None => seq![],
        }
    } else {
        seq![]
    }
}

pub(crate) proof fn cut_of_part(b: Seq<u8>, lo: int, hi: int, i: int)
    requires
        utf8::valid_utf8(b),
        0 <= lo <= i <= hi <= b.len(),
        utf8::is_char_boundary(b, lo),
        utf8::is_char_boundary(b, hi),
        utf8::is_char_boundary(b, i),
    ensures
        utf8::valid_utf8(b.subrange(lo, hi)),
        utf8::is_char_boundary(b.subrange(lo, hi), i - lo),
{
    utf8::valid_utf8_split(b, hi);
    let head = b.subrange(0, hi);
    utf8::is_char_boundary_start_end_of_seq(head);
    if lo < hi {
        utf8::is_char_boundary_iff_not_is_continuation_byte(b, lo);
        utf8::is_char_boundary_iff_not_is_continuation_byte(head, lo);
        assert(head[lo] == b[lo]);
    }
    utf8::valid_utf8_split(head, lo);
    let part = b.subrange(lo, hi);
    assert(head.subrange(lo, hi) =~= part);
    utf8::is_char_boundary_start_end_of_seq(part);
    if i < hi {
        utf8::is_char_boundary_iff_not_is_continuation_byte(b, i);
        utf8::is_char_boundary_iff_not_is_continuation_byte(part, i - lo);
        assert(part[i - lo] == b[i]);
    }
}

/// Two stretches that meet make one.
pub proof fn pieces_join(t: Seq<char>, a: int, b: int, c: int)
    requires
        0 <= a <= b <= c <= byte_len(t),
        is_cut(t, a),
        is_cut(t, b),
        is_cut(t, c),
    ensures
        piece(t, a, b) + piece(t, b, c) == piece(t, a, c),
{
    let bytes = utf8::encode_utf8(t);
    utf8::encode_utf8_valid_utf8(t);
    cut_of_part(bytes, a, c, b);
    let part = bytes.subrange(a, c);
    utf8::decode_utf8_split(part, b - a);
    assert(part.subrange(0, b - a) =~= bytes.subrange(a, b));
    assert(part.subrange(b - a, c - a) =~= bytes.subrange(b, c));
}

/// The stretch from the first byte to the last is the text.
pub proof fn whole_piece(t: Seq<char>)
    ensures
        piece(t, 0, byte_len(t)) == t,
        is_cut(t, 0),
        is_cut(t, byte_len(t)),
{
    let bytes = utf8::encode_utf8(t);
    utf8::encode_utf8_valid_utf8(t);
    utf8::encode_utf8_decode_utf8(t);
    utf8::is_char_boundary_start_end_of_seq(bytes);
    assert(bytes.subrange(0, bytes.len() as int) =~= bytes);
}

/// The text between two byte offsets.
pub fn slice(text: &str, span: Span) -> (r: String)
    requires
        is_span(text@, span),
    ensures
        r@ == piece(text@, span.0 as int, span.1 as int),
{
    let ghost bytes = text.spec_bytes();
    proof {
        utf8::encode_utf8_valid_utf8(text@);
        utf8::is_char_boundary_start_end_of_seq(bytes);
        cut_of_part(bytes, span.0 as int, bytes.len() as int, span.1 as int);
    }
    let (_, tail) = text.split_at(span.0);
    let (head, _) = tail.split_at(span.1 - span.0);
    proof {
        assert(head.spec_bytes() =~= bytes.subrange(span.0 as int, span.1 as int));
        utf8::encode_utf8_decode_utf8(head@);
    }
    head.to_owned()
}

/// The text of the group `g` of a match.
pub fn group_text(text: &str, m: &Groups, g: usize) -> (r: String)
    requires
        is_match(text@, m@),
    ensures
        r@ == group(text@, m@, g as int),
{
    if g < m.len() {
        if let Some(s) = m[g] {
            return slice(text, s);
        }
    }
    let out = String::new();
    assert(out@ =~= seq![]);
    out
}

// ─── rewriting ──────────────────────────────────────────────────────────

/// How a pattern that matches one dependency entry names its parts: which group
/// holds the dependency's name, and which groups stand before and behind the
/// version that a rewrite replaces.
pub struct Layout {
    pub name: usize,
    /// Is the name a scalar that may stand in quotes?
    pub quoted: bool,
    pub before: Vec<usize>,
    pub behind: Vec<usize>,
}

/// What a [`Layout`] says.
pub struct LayoutView {
    pub name: int,
    pub quoted: bool,
    pub before: Seq<int>,
    pub behind: Seq<int>,
}

impl DeepView for Layout {
    type V = LayoutView;

    open spec fn deep_view(&self) -> LayoutView {
        LayoutView {
            name: self.name as int,
            quoted: self.quoted,
            before: Seq::new(self.before@.len(), |i: int| self.before@[i] as int),
            behind: Seq::new(self.behind@.len(), |i: int| self.behind@[i] as int),
        }
    }
}

/// Does the scalar stand in a pair of quotes?
pub open spec fn in_quotes(s: Seq<char>) -> bool {
    s.len() >= 2 && s[0] == s.last() && (s[0] == '\'' || s[0] == '"')
}

/// The scalar without its surrounding quotes, if any.
pub open spec fn unquoted(s: Seq<char>) -> Seq<char> {
    if in_quotes(s) {
        s.subrange(1, s.len() - 1)
    } else {
        s
    }
}

/// The dependency that a match is an entry for.
pub open spec fn entry_name(t: Seq<char>, m: Seq<Option<Span>>, l: LayoutView) -> Seq<char> {
    if l.quoted {
        unquoted(group(t, m, l.name))
    } else {
        group(t, m, l.name)
    }
}

/// The texts of several groups, one after the other.
pub open spec fn groups_text(t: Seq<char>, m: Seq<Option<Span>>, gs: Seq<int>) -> Seq<char>
    decreases gs.len(),
{
    if gs.len() == 0 {
        seq![]
    } else {
        groups_text(t, m, gs.drop_last()) + group(t, m, gs.last())
    }
}

/// What a match becomes: an entry for `module` gets the version `target`, every
/// other one stays.
pub open spec fn replacement(
    t: Seq<char>,
    m: Seq<Option<Span>>,
    l: LayoutView,
    module: Seq<char>,
    target: Seq<char>,
) -> Seq<char> {
    if entry_name(t, m, l) == module {
        groups_text(t, m, l.before) + target + groups_text(t, m, l.behind)
    } else {
        group(t, m, 0)
    }
}

/// Where the last of the matches `ms` ends; 0 where there is none.
pub open spec fn end_of(ms: Seq<Seq<Option<Span>>>) -> int {
    if ms.len() == 0 {
        0
    } else {
        whole(ms.last()).1 as int
    }
}

/// `t` up to the end of the last match, each match replaced.
pub open spec fn rewritten_upto(
    t: Seq<char>,
    ms: Seq<Seq<Option<Span>>>,
    l: LayoutView,
    module: Seq<char>,
    target: Seq<char>,
) -> Seq<char>
    decreases ms.len(),
{
    if ms.len() == 0 {
        seq![]
    } else {
        let init = ms.drop_last();
        rewritten_upto(t, init, l, module, target) + piece(
            t,
            end_of(init),
            whole(ms.last()).0 as int,
        ) + replacement(t, ms.last(), l, module, target)
    }
}

/// `t` with each match replaced.
pub open spec fn rewritten(
    t: Seq<char>,
    ms: Seq<Seq<Option<Span>>>,
    l: LayoutView,
    module: Seq<char>,
    target: Seq<char>,
) -> Seq<char> {
    rewritten_upto(t, ms, l, module, target) + piece(t, end_of(ms), byte_len(t))
}

/// Is any of the matches an entry for `module`?
pub open spec fn any_entry(
    t: Seq<char>,
    ms: Seq<Seq<Option<Span>>>,
    l: LayoutView,
    module: Seq<char>,
) -> bool {
    exists|i: int| 0 <= i < ms.len() && entry_name(t, #[trigger] ms[i], l) == module
}

/// Rewriting for a module that has no entry leaves the text as it is.
pub proof fn no_entry_is_untouched(
    t: Seq<char>,
    ms: Seq<Seq<Option<Span>>>,
    l: LayoutView,
    module: Seq<char>,
    target: Seq<char>,
)
    requires
        are_matches(t, ms),
        !any_entry(t, ms, l, module),
    ensures
        rewritten(t, ms, l, module, target) == t,
{
    whole_piece(t);
    no_entry_upto(t, ms, l, module, target);
    if ms.len() > 0 {
        assert(is_match(t, ms[ms.len() - 1]));
        assert(is_span(t, whole(ms.last())));
    }
    pieces_join(t, 0, end_of(ms), byte_len(t));
}

proof fn no_entry_upto(
    t: Seq<char>,
    ms: Seq<Seq<Option<Span>>>,
    l: LayoutView,
    module: Seq<char>,
    target: Seq<char>,
)
    requires
        are_matches(t, ms),
        !any_entry(t, ms, l, module),
    ensures
        rewritten_upto(t, ms, l, module, target) == piece(t, 0, end_of(ms)),
    decreases ms.len(),
{
    whole_piece(t);
    if ms.len() == 0 {
        pieces_join(t, 0, 0, byte_len(t));
        assert(piece(t, 0, 0) =~= seq![]);
    } else {
        let init = ms.drop_last();
        let last = ms.last();
        assert forall|i: int| 0 <= i < init.len() implies #[trigger] init[i] == ms[i] by {}
        assert(are_matches(t, init));
        assert forall|i: int| 0 <= i < init.len() implies entry_name(t, #[trigger] init[i], l)
            != module by {
            assert(init[i] == ms[i]);
        }
        no_entry_upto(t, init, l, module, target);
        assert(is_match(t, ms[ms.len() - 1]));
        assert(is_span(t, whole(last)));
        if init.len() > 0 {
            assert(is_match(t, ms[init.len() - 1]));
            assert(is_span(t, whole(init.last())));
            assert(whole(ms[init.len() - 1]).1 <= whole(ms[ms.len() - 1]).0);
        }
        pieces_join(t, 0, end_of(init), whole(last).0 as int);
        pieces_join(t, 0, whole(last).0 as int, whole(last).1 as int);
        assert(entry_name(t, ms[ms.len() - 1], l) != module);
    }
}

/// A scalar with its surrounding quotes removed, if any.
pub fn unquote(s: &str) -> (r: String)
    ensures
        r@ == unquoted(s@),
{
    let b = crate::text::chars_of(s);
    let n: usize = b.len();
    if n >= 2 && b[0] == b[n - 1] && (b[0] == '\'' || b[0] == '"') {
        crate::text::text_of(&b, 1, n - 1)
    } else {
        s.to_owned()
    }
}

/// The dependency that a match is an entry for.
fn name_of_entry(text: &str, m: &Groups, l: &Layout) -> (r: String)
    requires
        is_match(text@, m@),
    ensures
        r@ == entry_name(text@, m@, l.deep_view()),
{
    let name = group_text(text, m, l.name);
    if l.quoted {
        unquote(name.as_str())
    } else {
        name
    }
}

/// Appends the texts of several groups.
fn append_groups(out: &mut String, text: &str, m: &Groups, gs: &Vec<usize>)
    requires
        is_match(text@, m@),
    ensures
        final(out)@ == old(out)@ + groups_text(
            text@,
            m@,
            Seq::new(gs@.len(), |i: int| gs@[i] as int),
        ),
{
    let ghost list = Seq::new(gs@.len(), |i: int| gs@[i] as int);
    let ghost start = out@;
    let mut i: usize = 0;
    assert(start + groups_text(text@, m@, list.take(0)) =~= start);
    while i < gs.len()
        invariant
            is_match(text@, m@),
            list == Seq::new(gs@.len(), |i: int| gs@[i] as int),
            i <= gs@.len(),
            out@ == start + groups_text(text@, m@, list.take(i as int)),
        decreases gs@.len() - i,
    {
        let t = group_text(text, m, gs[i]);
        out.append(t.as_str());
        assert(list.take(i + 1).drop_last() =~= list.take(i as int));
        assert(out@ =~= start + groups_text(text@, m@, list.take(i + 1)));
        i = i + 1;
    }
    assert(list.take(list.len() as int) =~= list);
}

/// Rewrites the entries for `module` among the given matches to the version
/// `target`, and says whether there was any.
pub fn rewrite(text: &str, matches: &Vec<Groups>, l: &Layout, module: &str, target: &str) -> (r: (
    String,
    bool,
))
    requires
        are_matches(text@, match_list(matches@)),
    ensures
        r.0@ == rewritten(text@, match_list(matches@), l.deep_view(), module@, target@),
        r.1 == any_entry(text@, match_list(matches@), l.deep_view(), module@),
{
    let ghost t = text@;
    let ghost ms = match_list(matches@);
    let ghost lv = l.deep_view();
    let module = module.to_owned();
    let mut out = String::new();
    let mut changed = false;
    let mut last: usize = 0;
    let mut i: usize = 0;
    proof {
        whole_piece(t);
        assert(out@ =~= seq![]);
    }
    while i < matches.len()
        invariant
            t == text@,
            ms == match_list(matches@),
            lv == l.deep_view(),
            are_matches(t, ms),
            is_cut(t, 0),
            i <= matches@.len() == ms.len(),
            last == end_of(ms.take(i as int)),
            is_cut(t, last as int),
            last <= byte_len(t),
            out@ == rewritten_upto(t, ms.take(i as int), lv, module@, target@),
            changed == exists|j: int|
                0 <= j < i && entry_name(t, #[trigger] ms[j], lv) == module@,
        decreases matches@.len() - i,
    {
        let m = &matches[i];
        assert(ms[i as int] == m@);
        assert(is_match(t, m@));
        proof {
            assert(ms.take(i + 1).drop_last() =~= ms.take(i as int));
            assert(ms.take(i + 1).last() == m@);
            if i > 0 {
                assert(ms.take(i as int).last() == ms[i - 1]);
                assert(whole(ms[i - 1]).1 <= whole(ms[i as int]).0);
            }
        }
        if let Some(w) = m[0] {
            assert(is_span(t, w));
            let gap = slice(text, (last, w.0));
            out.append(gap.as_str());
            let name = name_of_entry(text, m, l);
            if name == module {
                changed = true;
                append_groups(&mut out, text, m, &l.before);
                out.append(target);
                append_groups(&mut out, text, m, &l.behind);
                assert(entry_name(t, ms[i as int], lv) == module@);
            } else {
                let same = group_text(text, m, 0);
                out.append(same.as_str());
            }
            last = w.1;
        }
        assert(out@ =~= rewritten_upto(t, ms.take(i + 1), lv, module@, target@));
        i = i + 1;
    }
    proof {
        assert(ms.take(ms.len() as int) =~= ms);
        whole_piece(t);
    }
    let end: usize = text.as_bytes().len();
    let rest = slice(text, (last, end));
    out.append(rest.as_str());
    (out, changed)
}

// ─── the regex crate ────────────────────────────────────────────────────

/// The matches that `regex::Regex::captures_iter` finds of `pattern` in `text`;
/// `None` where `pattern` is no regular expression.
pub uninterp spec fn regex_captures(
    pattern: Seq<char>,
    text: Seq<char>,
) -> Option<Seq<Seq<Option<(usize, usize)>>>>;

/// `regex::Regex::captures_iter`, on the expression that `regex::Regex::new`
/// reads from `pattern`: the result is [`regex_captures`]. The matches come in
/// order and do not overlap, the whole match is group 0, and every offset lies
/// in the text, between two characters.
#[verifier::external_body]
pub(crate) fn captures(pattern: &str, text: &str) -> (r: Option<Vec<Groups>>)
    ensures
        r matches Some(ms) ==> regex_captures(pattern@, text@) == Some(match_list(ms@))
            && are_matches(text@, match_list(ms@)),
        r is None ==> regex_captures(pattern@, text@) is None,
{
    let re = regex::Regex::new(pattern).ok()?;
    let spans = |c: regex::Captures| c.iter().map(|g| g.map(|m| (m.start(), m.end()))).collect();
    Some(re.captures_iter(text).map(spans).collect())
}

} // verus!
