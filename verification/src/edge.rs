//! The dependency-edge model: what one repo declares it depends on, and the
//! version-constraint policy that decides whether a published upstream version
//! warrants a downstream bump.
use vstd::prelude::*;
use vstd::string::*;

use crate::text::{self, chars_of, text_of, trim};
use crate::version::{self, caret_matches, Version, VersionReq, VersionView};

verus! {

/// Which manifest kind an edge came from.
#[derive(Debug, Clone, Copy, PartialEq, Eq, Structural)]
pub enum EdgeKind {
    /// `bazel_dep(name, version)` in MODULE.bazel.
    BazelDep,
    /// A `package.json` dependency.
    Npm,
    /// A `Cargo.toml` dependency.
    Cargo,
}

/// A normalized version constraint on a dependency.
#[derive(Debug, PartialEq, Eq)]
pub enum VersionConstraint {
    /// An exact pin (bazel_dep; an npm `"1.2.3"`).
    Exact(Version),
    /// A caret range: npm `^1.2.3`, Cargo `1.2.3`.
    Caret(Version),
    /// Any other semver range (`~1.2`, `>=1, <2`).
    Range(VersionReq),
    /// A non-semver / opaque spec (`"main"`, a URL, `workspace:*`).
    Other(String),
}

/// What a [`VersionConstraint`] says.
pub enum ConstraintView {
    Exact(VersionView),
    Caret(VersionView),
    Range(Seq<char>),
    Other(Seq<char>),
}

impl DeepView for VersionConstraint {
    type V = ConstraintView;

    open spec fn deep_view(&self) -> ConstraintView {
        match self {
            VersionConstraint::Exact(v) => ConstraintView::Exact(v.deep_view()),
            VersionConstraint::Caret(v) => ConstraintView::Caret(v.deep_view()),
            VersionConstraint::Range(r) => ConstraintView::Range(r.deep_view()),
            VersionConstraint::Other(s) => ConstraintView::Other(s@),
        }
    }
}

impl Clone for VersionConstraint {
    fn clone(&self) -> (r: VersionConstraint)
        ensures
            r.deep_view() == self.deep_view(),
    {
        match self {
            VersionConstraint::Exact(v) => VersionConstraint::Exact(v.clone()),
            VersionConstraint::Caret(v) => VersionConstraint::Caret(v.clone()),
            VersionConstraint::Range(r) => VersionConstraint::Range(r.clone()),
            VersionConstraint::Other(s) => VersionConstraint::Other(s.clone()),
        }
    }
}

/// The version behind a leading `^`, white space allowed between the two.
pub open spec fn after_caret(s: Seq<char>) -> Option<VersionView> {
    if s.len() > 0 && s[0] == '^' {
        version::version_of(text::trimmed(s.skip(1)))
    } else {
        None
    }
}

/// A range where `s` is a requirement, else an opaque spec.
pub open spec fn range_or_other(s: Seq<char>) -> ConstraintView {
    match version::canonical_requirement(s) {
        Some(req) => ConstraintView::Range(req),
        None => ConstraintView::Other(s),
    }
}

/// What an npm dependency spec says.
pub open spec fn npm_constraint(spec: Seq<char>) -> ConstraintView {
    let s = text::trimmed(spec);
    match (after_caret(s), version::version_of(s)) {
        (Some(v), _) => ConstraintView::Caret(v),
        (None, Some(v)) => ConstraintView::Exact(v),
        (None, None) => range_or_other(s),
    }
}

/// What a Cargo dependency spec says: a bare version is a caret range.
pub open spec fn cargo_constraint(spec: Seq<char>) -> ConstraintView {
    let s = text::trimmed(spec);
    match (after_caret(s), version::version_of(s)) {
        (Some(v), _) => ConstraintView::Caret(v),
        (None, Some(v)) => ConstraintView::Caret(v),
        (None, None) => range_or_other(s),
    }
}

/// What a `bazel_dep` version says: an exact pin.
pub open spec fn exact_constraint(spec: Seq<char>) -> ConstraintView {
    match version::version_of(text::trimmed(spec)) {
        Some(v) => ConstraintView::Exact(v),
        None => ConstraintView::Other(text::trimmed(spec)),
    }
}

/// Reads the version behind a leading `^`.
fn parse_after_caret(s: &str) -> (r: Option<Version>)
    ensures
        r.deep_view() == after_caret(s@),
{
    let chars = chars_of(s);
    if chars.len() > 0 && chars[0] == '^' {
        let rest = text_of(&chars, 1, chars.len());
        assert(rest@ =~= s@.skip(1));
        let rest = trim(rest.as_str());
        Version::parse(rest.as_str())
    } else {
        None
    }
}

/// A range where `s` is a requirement, else an opaque spec.
fn parse_range(s: String) -> (r: VersionConstraint)
    ensures
        r.deep_view() == range_or_other(s@),
{
    match VersionReq::parse(s.as_str()) {
        Some(req) => VersionConstraint::Range(req),
        None => VersionConstraint::Other(s),
    }
}

impl ConstraintView {
    /// The version this constraint is anchored at.
    pub open spec fn anchor(self) -> Option<VersionView> {
        match self {
            ConstraintView::Exact(v) => Some(v),
            ConstraintView::Caret(v) => Some(v),
            _ => None,
        }
    }

    /// Is the version this constraint is anchored at, if any, without a build part?
    pub open spec fn no_build(self) -> bool {
        self.anchor() matches Some(v) ==> v.build.len() == 0
    }

    /// Does this constraint admit `target`?
    pub open spec fn admits(self, target: VersionView) -> bool {
        match self {
            ConstraintView::Exact(v) => v == target,
            ConstraintView::Caret(v) => version::requirement_met(seq!['^'] + v.text(), target),
            ConstraintView::Range(req) => version::requirement_met(req, target),
            ConstraintView::Other(_) => false,
        }
    }

    /// The constraint in its usual notation.
    pub open spec fn text(self) -> Seq<char> {
        match self {
            ConstraintView::Exact(v) => v.text(),
            ConstraintView::Caret(v) => seq!['^'] + v.text(),
            ConstraintView::Range(req) => req,
            ConstraintView::Other(s) => s,
        }
    }
}

impl VersionConstraint {
    /// Parse a Bazel `bazel_dep` version (always an exact pin).
    pub fn parse_exact(s: &str) -> (r: Self)
        ensures
            r.deep_view() == exact_constraint(s@),
    {
        let t = trim(s);
        match Version::parse(t.as_str()) {
            Some(v) => VersionConstraint::Exact(v),
            None => VersionConstraint::Other(t),
        }
    }

    /// Parse an npm dependency spec.
    pub fn parse_npm(spec: &str) -> (r: Self)
        ensures
            r.deep_view() == npm_constraint(spec@),
    {
        let s = trim(spec);
        if let Some(v) = parse_after_caret(s.as_str()) {
            return VersionConstraint::Caret(v);
        }
        if let Some(v) = Version::parse(s.as_str()) {
            return VersionConstraint::Exact(v);
        }
        parse_range(s)
    }

    /// Parse a Cargo dependency spec.
    pub fn parse_cargo(spec: &str) -> (r: Self)
        ensures
            r.deep_view() == cargo_constraint(spec@),
    {
        let s = trim(spec);
        if let Some(v) = parse_after_caret(s.as_str()) {
            return VersionConstraint::Caret(v);
        }
        if let Some(v) = Version::parse(s.as_str()) {
            return VersionConstraint::Caret(v);
        }
        parse_range(s)
    }

    /// The version this constraint is anchored at, if any (for ordering/compare).
    pub fn anchor(&self) -> (r: Option<&Version>)
        ensures
            r.deep_view() == self.deep_view().anchor(),
    {
        match self {
            VersionConstraint::Exact(v) => Some(v),
            VersionConstraint::Caret(v) => Some(v),
            _ => None,
        }
    }

    /// Does this constraint already admit `target` (no bump strictly needed)?
    pub fn admits(&self, target: &Version) -> (r: bool)
        ensures
            r == self.deep_view().admits(target.deep_view()),
            self.deep_view().anchor() == Some(target.deep_view()) ==> r,
            self.deep_view() matches ConstraintView::Caret(v) ==> newer(v, target.deep_view())
                && v.build.len() == 0 && target.deep_view().build.len() == 0 ==> !r,
            self.deep_view() matches ConstraintView::Caret(v) ==> v.pre.len() == 0
                && target.deep_view().pre.len() == 0 ==> r == v.caret_holds(target.deep_view()),
    {
        match self {
            VersionConstraint::Exact(v) => v.same(target),
            VersionConstraint::Caret(v) => caret_matches(v, target),
            VersionConstraint::Range(req) => req.matches(target),
            VersionConstraint::Other(_) => false,
        }
    }

    /// The constraint in its usual notation.
    pub fn to_text(&self) -> (r: String)
        ensures
            r@ == self.deep_view().text(),
    {
        match self {
            VersionConstraint::Exact(v) => v.to_text(),
            VersionConstraint::Caret(v) => {
                let mut out = String::new();
                out.push('^');
                let v = v.to_text();
                out.append(v.as_str());
                assert(out@ =~= self.deep_view().text());
                out
            },
            VersionConstraint::Range(req) => req.to_text(),
            VersionConstraint::Other(s) => s.clone(),
        }
    }
}

/// One dependency edge declared by a repo's manifest.
#[derive(Debug)]
pub struct DepEdge {
    /// The dependency's published name (`"rules_lang"` | `"@savvi-studio/ui"`).
    pub module: String,
    pub current: VersionConstraint,
    /// The manifest the edge was parsed from (`"MODULE.bazel"` | `"package.json"`).
    pub manifest_path: String,
    pub kind: EdgeKind,
}

/// What a [`DepEdge`] says.
pub struct DepEdgeView {
    pub module: Seq<char>,
    pub current: ConstraintView,
    pub manifest_path: Seq<char>,
    pub kind: EdgeKind,
}

impl DeepView for DepEdge {
    type V = DepEdgeView;

    open spec fn deep_view(&self) -> DepEdgeView {
        DepEdgeView {
            module: self.module@,
            current: self.current.deep_view(),
            manifest_path: self.manifest_path@,
            kind: self.kind,
        }
    }
}

impl Clone for DepEdge {
    fn clone(&self) -> (r: DepEdge)
        ensures
            r.deep_view() == self.deep_view(),
    {
        DepEdge {
            module: self.module.clone(),
            current: self.current.clone(),
            manifest_path: self.manifest_path.clone(),
            kind: self.kind,
        }
    }
}

/// Whether a downstream edge needs a bump for a given target version.
#[derive(Debug, PartialEq, Eq)]
pub enum BumpDecision {
    /// Open an MR bumping this edge.
    NeedsBump,
    /// The constraint already admits the target — no MR needed.
    AlreadySatisfied,
    /// The consumer pins something incompatible (e.g. a newer version).
    Conflict(String),
}

/// What a [`BumpDecision`] says.
pub enum DecisionView {
    NeedsBump,
    AlreadySatisfied,
    Conflict(Seq<char>),
}

impl DeepView for BumpDecision {
    type V = DecisionView;

    open spec fn deep_view(&self) -> DecisionView {
        match self {
            BumpDecision::NeedsBump => DecisionView::NeedsBump,
            BumpDecision::AlreadySatisfied => DecisionView::AlreadySatisfied,
            BumpDecision::Conflict(why) => DecisionView::Conflict(why@),
        }
    }
}

impl Clone for BumpDecision {
    fn clone(&self) -> (r: BumpDecision)
        ensures
            r.deep_view() == self.deep_view(),
    {
        match self {
            BumpDecision::NeedsBump => BumpDecision::NeedsBump,
            BumpDecision::AlreadySatisfied => BumpDecision::AlreadySatisfied,
            BumpDecision::Conflict(why) => BumpDecision::Conflict(why.clone()),
        }
    }
}

/// Does `a` have higher precedence than `b`?
pub open spec fn newer(a: VersionView, b: VersionView) -> bool {
    version::version_precedence(a, b) is Higher
}

/// The reason given for a pin above the target: `<what> <v> > target <target>`.
pub open spec fn conflict_text(what: Seq<char>, v: VersionView, target: VersionView) -> Seq<char> {
    what + v.text() + " > target "@ + target.text()
}

/// The decision for a constraint and a target version. A pin or a caret floor
/// above the target conflicts with it, one at the target satisfies it. A caret
/// floor below the target, or another range, is bumped unless it admits the
/// target and no bump is forced. An opaque spec is always bumped.
pub open spec fn decision(
    current: ConstraintView,
    target: VersionView,
    bump_satisfied: bool,
) -> DecisionView {
    match current {
        ConstraintView::Exact(v) => if v == target {
            DecisionView::AlreadySatisfied
        } else if newer(v, target) {
            DecisionView::Conflict(conflict_text("pinned "@, v, target))
        } else {
            DecisionView::NeedsBump
        },
        ConstraintView::Caret(v) => if v == target {
            DecisionView::AlreadySatisfied
        } else if newer(v, target) {
            DecisionView::Conflict(conflict_text("caret floor "@, v, target))
        } else if current.admits(target) && !bump_satisfied {
            DecisionView::AlreadySatisfied
        } else {
            DecisionView::NeedsBump
        },
        ConstraintView::Range(_) => if current.admits(target) && !bump_satisfied {
            DecisionView::AlreadySatisfied
        } else {
            DecisionView::NeedsBump
        },
        ConstraintView::Other(_) => DecisionView::NeedsBump,
    }
}

/// Writes the reason for a pin above the target.
fn conflict(what: &str, v: &Version, target: &Version) -> (r: BumpDecision)
    ensures
        r.deep_view() == DecisionView::Conflict(
            conflict_text(what@, v.deep_view(), target.deep_view()),
        ),
{
    let mut out = what.to_owned();
    let v = v.to_text();
    out.append(v.as_str());
    out.append(" > target ");
    let target = target.to_text();
    out.append(target.as_str());
    BumpDecision::Conflict(out)
}

/// Decide whether `current` warrants a bump to `target`. `bump_satisfied`
/// forces a bump even when a caret/range already admits the target (to advance
/// a pinned lockfile floor); a floor that is the target has nothing to advance.
pub fn decide(current: &VersionConstraint, target: &Version, bump_satisfied: bool) -> (r:
    BumpDecision)
    ensures
        r.deep_view() == decision(current.deep_view(), target.deep_view(), bump_satisfied),
        // Builds aside, an edge is left alone exactly where it admits the target,
        // and forced exactly where it could be advanced to it.
        current.deep_view().no_build() && target.deep_view().build.len() == 0 && !bump_satisfied
            ==> (r.deep_view() is AlreadySatisfied <==> current.deep_view().admits(
            target.deep_view(),
        )),
        current.deep_view().no_build() && target.deep_view().build.len() == 0 && bump_satisfied
            && (current is Caret || current is Range) && current.deep_view().admits(
            target.deep_view(),
        ) && current.deep_view().anchor() != Some(target.deep_view()) ==> r.deep_view()
            is NeedsBump,
        // A pin below the target is bumped, and one above it is in its way.
        current.deep_view() matches ConstraintView::Exact(v) ==> v.release_lt(target.deep_view())
            ==> r.deep_view() is NeedsBump,
        current.deep_view().anchor() matches Some(v) ==> target.deep_view().release_lt(v)
            ==> r.deep_view() is Conflict,
        // A stable caret floor below a stable target is bumped just where the target
        // is out of its range, or the bump is forced.
        current.deep_view() matches ConstraintView::Caret(v) ==> v.pre.len() == 0
            && target.deep_view().pre.len() == 0 && v.release_lt(target.deep_view()) ==> (
        r.deep_view() is NeedsBump <==> bump_satisfied || !v.caret_holds(target.deep_view())),
{
    let admitted = current.admits(target);
    match current {
        VersionConstraint::Exact(v) => {
            if v.same(target) {
                BumpDecision::AlreadySatisfied
            } else if v.exceeds(target) {
                conflict("pinned ", v, target)
            } else {
                BumpDecision::NeedsBump
            }
        },
        VersionConstraint::Caret(v) => {
            if v.same(target) {
                BumpDecision::AlreadySatisfied
            } else if v.exceeds(target) {
                conflict("caret floor ", v, target)
            } else if admitted && !bump_satisfied {
                BumpDecision::AlreadySatisfied
            } else {
                BumpDecision::NeedsBump
            }
        },
        VersionConstraint::Range(_) => {
            if admitted && !bump_satisfied {
                BumpDecision::AlreadySatisfied
            } else {
                BumpDecision::NeedsBump
            }
        },
        VersionConstraint::Other(_) => BumpDecision::NeedsBump,
    }
}

/// Forcing only ever turns "already satisfied" into "needs a bump": it changes
/// no other decision, never touches a pin or floor that is the target, and makes
/// no difference to a pin or an opaque spec.
pub proof fn forcing_only_adds_bumps(current: ConstraintView, target: VersionView)
    ensures
        decision(current, target, true) != decision(current, target, false) ==> {
            &&& decision(current, target, false) is AlreadySatisfied
            &&& decision(current, target, true) is NeedsBump
            &&& current.anchor() != Some(target)
        },
        current.anchor() == Some(target) ==> decision(current, target, true) is AlreadySatisfied,
        current is Exact || current is Other ==> decision(current, target, true) == decision(
            current,
            target,
            false,
        ),
{
}

/// Without forcing, an edge that needs a bump does not admit the target, and an
/// edge that is already satisfied admits it or is anchored at it.
pub proof fn unforced_bump_is_not_admitted(current: ConstraintView, target: VersionView)
    ensures
        decision(current, target, false) is NeedsBump ==> !current.admits(target),
        decision(current, target, false) is AlreadySatisfied ==> current.admits(target)
            || current.anchor() == Some(target),
{
}

/// What is decided: one anchored at the target is satisfied; an edge is in the way
/// of the target just where it is anchored above it; and any other edge is bumped,
/// unless it is a range that admits the target already and no bump is forced.
pub proof fn decisions_are(current: ConstraintView, target: VersionView, force: bool)
    ensures
        ({
            let d = decision(current, target, force);
            let anchored_above = match current {
                ConstraintView::Exact(v) => v != target && version::version_precedence(v, target)
                    is Higher,
                ConstraintView::Caret(v) => v != target && version::version_precedence(v, target)
                    is Higher,
                _ => false,
            };
            let at_target = current == ConstraintView::Exact(target) || current
                == ConstraintView::Caret(target);
            let admits = match current {
                ConstraintView::Caret(v) => version::requirement_met(seq!['^'] + v.text(), target),
                ConstraintView::Range(req) => version::requirement_met(req, target),
                _ => false,
            };
            &&& d is Conflict <==> anchored_above
            &&& d is AlreadySatisfied <==> at_target || !anchored_above && admits && !force
            &&& d is NeedsBump <==> !at_target && !anchored_above && !(admits && !force)
        }),
{
}

/// A conflict says what stands in the way, and of what: the version that the edge
/// is anchored at, then the target.
pub proof fn conflicts_name_both_versions(current: ConstraintView, target: VersionView, force: bool)
    ensures
        decision(current, target, force) matches DecisionView::Conflict(why) ==> (
        current.anchor() matches Some(v) && why == (if current is Exact {
            "pinned "@
        } else {
            "caret floor "@
        }) + v.text() + " > target "@ + target.text()),
{
}

/// What a dependency's text says: a bare version is a pin for npm and Bazel and a
/// caret floor for Cargo; a version behind a caret is a caret floor for npm and
/// Cargo; anything else is a range if it is a requirement, and opaque if not.
pub proof fn specs_are_read(spec: Seq<char>)
    ensures
        ({
            let s = text::trimmed(spec);
            let caret = if s.len() > 0 && s[0] == '^' {
                version::version_of(text::trimmed(s.subrange(1, s.len() as int)))
            } else {
                None
            };
            let bare = version::version_of(s);
            let req = version::canonical_requirement(s);
            &&& caret matches Some(v) ==> npm_constraint(spec) == ConstraintView::Caret(v)
                && cargo_constraint(spec) == ConstraintView::Caret(v)
            &&& caret is None && bare is Some ==> npm_constraint(spec) == ConstraintView::Exact(
                bare->0,
            ) && cargo_constraint(spec) == ConstraintView::Caret(bare->0)
            &&& caret is None && bare is None && req is Some ==> npm_constraint(spec)
                == ConstraintView::Range(req->0) && cargo_constraint(spec) == ConstraintView::Range(
                req->0,
            )
            &&& caret is None && bare is None && req is None ==> npm_constraint(spec)
                == ConstraintView::Other(s) && cargo_constraint(spec) == ConstraintView::Other(s)
            &&& exact_constraint(spec) == (match bare {
                Some(v) => ConstraintView::Exact(v),
                None => ConstraintView::Other(s),
            })
        }),
{
    let s = text::trimmed(spec);
    if s.len() > 0 {
        assert(s.skip(1) =~= s.subrange(1, s.len() as int));
    }
}

/// A version that is read is well-formed and is written as it stood; and a text
/// that is the notation of a well-formed version is read as one of that notation.
pub proof fn versions_are_read(text: Seq<char>, w: VersionView)
    ensures
        version::version_of(text) matches Some(v) ==> v.valid() && v.text() == text,
        w.valid() ==> (version::version_of(w.text()) matches Some(v) && v.text() == w.text()),
{
    if exists|v: VersionView| v.valid() && #[trigger] v.text() == text {
        let v = choose|v: VersionView| v.valid() && #[trigger] v.text() == text;
        assert(v.valid() && v.text() == text);
    }
    if w.valid() {
        let t = w.text();
        assert(exists|v: VersionView| v.valid() && #[trigger] v.text() == t);
        let v = choose|v: VersionView| v.valid() && #[trigger] v.text() == t;
        assert(v.valid() && v.text() == t);
    }
}

/// A constraint is written as it is declared: a pin as its version, a caret range with
/// the caret in front of its floor, and anything else as it stands.
pub proof fn constraints_are_written(v: VersionView, s: Seq<char>)
    ensures
        ConstraintView::Exact(v).text() == v.text(),
        ConstraintView::Caret(v).text() == "^"@ + v.text(),
        ConstraintView::Range(s).text() == s,
        ConstraintView::Other(s).text() == s,
        ConstraintView::Exact(v).anchor() == Some(v),
        ConstraintView::Caret(v).anchor() == Some(v),
        ConstraintView::Range(s).anchor() is None,
        ConstraintView::Other(s).anchor() is None,
{
    reveal_strlit("^");
    assert("^"@ =~= seq!['^']);
}

} // verus!
