//! Semantic versions and version requirements.
//!
//! A [`Version`] holds the five parts of a semantic version as plain values; a
//! [`VersionReq`] holds a requirement in its canonical notation. Parsing,
//! precedence and matching are the `semver` crate's.
use vstd::prelude::*;
use vstd::string::*;

use crate::text::{self, decimal_of};

verus! {

/// The parts of a semantic version.
pub struct VersionView {
    pub major: u64,
    pub minor: u64,
    pub patch: u64,
    pub pre: Seq<char>,
    pub build: Seq<char>,
}

/// A decimal digit.
pub open spec fn is_digit(c: char) -> bool {
    '0' <= c <= '9'
}

/// A character that may stand in a dotted identifier.
pub open spec fn is_ident_char(c: char) -> bool {
    is_digit(c) || 'a' <= c <= 'z' || 'A' <= c <= 'Z' || c == '-'
}

/// One or more non-empty identifiers with a dot between them.
pub open spec fn is_dotted(s: Seq<char>) -> bool {
    &&& s.len() > 0
    &&& forall|i: int| 0 <= i < s.len() ==> is_ident_char(#[trigger] s[i]) || s[i] == '.'
    &&& s[0] != '.'
    &&& s.last() != '.'
    &&& forall|i: int| 0 < i < s.len() && #[trigger] s[i] == '.' ==> s[i - 1] != '.'
}

/// Is `s[i..j]` one whole identifier of the dotted list `s`?
pub open spec fn is_segment(s: Seq<char>, i: int, j: int) -> bool {
    &&& 0 <= i < j <= s.len()
    &&& i == 0 || s[i - 1] == '.'
    &&& j == s.len() || s[j] == '.'
    &&& forall|k: int| i <= k < j ==> #[trigger] s[k] != '.'
}

/// No identifier is a number with a superfluous leading zero.
pub open spec fn no_leading_zeros(s: Seq<char>) -> bool {
    forall|i: int, j: int|
        #[trigger] is_segment(s, i, j) && j - i > 1 && s[i] == '0' ==> exists|k: int|
            i < k < j && !is_digit(#[trigger] s[k])
}

impl VersionView {
    /// The release `major.minor.patch`.
    pub open spec fn release(major: u64, minor: u64, patch: u64) -> VersionView {
        VersionView { major, minor, patch, pre: seq![], build: seq![] }
    }

    /// Are the pre-release and build parts well-formed?
    pub open spec fn valid(self) -> bool {
        &&& self.pre.len() == 0 || is_dotted(self.pre) && no_leading_zeros(self.pre)
        &&& self.build.len() == 0 || is_dotted(self.build)
    }

    /// `major.minor.patch`, then `-pre` and `+build` where there are any.
    pub open spec fn text(self) -> Seq<char> {
        text::decimal(self.major as nat) + seq!['.'] + text::decimal(self.minor as nat) + seq!['.'] + text::decimal(
            self.patch as nat,
        ) + (if self.pre.len() == 0 {
            seq![]
        } else {
            seq!['-'] + self.pre
        }) + (if self.build.len() == 0 {
            seq![]
        } else {
            seq!['+'] + self.build
        })
    }

    /// Is `(major, minor, patch)` smaller than that of `other`?
    pub open spec fn release_lt(self, other: VersionView) -> bool {
        ||| self.major < other.major
        ||| self.major == other.major && self.minor < other.minor
        ||| self.major == other.major && self.minor == other.minor && self.patch < other.patch
    }

    /// Is `(major, minor, patch)` that of `other`?
    pub open spec fn release_eq(self, other: VersionView) -> bool {
        self.major == other.major && self.minor == other.minor && self.patch == other.patch
    }

    /// Does the caret range that starts at this release hold the release `v`?
    /// The leftmost non-zero part may not change.
    pub open spec fn caret_holds(self, v: VersionView) -> bool {
        &&& v.major == self.major
        &&& self.major == 0 ==> v.minor == self.minor
        &&& self.major == 0 && self.minor == 0 ==> v.patch == self.patch
        &&& !v.release_lt(self)
    }
}

/// The version that `text` is the strict notation of, if any.
pub open spec fn version_of(text: Seq<char>) -> Option<VersionView> {
    if exists|w: VersionView| w.valid() && #[trigger] w.text() == text {
        Some(choose|w: VersionView| w.valid() && #[trigger] w.text() == text)
    } else {
        None
    }
}

/// How one version stands to another in precedence.
#[derive(Debug, Clone, Copy, PartialEq, Eq, Structural)]
pub enum Precedence {
    Lower,
    Same,
    Higher,
}

impl Precedence {
    /// The same relation seen from the other version.
    pub open spec fn reversed(self) -> Precedence {
        match self {
            Precedence::Lower => Precedence::Higher,
            Precedence::Same => Precedence::Same,
            Precedence::Higher => Precedence::Lower,
        }
    }
}

/// A semantic version.
#[derive(Debug, PartialEq, Eq)]
pub struct Version {
    major: u64,
    minor: u64,
    patch: u64,
    pre: String,
    build: String,
}

impl DeepView for Version {
    type V = VersionView;

    closed spec fn deep_view(&self) -> VersionView {
        VersionView {
            major: self.major,
            minor: self.minor,
            patch: self.patch,
            pre: self.pre@,
            build: self.build@,
        }
    }
}

impl Clone for Version {
    fn clone(&self) -> (r: Version)
        ensures
            r.deep_view() == self.deep_view(),
    {
        proof {
            use_type_invariant(self);
        }
        Version {
            major: self.major,
            minor: self.minor,
            patch: self.patch,
            pre: self.pre.clone(),
            build: self.build.clone(),
        }
    }
}

impl Version {
    #[verifier::type_invariant]
    spec fn well_formed(&self) -> bool {
        self.deep_view().valid()
    }

    /// The release `major.minor.patch`.
    pub fn new(major: u64, minor: u64, patch: u64) -> (r: Version)
        ensures
            r.deep_view() == VersionView::release(major, minor, patch),
    {
        let v = Version { major, minor, patch, pre: String::new(), build: String::new() };
        assert(v.deep_view().pre =~= seq![]);
        v
    }

    /// Reads a version in its strict notation; `None` where `text` is not one.
    pub fn parse(text: &str) -> (r: Option<Version>)
        ensures
            r.deep_view() == version_of(text@),
            r matches Some(v) ==> v.deep_view().valid() && v.deep_view().text() == text@,
            forall|w: VersionView|
                w.valid() && #[trigger] w.text() == text@ ==> r.deep_view() == Some(w),
    {
        parse_version(text)
    }

    /// Is this a stable version, one without a pre-release part?
    pub fn is_stable(&self) -> (r: bool)
        ensures
            r == (self.deep_view().pre.len() == 0),
    {
        self.pre.is_empty()
    }

    /// Is this the very same version as `other`, build part included?
    pub fn same(&self, other: &Version) -> (r: bool)
        ensures
            r == (self.deep_view() == other.deep_view()),
    {
        self.major == other.major && self.minor == other.minor && self.patch == other.patch
            && self.pre == other.pre && self.build == other.build
    }

    /// Does this version have higher precedence than `other`?
    pub fn exceeds(&self, other: &Version) -> (r: bool)
        ensures
            r == (version_precedence(self.deep_view(), other.deep_view()) is Higher),
            r ==> self.deep_view() != other.deep_view(),
            other.deep_view().release_lt(self.deep_view()) ==> r,
            self.deep_view().release_lt(other.deep_view()) ==> !r,
            self.deep_view() == other.deep_view() ==> version_precedence(
                self.deep_view(),
                other.deep_view(),
            ) is Same,
            version_precedence(other.deep_view(), self.deep_view()) == version_precedence(
                self.deep_view(),
                other.deep_view(),
            ).reversed(),
            forall|c: VersionView|
                c.valid() && r && #[trigger] version_precedence(other.deep_view(), c) !is Lower
                    ==> version_precedence(self.deep_view(), c) !is Lower,
    {
        match precedence(self, other) {
            Precedence::Higher => true,
            _ => false,
        }
    }

    /// The version in its strict notation.
    pub fn to_text(&self) -> (r: String)
        ensures
            r@ == self.deep_view().text(),
    {
        let mut out = decimal_of(self.major);
        out.push('.');
        let minor = decimal_of(self.minor);
        out.append(minor.as_str());
        out.push('.');
        let patch = decimal_of(self.patch);
        out.append(patch.as_str());
        if !self.pre.is_empty() {
            out.push('-');
            out.append(self.pre.as_str());
        }
        if !self.build.is_empty() {
            out.push('+');
            out.append(self.build.as_str());
        }
        assert(out@ =~= self.deep_view().text());
        out
    }
}

/// A version requirement, in its canonical notation.
#[derive(Debug, PartialEq, Eq)]
pub struct VersionReq {
    text: String,
}

impl DeepView for VersionReq {
    type V = Seq<char>;

    closed spec fn deep_view(&self) -> Seq<char> {
        self.text@
    }
}

impl Clone for VersionReq {
    fn clone(&self) -> (r: VersionReq)
        ensures
            r.deep_view() == self.deep_view(),
    {
        VersionReq { text: self.text.clone() }
    }
}

impl VersionReq {
    /// Reads a requirement; `None` where `text` is not one.
    pub fn parse(text: &str) -> (r: Option<VersionReq>)
        ensures
            r.deep_view() == canonical_requirement(text@),
    {
        match requirement_text(text) {
            Some(t) => Some(VersionReq { text: t }),
            None => None,
        }
    }

    /// Does `version` meet this requirement?
    pub fn matches(&self, version: &Version) -> (r: bool)
        ensures
            r == requirement_met(self.deep_view(), version.deep_view()),
    {
        meets(self.text.as_str(), version)
    }

    /// The requirement in its canonical notation.
    pub fn to_text(&self) -> (r: String)
        ensures
            r@ == self.deep_view(),
    {
        self.text.clone()
    }
}

/// Is `version` in the caret range that starts at `floor`?
pub fn caret_matches(floor: &Version, version: &Version) -> (r: bool)
    ensures
        r == requirement_met(seq!['^'] + floor.deep_view().text(), version.deep_view()),
        floor.deep_view() == version.deep_view() ==> r,
        floor.deep_view().pre.len() == 0 && version.deep_view().pre.len() == 0 ==> r
            == floor.deep_view().caret_holds(version.deep_view()),
        floor.deep_view().build.len() == 0 && version.deep_view().build.len() == 0
            && version_precedence(floor.deep_view(), version.deep_view()) is Higher ==> !r,
{
    proof {
        use_type_invariant(floor);
    }
    let mut req = String::new();
    req.push('^');
    let rest = floor.to_text();
    req.append(rest.as_str());
    assert(req@ =~= seq!['^'] + floor.deep_view().text());
    meets(req.as_str(), version)
}

// ─── the semver crate ───────────────────────────────────────────────────

/// How `semver::Version`'s order ranks the first version against the second.
pub uninterp spec fn version_precedence(a: VersionView, b: VersionView) -> Precedence;

/// The canonical notation of the requirement that `semver::VersionReq::parse`
/// reads from `text`; `None` where it reads none.
pub uninterp spec fn canonical_requirement(text: Seq<char>) -> Option<Seq<char>>;

/// Whether `semver::VersionReq::matches` holds of the requirement written
/// `req` and of `version`; false where `req` is not a requirement.
pub uninterp spec fn requirement_met(req: Seq<char>, version: VersionView) -> bool;

/// `semver::Version::parse`: it accepts exactly the strict notation of the
/// well-formed versions, and reads from it the version so written.
#[verifier::external_body]
fn parse_version(text: &str) -> (r: Option<Version>)
    ensures
        r matches Some(v) ==> v.deep_view().valid() && v.deep_view().text() == text@,
        forall|w: VersionView|
            w.valid() && #[trigger] w.text() == text@ ==> r.deep_view() == Some(w),
{
    semver::Version::parse(text).ok().map(
        |v| Version {
            major: v.major,
            minor: v.minor,
            patch: v.patch,
            pre: v.pre.as_str().to_string(),
            build: v.build.as_str().to_string(),
        },
    )
}

/// `semver::Version`'s `cmp`: the result is [`version_precedence`]. Equal
/// versions, and only those, rank the same; the order is antisymmetric and
/// transitive; the major, minor and patch numbers decide first; a pre-release
/// ranks below its release. Which of two pre-releases or two builds of one
/// release ranks higher is left unsaid. A `Version` is well-formed, so both
/// identifiers convert.
#[verifier::external_body]
fn precedence(a: &Version, b: &Version) -> (r: Precedence)
    ensures
        r == version_precedence(a.deep_view(), b.deep_view()),
        r is Same <==> a.deep_view() == b.deep_view(),
        version_precedence(b.deep_view(), a.deep_view()) == r.reversed(),
        a.deep_view().release_lt(b.deep_view()) ==> r is Lower,
        b.deep_view().release_lt(a.deep_view()) ==> r is Higher,
        a.deep_view().release_eq(b.deep_view()) && a.deep_view().pre.len() > 0
            && b.deep_view().pre.len() == 0 ==> r is Lower,
        forall|c: VersionView|
            c.valid() && r !is Lower && #[trigger] version_precedence(b.deep_view(), c) !is Lower
                ==> version_precedence(a.deep_view(), c) !is Lower,
{
    let semver_of = |v: &Version| semver::Version {
        major: v.major,
        minor: v.minor,
        patch: v.patch,
        pre: semver::Prerelease::new(&v.pre).expect("a well-formed pre-release"),
        build: semver::BuildMetadata::new(&v.build).expect("well-formed build metadata"),
    };
    match semver_of(a).cmp(&semver_of(b)) {
        std::cmp::Ordering::Less => Precedence::Lower,
        std::cmp::Ordering::Equal => Precedence::Same,
        std::cmp::Ordering::Greater => Precedence::Higher,
    }
}

/// `semver::VersionReq::parse`, then its notation: the result is
/// [`canonical_requirement`].
#[verifier::external_body]
fn requirement_text(text: &str) -> (r: Option<String>)
    ensures
        r.deep_view() == canonical_requirement(text@),
{
    semver::VersionReq::parse(text).ok().map(|req| req.to_string())
}

/// `semver::VersionReq::matches`, on the requirement written `req`: the result
/// is [`requirement_met`]. A caret on a full version holds that version, between
/// two stable versions it is [`VersionView::caret_holds`], and builds aside it
/// holds no version below its floor. A `Version` is well-formed, so both
/// identifiers convert.
#[verifier::external_body]
fn meets(req: &str, version: &Version) -> (r: bool)
    ensures
        r == requirement_met(req@, version.deep_view()),
        req@ == seq!['^'] + version.deep_view().text() ==> r,
        forall|floor: VersionView|
            floor.valid() && floor.pre.len() == 0 && version.deep_view().pre.len() == 0 && req@
                == seq!['^'] + #[trigger] floor.text() ==> r == floor.caret_holds(
                version.deep_view(),
            ),
        forall|floor: VersionView|
            floor.valid() && floor.build.len() == 0 && version.deep_view().build.len() == 0 && req@
                == seq!['^'] + #[trigger] floor.text() && version_precedence(
                floor,
                version.deep_view(),
            ) is Higher ==> !r,
{
    let version = semver::Version {
        major: version.major,
        minor: version.minor,
        patch: version.patch,
        pre: semver::Prerelease::new(&version.pre).expect("a well-formed pre-release"),
        build: semver::BuildMetadata::new(&version.build).expect("well-formed build metadata"),
    };
    semver::VersionReq::parse(req).map(|r| r.matches(&version)).unwrap_or(false)
}

} // verus!
