//! The forge vocabulary the engine speaks: which repo, which change, and what
//! a forge reports of a change and its pipeline. The calls themselves are made
//! outside the library.
use vstd::prelude::*;
use vstd::string::*;

verus! {

/// Which forge a repo is hosted on.
#[derive(Debug, Clone, Copy, PartialEq, Eq, Structural)]
pub enum ForgeKind {
    Unspecified,
    Github,
    Gitlab,
}

impl ForgeKind {
    /// The kind's wire number.
    pub open spec fn number(self) -> i32 {
        match self {
            ForgeKind::Unspecified => 0,
            ForgeKind::Github => 1,
            ForgeKind::Gitlab => 2,
        }
    }

    /// The kind with the wire number `n`; a number that is none counts as
    /// unspecified.
    pub open spec fn of_number(n: i32) -> ForgeKind {
        if n == 1 {
            ForgeKind::Github
        } else if n == 2 {
            ForgeKind::Gitlab
        } else {
            ForgeKind::Unspecified
        }
    }

    /// The kind with the wire number `n`; a number that is none counts as
    /// unspecified.
    pub fn from_number(n: i32) -> (r: ForgeKind)
        ensures
            r == Self::of_number(n),
    {
        match n {
            1 => ForgeKind::Github,
            2 => ForgeKind::Gitlab,
            _ => ForgeKind::Unspecified,
        }
    }

    /// The kind's wire number.
    pub fn to_number(self) -> (r: i32)
        ensures
            r == self.number(),
    {
        match self {
            ForgeKind::Unspecified => 0,
            ForgeKind::Github => 1,
            ForgeKind::Gitlab => 2,
        }
    }
}

/// A repo on a forge.
#[derive(Debug, PartialEq, Eq)]
pub struct RepoRef {
    /// The [`ForgeKind`]'s wire number.
    pub forge: i32,
    pub host: String,
    pub owner: String,
    pub name: String,
}

/// What a [`RepoRef`] says.
pub struct RepoRefView {
    pub forge: i32,
    pub host: Seq<char>,
    pub owner: Seq<char>,
    pub name: Seq<char>,
}

impl DeepView for RepoRef {
    type V = RepoRefView;

    open spec fn deep_view(&self) -> RepoRefView {
        RepoRefView { forge: self.forge, host: self.host@, owner: self.owner@, name: self.name@ }
    }
}

impl Clone for RepoRef {
    fn clone(&self) -> (r: RepoRef)
        ensures
            r.deep_view() == self.deep_view(),
    {
        RepoRef {
            forge: self.forge,
            host: self.host.clone(),
            owner: self.owner.clone(),
            name: self.name.clone(),
        }
    }
}

impl RepoRefView {
    /// `owner/name`; the name alone where there is no owner.
    pub open spec fn slug(self) -> Seq<char> {
        if self.owner.len() == 0 {
            self.name
        } else {
            self.owner + seq!['/'] + self.name
        }
    }

    /// `host|owner/name`.
    pub open spec fn key(self) -> Seq<char> {
        self.host + seq!['|'] + self.owner + seq!['/'] + self.name
    }
}

/// `owner/name`: a repo as a forge's pages show it (owner may be a nested group
/// path).
pub fn repo_slug(r: &RepoRef) -> (s: String)
    ensures
        s@ == r.deep_view().slug(),
{
    if r.owner.is_empty() {
        r.name.clone()
    } else {
        let mut out = r.owner.clone();
        out.push('/');
        out.append(r.name.as_str());
        assert(out@ =~= r.deep_view().slug());
        out
    }
}

/// A change (merge request / pull request) on a repo.
#[derive(Debug, PartialEq, Eq)]
pub struct ChangeRef {
    pub number: u64,
    pub url: String,
    pub branch: String,
}

/// What a [`ChangeRef`] says.
pub struct ChangeRefView {
    pub number: u64,
    pub url: Seq<char>,
    pub branch: Seq<char>,
}

impl DeepView for ChangeRef {
    type V = ChangeRefView;

    open spec fn deep_view(&self) -> ChangeRefView {
        ChangeRefView { number: self.number, url: self.url@, branch: self.branch@ }
    }
}

impl Clone for ChangeRef {
    fn clone(&self) -> (r: ChangeRef)
        ensures
            r.deep_view() == self.deep_view(),
    {
        ChangeRef { number: self.number, url: self.url.clone(), branch: self.branch.clone() }
    }
}

/// Where a change stands.
#[derive(Debug, Clone, Copy, PartialEq, Eq, Structural)]
pub enum ChangeState {
    Unspecified,
    Open,
    Merged,
    Closed,
}

/// Where a change's pipeline stands.
#[derive(Debug, Clone, Copy, PartialEq, Eq, Structural)]
pub enum CiStatus {
    Unspecified,
    Pending,
    Running,
    Success,
    Failed,
    Canceled,
}

/// A file on a branch.
#[derive(Debug, PartialEq, Eq)]
pub struct FileBlob {
    pub content: String,
    pub blob_sha: String,
}

/// What a [`FileBlob`] says.
pub struct FileBlobView {
    pub content: Seq<char>,
    pub blob_sha: Seq<char>,
}

impl DeepView for FileBlob {
    type V = FileBlobView;

    open spec fn deep_view(&self) -> FileBlobView {
        FileBlobView {
            content: self.content@,
            blob_sha: self.blob_sha@,
        }
    }
}

impl Clone for FileBlob {
    fn clone(&self) -> (r: FileBlob)
        ensures
            r.deep_view() == self.deep_view(),
    {
        FileBlob {
            content: self.content.clone(),
            blob_sha: self.blob_sha.clone(),
        }
    }
}

/// Where a change's pipeline stands, and its page.
#[derive(Debug, PartialEq, Eq)]
pub struct PipelineStatus {
    pub status: CiStatus,
    pub url: String,
}

/// What a [`PipelineStatus`] says.
pub struct PipelineStatusView {
    pub status: CiStatus,
    pub url: Seq<char>,
}

impl DeepView for PipelineStatus {
    type V = PipelineStatusView;

    open spec fn deep_view(&self) -> PipelineStatusView {
        PipelineStatusView {
            status: self.status,
            url: self.url@,
        }
    }
}

impl Clone for PipelineStatus {
    fn clone(&self) -> (r: PipelineStatus)
        ensures
            r.deep_view() == self.deep_view(),
    {
        PipelineStatus {
            status: self.status,
            url: self.url.clone(),
        }
    }
}

/// A change that was opened, or was open already.
#[derive(Debug, PartialEq, Eq)]
pub struct OpenedChange {
    pub change: ChangeRef,
    pub already_existed: bool,
}

/// What a [`OpenedChange`] says.
pub struct OpenedChangeView {
    pub change: ChangeRefView,
    pub already_existed: bool,
}

impl DeepView for OpenedChange {
    type V = OpenedChangeView;

    open spec fn deep_view(&self) -> OpenedChangeView {
        OpenedChangeView {
            change: self.change.deep_view(),
            already_existed: self.already_existed,
        }
    }
}

impl Clone for OpenedChange {
    fn clone(&self) -> (r: OpenedChange)
        ensures
            r.deep_view() == self.deep_view(),
    {
        OpenedChange {
            change: self.change.clone(),
            already_existed: self.already_existed,
        }
    }
}

/// A key tells repos apart by all of host, owner and name: two repos whose hosts have
/// no `|` and whose names have no `/` share a key only where they agree in each.
pub proof fn keys_tell_repos_apart(a: RepoRefView, b: RepoRefView)
    requires
        !a.host.contains('|'),
        !b.host.contains('|'),
        !a.name.contains('/'),
        !b.name.contains('/'),
        a.key() == b.key(),
    ensures
        a.host == b.host,
        a.owner == b.owner,
        a.name == b.name,
{
    let k = a.key();
    let m: int = a.host.len() as int;
    let n: int = b.host.len() as int;
    assert(k[m] == '|' && k[n] == '|') by {
        assert(a.key()[m] == '|');
        assert(b.key()[n] == '|');
    }
    if m < n {
        assert(b.host[m] == b.key()[m]);
        assert(b.host.contains(b.host[m]));
    }
    if n < m {
        assert(a.host[n] == a.key()[n]);
        assert(a.host.contains(a.host[n]));
    }
    assert(a.host =~= k.subrange(0, m));
    assert(b.host =~= k.subrange(0, m));
    let x: int = k.len() - a.name.len();
    let y: int = k.len() - b.name.len();
    assert(a.key()[x - 1] == '/');
    assert(b.key()[y - 1] == '/');
    if x < y {
        let i = y - 1 - x;
        assert(a.name[i] == a.key()[x + i]);
        assert(a.name.contains(a.name[i]));
    }
    if y < x {
        let i = x - 1 - y;
        assert(b.name[i] == b.key()[y + i]);
        assert(b.name.contains(b.name[i]));
    }
    assert(a.name =~= k.subrange(x, k.len() as int));
    assert(b.name =~= k.subrange(x, k.len() as int));
    assert(a.owner =~= k.subrange(m + 1, x - 1));
    assert(b.owner =~= k.subrange(m + 1, x - 1));
}

/// A slug is the owner and the name with a slash between them; the name alone where
/// there is no owner.
pub proof fn slug_is_owner_and_name(r: RepoRefView)
    ensures
        r.owner.len() > 0 ==> r.slug() == r.owner + "/"@ + r.name,
        r.owner.len() == 0 ==> r.slug() == r.name,
        r.key() == r.host + "|"@ + r.owner + "/"@ + r.name,
{
    reveal_strlit("/");
    reveal_strlit("|");
    assert("/"@ =~= seq!['/']);
    assert("|"@ =~= seq!['|']);
}

/// The wire numbers of the forges.
pub proof fn forge_numbers_read_back(k: ForgeKind)
    ensures
        ForgeKind::of_number(k.number()) == k,
        ForgeKind::Unspecified.number() == 0,
{
}

} // verus!
