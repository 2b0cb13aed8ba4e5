//! JSON and TOML documents, read one level at a time. The members of a JSON
//! object come with their values as JSON text, to be read in turn; the members of
//! a TOML table are asked for by the keys that lead to it. Parsing is the
//! `serde_json` and `toml` crates'.
use vstd::prelude::*;
use vstd::string::*;

verus! {

/// The outermost level of a JSON document.
#[derive(Debug)]
pub enum Level {
    Text(String),
    /// The members of an object, each value as JSON text.
    Table(Vec<(String, String)>),
    /// A number, a boolean, an array or a null.
    Other,
}

/// What a [`Level`] says.
pub enum LevelView {
    Text(Seq<char>),
    Table(Seq<(Seq<char>, Seq<char>)>),
    Other,
}

impl DeepView for Level {
    type V = LevelView;

    open spec fn deep_view(&self) -> LevelView {
        match self {
            Level::Text(s) => LevelView::Text(s@),
            Level::Table(m) => LevelView::Table(m.deep_view()),
            Level::Other => LevelView::Other,
        }
    }
}

/// The value of a member of a TOML table.
#[derive(Debug)]
pub enum Member {
    Text(String),
    Flag(bool),
    Table,
    /// A number, an array or a date.
    Other,
}

/// What a [`Member`] says.
pub enum MemberView {
    Text(Seq<char>),
    Flag(bool),
    Table,
    Other,
}

impl DeepView for Member {
    type V = MemberView;

    open spec fn deep_view(&self) -> MemberView {
        match self {
            Member::Text(s) => MemberView::Text(s@),
            Member::Flag(b) => MemberView::Flag(*b),
            Member::Table => MemberView::Table,
            Member::Other => MemberView::Other,
        }
    }
}

/// The value of the first member with the key `k`.
pub open spec fn lookup<V>(m: Seq<(Seq<char>, V)>, k: Seq<char>) -> Option<V>
    decreases m.len(),
{
    if m.len() == 0 {
        None
    } else if m[0].0 == k {
        Some(m[0].1)
    } else {
        lookup(m.skip(1), k)
    }
}

/// The text that the JSON document `json` is, if it is one.
pub open spec fn text_in(json: Seq<char>) -> Option<Seq<char>> {
    match json_level(json) {
        Some(LevelView::Text(s)) => Some(s),
        _ => None,
    }
}

/// The members of the object that the JSON document `json` is, if it is one.
pub open spec fn members_in(json: Seq<char>) -> Option<Seq<(Seq<char>, Seq<char>)>> {
    match json_level(json) {
        Some(LevelView::Table(m)) => Some(m),
        _ => None,
    }
}

/// The text that the member `k` is, if there is one and it is a text.
pub open spec fn text_member(m: Seq<(Seq<char>, Seq<char>)>, k: Seq<char>) -> Option<Seq<char>> {
    match lookup(m, k) {
        Some(json) => text_in(json),
        None => None,
    }
}

/// The members of the object that the member `k` is, if it is one.
pub open spec fn table_member(m: Seq<(Seq<char>, Seq<char>)>, k: Seq<char>) -> Option<
    Seq<(Seq<char>, Seq<char>)>,
> {
    match lookup(m, k) {
        Some(json) => members_in(json),
        None => None,
    }
}

/// The value of the first member with the key `k`.
pub fn find_member<'a, T: DeepView>(m: &'a Vec<(String, T)>, k: &str) -> (r: Option<&'a T>)
    ensures
        r.deep_view() == lookup(m.deep_view(), k@),
{
    let ghost mv = m.deep_view();
    let key = k.to_owned();
    let mut i: usize = 0;
    assert(mv.skip(0) =~= mv);
    while i < m.len()
        invariant
            mv == m.deep_view(),
            key@ == k@,
            i <= m@.len() == mv.len(),
            lookup(mv, k@) == lookup(mv.skip(i as int), k@),
        decreases m@.len() - i,
    {
        assert(mv.skip(i as int)[0] == m@[i as int].deep_view());
        if m[i].0 == key {
            return Some(&m[i].1);
        }
        assert(mv.skip(i as int).skip(1) =~= mv.skip(i + 1));
        i = i + 1;
    }
    None
}

/// The text that the JSON document is, if it is one.
pub fn read_text(json: &str) -> (r: Option<String>)
    ensures
        r.deep_view() == text_in(json@),
{
    match read_level(json) {
        Some(Level::Text(s)) => Some(s),
        _ => None,
    }
}

/// The members of the object that the JSON document is, if it is one.
pub fn read_members(json: &str) -> (r: Option<Vec<(String, String)>>)
    ensures
        r.deep_view() == members_in(json@),
{
    match read_level(json) {
        Some(Level::Table(m)) => Some(m),
        _ => None,
    }
}

/// The text that the member `k` is, if there is one and it is a text.
pub fn read_text_member(m: &Vec<(String, String)>, k: &str) -> (r: Option<String>)
    ensures
        r.deep_view() == text_member(m.deep_view(), k@),
{
    match find_member(m, k) {
        Some(json) => read_text(json.as_str()),
        None => None,
    }
}

/// The members of the object that the member `k` is, if it is one.
pub fn read_table_member(m: &Vec<(String, String)>, k: &str) -> (r: Option<Vec<(String, String)>>)
    ensures
        r.deep_view() == table_member(m.deep_view(), k@),
{
    match find_member(m, k) {
        Some(json) => read_members(json.as_str()),
        None => None,
    }
}

// ─── the serde_json and toml crates ─────────────────────────────────────

/// The outermost level of the document that `serde_json::from_str` reads from
/// `json`; `None` where it reads none.
pub uninterp spec fn json_level(json: Seq<char>) -> Option<LevelView>;

/// The members of the table that the keys `path` lead to, one after the other,
/// from the root of the document that `toml::from_str` reads from `text`; `None`
/// where it reads none, and where they do not lead to a table.
pub uninterp spec fn toml_members(text: Seq<char>, path: Seq<Seq<char>>) -> Option<
    Seq<(Seq<char>, MemberView)>,
>;

/// `serde_json::from_str`: the result is [`json_level`]. A member's value is
/// given as the JSON text that `serde_json::Value` displays.
#[verifier::external_body]
pub(crate) fn read_level(json: &str) -> (r: Option<Level>)
    ensures
        r.deep_view() == json_level(json@),
{
    serde_json::from_str(json).ok().map(
        |v| match v {
            serde_json::Value::String(s) => Level::Text(s),
            serde_json::Value::Object(m) => Level::Table(
                m.into_iter().map(|(k, v)| (k, v.to_string())).collect(),
            ),
            _ => Level::Other,
        },
    )
}

/// `toml::from_str`, then `toml::Value::get` for each key: the result is
/// [`toml_members`]. A string and a boolean come as they are; of a table, a
/// number, an array or a date only that it is one.
#[verifier::external_body]
pub(crate) fn read_toml(text: &str, path: &Vec<String>) -> (r: Option<Vec<(String, Member)>>)
    ensures
        r.deep_view() == toml_members(text@, path.deep_view()),
{
    let doc: toml::Value = toml::from_str(text).ok()?;
    let member = |v: &toml::Value| match v {
        toml::Value::String(s) => Member::Text(s.clone()),
        toml::Value::Boolean(b) => Member::Flag(*b),
        toml::Value::Table(_) => Member::Table,
        _ => Member::Other,
    };
    let at = path.iter().try_fold(&doc, |v, k| v.get(k))?;
    Some(at.as_table()?.iter().map(|(k, v)| (k.clone(), member(v))).collect())
}

} // verus!
