//! What is read from each kind of manifest and what a bump writes into it, in terms
//! of what the manifest holds: the members of its tables, or the places where its
//! pattern was found.
use vstd::prelude::*;

use crate::document::{self, LevelView, MemberView};
use crate::edge::{self, DepEdgeView, EdgeKind};
use crate::entries;
use crate::pattern::{self, LayoutView, Span};
use crate::provider::{
    self, BazelDepProvider, CargoProvider, GraphProvider, NpmProvider, PnpmCatalogProvider, Provider,
};
use crate::select;
use crate::splice;
use crate::text;

verus! {

// ─── members ────────────────────────────────────────────────────────────

/// Is the member at `i` the first one with the key `k`?
pub open spec fn is_first_with_key<V>(m: Seq<(Seq<char>, V)>, k: Seq<char>, i: int) -> bool {
    &&& 0 <= i < m.len()
    &&& m[i].0 == k
    &&& forall|j: int| 0 <= j < i ==> (#[trigger] m[j]).0 != k
}

/// Is `v` the value of the member `k`: of the first one with that key?
pub open spec fn is_value<V>(m: Seq<(Seq<char>, V)>, k: Seq<char>, v: V) -> bool {
    exists|i: int| #[trigger] is_first_with_key(m, k, i) && m[i].1 == v
}

/// Is there a member `k`?
pub open spec fn has_key<V>(m: Seq<(Seq<char>, V)>, k: Seq<char>) -> bool {
    exists|i: int| 0 <= i < m.len() && (#[trigger] m[i]).0 == k
}

/// A member is looked up by its key.
pub proof fn lookup_finds_the_member<V>(m: Seq<(Seq<char>, V)>, k: Seq<char>, v: V)
    ensures
        document::lookup(m, k) == Some(v) <==> is_value(m, k, v),
        document::lookup(m, k) is Some <==> has_key(m, k),
    decreases m.len(),
{
    if m.len() > 0 {
        if m[0].0 == k {
            assert(is_first_with_key(m, k, 0));
            if is_value(m, k, v) {
                let i = choose|i: int| #[trigger] is_first_with_key(m, k, i) && m[i].1 == v;
                if i > 0 {
                    assert(m[0].0 != k);
                }
            }
        } else {
            let tail = m.skip(1);
            lookup_finds_the_member(tail, k, v);
            if is_value(tail, k, v) {
                let i = choose|i: int| #[trigger] is_first_with_key(tail, k, i) && tail[i].1 == v;
                assert forall|j: int| 0 <= j < i + 1 implies (#[trigger] m[j]).0 != k by {
                    if j > 0 {
                        assert(tail[j - 1] == m[j]);
                    }
                }
                assert(is_first_with_key(m, k, i + 1));
            }
            if is_value(m, k, v) {
                let i = choose|i: int| #[trigger] is_first_with_key(m, k, i) && m[i].1 == v;
                assert forall|j: int| 0 <= j < i - 1 implies (#[trigger] tail[j]).0 != k by {
                    assert(m[j + 1] == tail[j]);
                }
                assert(is_first_with_key(tail, k, i - 1));
            }
            if has_key(tail, k) {
                let i = choose|i: int| 0 <= i < tail.len() && (#[trigger] tail[i]).0 == k;
                assert(m[i + 1].0 == k);
            }
            if has_key(m, k) {
                let i = choose|i: int| 0 <= i < m.len() && (#[trigger] m[i]).0 == k;
                assert(tail[i - 1].0 == k);
            }
        }
    }
}

// ─── Cargo.toml ─────────────────────────────────────────────────────────

/// Is `v` the version that a dependency asks of the registry: its text, or the
/// `version` of its table, unless that takes the dependency from the workspace, a
/// path or a repository?
pub open spec fn asks_registry_for(
    text: Seq<char>,
    path: Seq<Seq<char>>,
    name: Seq<char>,
    value: MemberView,
    v: Seq<char>,
) -> bool {
    ||| value == MemberView::Text(v)
    ||| value is Table && (document::toml_members(text, path.push(name)) matches Some(t)
        && is_value(t, "version"@, MemberView::Text(v)) && !is_value(
        t,
        "workspace"@,
        MemberView::Flag(true),
    ) && !has_key(t, "path"@) && !has_key(t, "git"@))
}

/// The edge that a dependency of a `Cargo.toml` is, if it asks the registry for a
/// version.
pub open spec fn cargo_reading(text: Seq<char>, path: Seq<Seq<char>>) -> spec_fn(
    (Seq<char>, MemberView),
) -> Option<DepEdgeView> {
    |e: (Seq<char>, MemberView)|
        if exists|v: Seq<char>| #[trigger] asks_registry_for(text, path, e.0, e.1, v) {
            Some(
                DepEdgeView {
                    module: e.0,
                    current: edge::cargo_constraint(
                        choose|v: Seq<char>| #[trigger] asks_registry_for(text, path, e.0, e.1, v),
                    ),
                    manifest_path: "Cargo.toml"@,
                    kind: EdgeKind::Cargo,
                },
            )
        } else {
            None
        }
}

/// Are `es` the edges of the table that the keys `path` lead to: one for each of its
/// members that asks the registry for a version, in order; none where there is no
/// table?
pub open spec fn are_edges_of_table(
    text: Seq<char>,
    path: Seq<Seq<char>>,
    es: Seq<DepEdgeView>,
) -> bool {
    match document::toml_members(text, path) {
        Some(m) => select::is_selection(m, es, cargo_reading(text, path)),
        None => es.len() == 0,
    }
}

/// A dependency asks for one version at most.
proof fn asks_for_one(
    text: Seq<char>,
    path: Seq<Seq<char>>,
    name: Seq<char>,
    value: MemberView,
    v: Seq<char>,
    w: Seq<char>,
)
    requires
        asks_registry_for(text, path, name, value, v),
        asks_registry_for(text, path, name, value, w),
    ensures
        v == w,
{
    if let MemberView::Table = value {
        let t = document::toml_members(text, path.push(name))->0;
        lookup_finds_the_member(t, "version"@, MemberView::Text(v));
        lookup_finds_the_member(t, "version"@, MemberView::Text(w));
    }
}

proof fn constraint_is_asked(
    text: Seq<char>,
    path: Seq<Seq<char>>,
    name: Seq<char>,
    value: MemberView,
)
    ensures
        ({
            let c = provider::cargo_dep_constraint(
                provider::cargo_spec_at(text, path.push(name), value),
            );
            let e = cargo_reading(text, path)((name, value));
            &&& c is None <==> e is None
            &&& c matches Some(current) ==> e == Some(
                DepEdgeView {
                    module: name,
                    current,
                    manifest_path: "Cargo.toml"@,
                    kind: EdgeKind::Cargo,
                },
            )
        }),
{
    let spec = provider::cargo_spec_at(text, path.push(name), value);
    if let MemberView::Table = value {
        if let Some(t) = document::toml_members(text, path.push(name)) {
            let none: MemberView = MemberView::Other;
            lookup_finds_the_member(t, "workspace"@, MemberView::Flag(true));
            lookup_finds_the_member(t, "path"@, none);
            lookup_finds_the_member(t, "git"@, none);
            assert forall|v: Seq<char>| #[trigger]
                asks_registry_for(text, path, name, value, v) implies provider::toml_text(
                t,
                "version"@,
            ) == Some(v) by {
                lookup_finds_the_member(t, "version"@, MemberView::Text(v));
            }
            if let Some(v) = provider::toml_text(t, "version"@) {
                lookup_finds_the_member(t, "version"@, MemberView::Text(v));
            }
        }
    }
    if let Some(current) = provider::cargo_dep_constraint(spec) {
        let v = match value {
            MemberView::Text(s) => s,
            _ => provider::toml_text(document::toml_members(text, path.push(name))->0, "version"@)->0,
        };
        assert(asks_registry_for(text, path, name, value, v));
        let w = choose|w: Seq<char>| #[trigger] asks_registry_for(text, path, name, value, w);
        asks_for_one(text, path, name, value, v, w);
    } else {
        if exists|v: Seq<char>| #[trigger] asks_registry_for(text, path, name, value, v) {
            let v = choose|v: Seq<char>| #[trigger] asks_registry_for(text, path, name, value, v);
            assert(asks_registry_for(text, path, name, value, v));
        }
    }
}

proof fn section_is_selection(
    text: Seq<char>,
    path: Seq<Seq<char>>,
    m: Seq<(Seq<char>, MemberView)>,
)
    ensures
        select::is_selection(
            m,
            provider::cargo_edges_of(provider::cargo_entries(text, path, m)),
            cargo_reading(text, path),
        ),
    decreases m.len(),
{
    let rows = provider::cargo_entries(text, path, m);
    let pick = cargo_reading(text, path);
    if m.len() == 0 {
        select::nothing_selected(m, provider::cargo_edges_of(rows), pick);
    } else {
        let init = m.drop_last();
        let (name, value) = m.last();
        section_is_selection(text, path, init);
        assert(rows.drop_last() =~= provider::cargo_entries(text, path, init));
        constraint_is_asked(text, path, name, value);
        select::one_more_selected(
            init,
            provider::cargo_edges_of(provider::cargo_entries(text, path, init)),
            pick,
            (name, value),
        );
        assert(init.push((name, value)) =~= m);
    }
}

proof fn section_is(text: Seq<char>, path: Seq<Seq<char>>)
    ensures
        are_edges_of_table(text, path, provider::cargo_section(text, path)),
{
    if let Some(m) = document::toml_members(text, path) {
        section_is_selection(text, path, m);
    }
}

/// A `Cargo.toml` is read where it is a document, and its edges are those of its
/// four tables of dependencies, one table after the other: of the crate itself, of
/// its tests, of its build, and of the workspace.
pub proof fn cargo_edges_come_from_four_tables(p: CargoProvider, text: Seq<char>)
    ensures
        p.edges_in(text) is Some <==> document::toml_members(text, seq![]) is Some,
        p.edges_in(text) matches Some(es) ==> exists|
            a: Seq<DepEdgeView>,
            b: Seq<DepEdgeView>,
            c: Seq<DepEdgeView>,
            d: Seq<DepEdgeView>,
        |
            #![trigger a + b + c + d]
            es == a + b + c + d && are_edges_of_table(text, seq!["dependencies"@], a)
                && are_edges_of_table(text, seq!["dev-dependencies"@], b) && are_edges_of_table(
                text,
                seq!["build-dependencies"@],
                c,
            ) && are_edges_of_table(text, seq!["workspace"@, "dependencies"@], d),
{
    let a = provider::cargo_section(text, seq!["dependencies"@]);
    let b = provider::cargo_section(text, seq!["dev-dependencies"@]);
    let c = provider::cargo_section(text, seq!["build-dependencies"@]);
    let d = provider::cargo_section(text, seq!["workspace"@, "dependencies"@]);
    section_is(text, seq!["dependencies"@]);
    section_is(text, seq!["dev-dependencies"@]);
    section_is(text, seq!["build-dependencies"@]);
    section_is(text, seq!["workspace"@, "dependencies"@]);
    assert(a + b + c + d =~= provider::cargo_sections(text));
}

/// Do the keys lead to one of the tables of dependencies?
pub open spec fn is_dependency_table(path: Seq<Seq<char>>) -> bool {
    ||| path == seq!["dependencies"@]
    ||| path == seq!["dev-dependencies"@]
    ||| path == seq!["build-dependencies"@]
    ||| path == seq!["workspace"@, "dependencies"@]
}

/// Every member of a table of dependencies that asks the registry for a version is
/// an edge, at what that version says.
pub proof fn cargo_dependency_is_an_edge(
    p: CargoProvider,
    text: Seq<char>,
    path: Seq<Seq<char>>,
    m: Seq<(Seq<char>, MemberView)>,
    i: int,
    v: Seq<char>,
)
    requires
        document::toml_members(text, seq![]) is Some,
        is_dependency_table(path),
        document::toml_members(text, path) == Some(m),
        0 <= i < m.len(),
        asks_registry_for(text, path, m[i].0, m[i].1, v),
    ensures
        p.edges_in(text) matches Some(es) && es.contains(
            DepEdgeView {
                module: m[i].0,
                current: edge::cargo_constraint(v),
                manifest_path: "Cargo.toml"@,
                kind: EdgeKind::Cargo,
            },
        ),
{
    let x = DepEdgeView {
        module: m[i].0,
        current: edge::cargo_constraint(v),
        manifest_path: "Cargo.toml"@,
        kind: EdgeKind::Cargo,
    };
    let a = provider::cargo_section(text, seq!["dependencies"@]);
    let b = provider::cargo_section(text, seq!["dev-dependencies"@]);
    let c = provider::cargo_section(text, seq!["build-dependencies"@]);
    let d = provider::cargo_section(text, seq!["workspace"@, "dependencies"@]);
    let own = provider::cargo_section(text, path);
    let es = provider::cargo_sections(text);
    section_is(text, path);
    let w = choose|w: Seq<char>| #[trigger] asks_registry_for(text, path, m[i].0, m[i].1, w);
    asks_for_one(text, path, m[i].0, m[i].1, v, w);
    assert(m[i] == (m[i].0, m[i].1));
    assert(cargo_reading(text, path)(m[i]) == Some(x));
    select::selection_holds(m, own, cargo_reading(text, path), x);
    let k = choose|k: int| 0 <= k < own.len() && own[k] == x;
    if path == seq!["dependencies"@] {
        assert(es[k] == x);
    } else if path == seq!["dev-dependencies"@] {
        assert(es[a.len() + k] == x);
    } else if path == seq!["build-dependencies"@] {
        assert(es[a.len() + b.len() + k] == x);
    } else {
        assert(es[a.len() + b.len() + c.len() + k] == x);
    }
}

/// A `Cargo.toml` publishes what its `package` table says, where that is a text.
pub proof fn cargo_publishes_its_package(p: CargoProvider, text: Seq<char>, v: Seq<char>)
    ensures
        p.name_in(text) == Some(v) <==> (document::toml_members(text, seq!["package"@]) matches Some(
            m,
        ) && is_value(m, "name"@, MemberView::Text(v))),
        p.version_in(text) == Some(v) <==> (document::toml_members(
            text,
            seq!["package"@],
        ) matches Some(m) && is_value(m, "version"@, MemberView::Text(v))),
{
    if let Some(m) = document::toml_members(text, seq!["package"@]) {
        lookup_finds_the_member(m, "name"@, MemberView::Text(v));
        lookup_finds_the_member(m, "version"@, MemberView::Text(v));
    }
}

// ─── package.json ───────────────────────────────────────────────────────

/// The edge that an entry of a `package.json` is, if its value is a text.
pub open spec fn npm_reading() -> spec_fn((Seq<char>, Seq<char>)) -> Option<DepEdgeView> {
    |e: (Seq<char>, Seq<char>)|
        match document::json_level(e.1) {
            Some(LevelView::Text(spec)) => Some(
                DepEdgeView {
                    module: e.0,
                    current: edge::npm_constraint(spec),
                    manifest_path: "package.json"@,
                    kind: EdgeKind::Npm,
                },
            ),
            _ => None,
        }
}

/// Is the member `k` an object with the members `t`?
pub open spec fn is_object(
    m: Seq<(Seq<char>, Seq<char>)>,
    k: Seq<char>,
    t: Seq<(Seq<char>, Seq<char>)>,
) -> bool {
    exists|json: Seq<char>| #[trigger]
        is_value(m, k, json) && document::json_level(json) == Some(LevelView::Table(t))
}

/// Are `es` the edges of the section `k`: one for each of its entries that is a text,
/// in order; none where there is no such section?
pub open spec fn are_edges_of_section(
    m: Seq<(Seq<char>, Seq<char>)>,
    k: Seq<char>,
    es: Seq<DepEdgeView>,
) -> bool {
    ||| exists|t: Seq<(Seq<char>, Seq<char>)>| #[trigger]
        is_object(m, k, t) && select::is_selection(t, es, npm_reading())
    ||| es.len() == 0 && forall|t: Seq<(Seq<char>, Seq<char>)>| !#[trigger] is_object(m, k, t)
}

proof fn npm_rows_are_selected(m: Seq<(Seq<char>, Seq<char>)>)
    ensures
        select::is_selection(
            m,
            provider::npm_edges_of(provider::text_entries(m)),
            npm_reading(),
        ),
    decreases m.len(),
{
    let rows = provider::text_entries(m);
    if m.len() == 0 {
        select::nothing_selected(m, provider::npm_edges_of(rows), npm_reading());
    } else {
        let init = m.drop_last();
        npm_rows_are_selected(init);
        assert(rows.drop_last() =~= provider::text_entries(init));
        select::one_more_selected(
            init,
            provider::npm_edges_of(provider::text_entries(init)),
            npm_reading(),
            m.last(),
        );
        assert(init.push(m.last()) =~= m);
    }
}

proof fn npm_section_is(m: Seq<(Seq<char>, Seq<char>)>, k: Seq<char>)
    ensures
        are_edges_of_section(m, k, provider::npm_section(m, k)),
{
    assert forall|t: Seq<(Seq<char>, Seq<char>)>| #[trigger]
        is_object(m, k, t) implies document::table_member(m, k) == Some(t) by {
        let json = choose|json: Seq<char>| #[trigger]
            is_value(m, k, json) && document::json_level(json) == Some(LevelView::Table(t));
        lookup_finds_the_member(m, k, json);
    }
    if let Some(t) = document::table_member(m, k) {
        let json = document::lookup(m, k)->0;
        lookup_finds_the_member(m, k, json);
        assert(is_value(m, k, json));
        assert(is_object(m, k, t));
        npm_rows_are_selected(t);
    }
}

/// A `package.json` is read where it is an object, and its edges are those of its
/// three sections of dependencies, one behind the other.
pub proof fn npm_edges_come_from_three_sections(p: NpmProvider, text: Seq<char>)
    ensures
        p.edges_in(text) is Some <==> (document::json_level(text) matches Some(LevelView::Table(_))),
        document::json_level(text) matches Some(LevelView::Table(m)) ==> (p.edges_in(
            text,
        ) matches Some(es) && exists|
            a: Seq<DepEdgeView>,
            b: Seq<DepEdgeView>,
            c: Seq<DepEdgeView>,
        |
            #![trigger a + b + c]
            es == a + b + c && are_edges_of_section(m, "dependencies"@, a) && are_edges_of_section(
                m,
                "devDependencies"@,
                b,
            ) && are_edges_of_section(m, "peerDependencies"@, c)),
{
    if let Some(LevelView::Table(m)) = document::json_level(text) {
        npm_section_is(m, "dependencies"@);
        npm_section_is(m, "devDependencies"@);
        npm_section_is(m, "peerDependencies"@);
        let a = provider::npm_section(m, "dependencies"@);
        let b = provider::npm_section(m, "devDependencies"@);
        let c = provider::npm_section(m, "peerDependencies"@);
        assert(a + b + c =~= provider::npm_sections(m));
    }
}

/// A `package.json` publishes what its `name` and its `version` say, where they are
/// texts.
pub proof fn npm_publishes_its_name(p: NpmProvider, text: Seq<char>, v: Seq<char>)
    ensures
        p.name_in(text) == Some(v) <==> (document::json_level(text) matches Some(
            LevelView::Table(m),
        ) && exists|json: Seq<char>| #[trigger]
            is_value(m, "name"@, json) && document::json_level(json) == Some(LevelView::Text(v))),
        p.version_in(text) == Some(v) <==> (document::json_level(text) matches Some(
            LevelView::Table(m),
        ) && exists|json: Seq<char>| #[trigger]
            is_value(m, "version"@, json) && document::json_level(json) == Some(
                LevelView::Text(v),
            )),
{
    if let Some(LevelView::Table(m)) = document::json_level(text) {
        text_member_is(m, "name"@, v);
        text_member_is(m, "version"@, v);
    }
}

proof fn text_member_is(m: Seq<(Seq<char>, Seq<char>)>, k: Seq<char>, v: Seq<char>)
    ensures
        document::text_member(m, k) == Some(v) <==> exists|json: Seq<char>| #[trigger]
            is_value(m, k, json) && document::json_level(json) == Some(LevelView::Text(v)),
{
    if let Some(json) = document::lookup(m, k) {
        lookup_finds_the_member(m, k, json);
    }
    if exists|json: Seq<char>| #[trigger]
        is_value(m, k, json) && document::json_level(json) == Some(LevelView::Text(v)) {
        let json = choose|json: Seq<char>| #[trigger]
            is_value(m, k, json) && document::json_level(json) == Some(LevelView::Text(v));
        lookup_finds_the_member(m, k, json);
    }
}

// ─── MODULE.bazel and pnpm-workspace.yaml ───────────────────────────────

/// A module file is read where it has module syntax, and has one edge for each
/// declaration that was found, in order: on the module that the declaration names,
/// pinned to what it says.
pub proof fn bazel_edges_are_the_declarations(p: BazelDepProvider, text: Seq<char>, i: int)
    ensures
        p.edges_in(text) is Some <==> text::occurs_in(text, "bazel_dep("@) || text::occurs_in(
            text,
            "module("@,
        ),
        p.edges_in(text) matches Some(es) ==> {
            let ms = provider::found(provider::BAZEL_DEP@, text);
            &&& es.len() == ms.len()
            &&& 0 <= i < es.len() ==> es[i] == (DepEdgeView {
                module: pattern::group(text, ms[i], 2),
                current: edge::exact_constraint(pattern::group(text, ms[i], 3)),
                manifest_path: "MODULE.bazel"@,
                kind: EdgeKind::BazelDep,
            })
        },
        p.name_in(text) == (match provider::found(provider::BAZEL_MODULE_NAME@, text) {
            ms => if ms.len() > 0 {
                Some(pattern::group(text, ms[0], 1))
            } else {
                None
            },
        }),
        p.version_in(text) == (match provider::found(provider::BAZEL_MODULE_VERSION@, text) {
            ms => if ms.len() > 0 {
                Some(pattern::group(text, ms[0], 1))
            } else {
                None
            },
        }),
{
}

/// A catalog has one edge for each entry that was found in its body, in order: on the
/// module that the entry names, its quotes apart, at its operator and version. A
/// workspace publishes nothing.
pub proof fn catalog_edges_are_the_entries(p: PnpmCatalogProvider, text: Seq<char>, i: int)
    ensures
        p.edges_in(text) is Some <==> provider::catalog_body(text) is Some,
        provider::catalog_body(text) matches Some((start, end)) ==> (p.edges_in(text) matches Some(
            es,
        ) && {
            let body = text.subrange(start, end);
            let ms = provider::found(provider::CATALOG_ENTRY@, body);
            &&& es.len() == ms.len()
            &&& 0 <= i < es.len() ==> es[i] == (DepEdgeView {
                module: pattern::unquoted(pattern::group(body, ms[i], 2)),
                current: edge::npm_constraint(
                    pattern::group(body, ms[i], 4) + pattern::group(body, ms[i], 5),
                ),
                manifest_path: "pnpm-workspace.yaml"@,
                kind: EdgeKind::Npm,
            })
        }),
        p.name_in(text) is None,
        p.version_in(text) is None,
{
}

/// Quotes are taken off where a scalar stands in a pair of them, and only then.
pub proof fn unquoting_takes_a_pair(s: Seq<char>, q: char)
    ensures
        q == '\'' || q == '"' ==> pattern::unquoted(seq![q] + s + seq![q]) == s,
        s.len() < 2 || s[0] != s.last() || s[0] != '\'' && s[0] != '"' ==> pattern::unquoted(s)
            == s,
{
    let t = seq![q] + s + seq![q];
    assert(t.subrange(1, t.len() - 1) =~= s);
}

// ─── bumps ──────────────────────────────────────────────────────────────

/// Where the version of an entry for `module` stands: `name` is the group that names
/// the entry, `v` the one that holds the version.
pub open spec fn placing(
    t: Seq<char>,
    name: int,
    quoted: bool,
    v: int,
    module: Seq<char>,
) -> spec_fn(Seq<Option<Span>>) -> Option<(int, int)> {
    |m: Seq<Option<Span>>|
        if (if quoted {
            pattern::unquoted(pattern::group(t, m, name))
        } else {
            pattern::group(t, m, name)
        }) == module {
            Some(((m[v]->0).0 as int, (m[v]->0).1 as int))
        } else {
            None
        }
}

proof fn versions_are_placed(
    t: Seq<char>,
    ms: Seq<Seq<Option<Span>>>,
    l: LayoutView,
    v: int,
    module: Seq<char>,
)
    ensures
        select::is_selection(
            ms,
            entries::versions_of(t, ms, l, v, module),
            placing(t, l.name, l.quoted, v, module),
        ),
    decreases ms.len(),
{
    let pick = placing(t, l.name, l.quoted, v, module);
    let vs = entries::versions_of(t, ms, l, v, module);
    if ms.len() == 0 {
        select::nothing_selected(ms, vs, pick);
    } else {
        let init = ms.drop_last();
        versions_are_placed(t, init, l, v, module);
        select::one_more_selected(
            init,
            entries::versions_of(t, init, l, v, module),
            pick,
            ms.last(),
        );
        assert(init.push(ms.last()) =~= ms);
    }
}

/// Is `out` the text with `target` in the place of the version of each entry for
/// `module`, and with everything else as it was?
pub open spec fn only_versions_change(
    t: Seq<char>,
    ms: Seq<Seq<Option<Span>>>,
    name: int,
    quoted: bool,
    v: int,
    module: Seq<char>,
    target: Seq<char>,
    out: Seq<char>,
) -> bool {
    exists|vs: Seq<(int, int)>| #[trigger]
        select::is_selection(ms, vs, placing(t, name, quoted, v, module))
            && splice::are_stretches(t, vs) && out == splice::spliced(t, vs, target)
}

proof fn rewriting_changes_versions(
    t: Seq<char>,
    ms: Seq<Seq<Option<Span>>>,
    l: LayoutView,
    v: int,
    module: Seq<char>,
    target: Seq<char>,
)
    requires
        entries::are_shaped(t, ms, l, v),
    ensures
        only_versions_change(
            t,
            ms,
            l.name,
            l.quoted,
            v,
            module,
            target,
            pattern::rewritten(t, ms, l, module, target),
        ),
{
    versions_are_placed(t, ms, l, v, module);
    entries::rewriting_replaces_versions(t, ms, l, v, module, target);
}

/// Is the match made of a head, a version and a tail, one behind the other, and is
/// its name in the head? Groups 1 to 4.
pub open spec fn is_plain_entry(m: Seq<Option<Span>>) -> bool {
    &&& m.len() == 5
    &&& m[0] is Some && m[1] is Some && m[2] is Some && m[3] is Some && m[4] is Some
    &&& (m[1]->0).0 == (m[0]->0).0 && (m[1]->0).1 == (m[3]->0).0
    &&& (m[3]->0).0 < (m[3]->0).1
    &&& (m[4]->0).0 == (m[3]->0).1 && (m[4]->0).1 == (m[0]->0).1
}

proof fn plain_entries_are_shaped(t: Seq<char>, ms: Seq<Seq<Option<Span>>>)
    requires
        pattern::are_matches(t, ms),
        forall|i: int| 0 <= i < ms.len() ==> is_plain_entry(#[trigger] ms[i]),
    ensures
        entries::are_shaped(t, ms, provider::plain_layout(), 3),
{
    let l = provider::plain_layout();
    assert forall|i: int| 0 <= i < ms.len() implies entries::is_shaped(
        t,
        #[trigger] ms[i],
        l,
        3,
    ) by {
        let m = ms[i];
        reveal_with_fuel(pattern::groups_text, 3);
        assert(is_plain_entry(m) && pattern::is_match(t, m));
        assert(pattern::is_span(t, m[1]->0) && pattern::is_span(t, m[4]->0));
        assert(l.before.drop_last() =~= seq![]);
        assert(l.behind.drop_last() =~= seq![]);
        assert(pattern::groups_text(t, m, l.before) =~= pattern::group(t, m, 1));
        assert(pattern::groups_text(t, m, l.behind) =~= pattern::group(t, m, 4));
    }
}

/// Bumping a module file puts the target in the place of the version of each
/// declaration of the module, and leaves every other character as it is.
pub proof fn bazel_bump_changes_only_versions(
    p: BazelDepProvider,
    text: Seq<char>,
    module: Seq<char>,
    target: Seq<char>,
)
    requires
        ({
            let ms = provider::found(provider::BAZEL_DEP@, text);
            &&& pattern::are_matches(text, ms)
            &&& forall|i: int| 0 <= i < ms.len() ==> is_plain_entry(#[trigger] ms[i])
        }),
    ensures
        only_versions_change(
            text,
            provider::found(provider::BAZEL_DEP@, text),
            2,
            false,
            3,
            module,
            target,
            p.bumped(text, module, target),
        ),
{
    let ms = provider::found(provider::BAZEL_DEP@, text);
    plain_entries_are_shaped(text, ms);
    rewriting_changes_versions(text, ms, provider::plain_layout(), 3, module, target);
}

/// Bumping a `Cargo.toml` puts the target in the place of the version of each entry
/// of the module in text form, and leaves every other character as it is.
pub proof fn cargo_bump_changes_only_versions(
    p: CargoProvider,
    text: Seq<char>,
    module: Seq<char>,
    target: Seq<char>,
)
    requires
        ({
            let ms = provider::found(provider::CARGO_DEP@, text);
            &&& pattern::are_matches(text, ms)
            &&& forall|i: int| 0 <= i < ms.len() ==> is_plain_entry(#[trigger] ms[i])
        }),
    ensures
        only_versions_change(
            text,
            provider::found(provider::CARGO_DEP@, text),
            2,
            false,
            3,
            module,
            target,
            p.bumped(text, module, target),
        ),
{
    let ms = provider::found(provider::CARGO_DEP@, text);
    plain_entries_are_shaped(text, ms);
    rewriting_changes_versions(text, ms, provider::plain_layout(), 3, module, target);
}

/// Is the match made of a head, an operator, a version and a tail, one behind the
/// other? Groups 1 and 3 to 5.
pub open spec fn is_npm_entry(m: Seq<Option<Span>>) -> bool {
    &&& m.len() == 6
    &&& m[0] is Some && m[1] is Some && m[2] is Some && m[3] is Some && m[4] is Some
        && m[5] is Some
    &&& (m[1]->0).0 == (m[0]->0).0 && (m[1]->0).1 == (m[3]->0).0
    &&& (m[3]->0).1 == (m[4]->0).0
    &&& (m[4]->0).0 < (m[4]->0).1
    &&& (m[5]->0).0 == (m[4]->0).1 && (m[5]->0).1 == (m[0]->0).1
}

/// Bumping a `package.json` puts the target in the place of the version of each
/// entry of the module, behind the operator that stands there, and leaves every
/// other character as it is.
pub proof fn npm_bump_changes_only_versions(
    p: NpmProvider,
    text: Seq<char>,
    module: Seq<char>,
    target: Seq<char>,
)
    requires
        ({
            let ms = provider::found(provider::NPM_DEP@, text);
            &&& pattern::are_matches(text, ms)
            &&& forall|i: int| 0 <= i < ms.len() ==> is_npm_entry(#[trigger] ms[i])
        }),
    ensures
        only_versions_change(
            text,
            provider::found(provider::NPM_DEP@, text),
            2,
            false,
            4,
            module,
            target,
            p.bumped(text, module, target),
        ),
{
    let ms = provider::found(provider::NPM_DEP@, text);
    let l = provider::npm_layout();
    assert forall|i: int| 0 <= i < ms.len() implies entries::is_shaped(
        text,
        #[trigger] ms[i],
        l,
        4,
    ) by {
        let m = ms[i];
        reveal_with_fuel(pattern::groups_text, 3);
        assert(is_npm_entry(m) && pattern::is_match(text, m));
        assert(pattern::is_span(text, m[1]->0) && pattern::is_span(text, m[3]->0));
        assert(pattern::is_span(text, m[4]->0) && pattern::is_span(text, m[5]->0));
        assert(l.before.drop_last() =~= seq![1]);
        assert(l.before.drop_last().drop_last() =~= seq![]);
        assert(l.behind.drop_last() =~= seq![]);
        assert(pattern::groups_text(text, m, l.before) =~= pattern::group(text, m, 1)
            + pattern::group(text, m, 3));
        assert(pattern::groups_text(text, m, l.behind) =~= pattern::group(text, m, 5));
        pattern::pieces_join(
            text,
            (m[1]->0).0 as int,
            (m[1]->0).1 as int,
            (m[3]->0).1 as int,
        );
    }
    rewriting_changes_versions(text, ms, l, 4, module, target);
}

/// Is the match made of a head, a version, a closing quote and a tail, one behind the
/// other? Groups 1 and 5 to 7.
pub open spec fn is_catalog_entry(m: Seq<Option<Span>>) -> bool {
    &&& m.len() == 8
    &&& m[0] is Some && m[1] is Some && m[5] is Some && m[6] is Some && m[7] is Some
    &&& (m[1]->0).0 == (m[0]->0).0 && (m[1]->0).1 == (m[5]->0).0
    &&& (m[5]->0).0 < (m[5]->0).1
    &&& (m[6]->0).0 == (m[5]->0).1 && (m[7]->0).0 == (m[6]->0).1
    &&& (m[7]->0).1 == (m[0]->0).1
}

/// Bumping a workspace file puts the target in the place of the version of each entry
/// of its catalog that goes by the module's name, quoted or not, and leaves every other
/// character as it is; without a catalog it changes nothing.
pub proof fn catalog_bump_changes_only_versions(
    p: PnpmCatalogProvider,
    text: Seq<char>,
    module: Seq<char>,
    target: Seq<char>,
)
    requires
        provider::catalog_body(text) matches Some((start, end)) ==> ({
            let body = text.subrange(start, end);
            let ms = provider::found(provider::CATALOG_ENTRY@, body);
            &&& pattern::are_matches(body, ms)
            &&& forall|i: int| 0 <= i < ms.len() ==> is_catalog_entry(#[trigger] ms[i])
        }),
    ensures
        provider::catalog_body(text) is None ==> p.bumped(text, module, target) == text,
        provider::catalog_body(text) matches Some((start, end)) ==> exists|new_body: Seq<char>|
            p.bumped(text, module, target) == #[trigger] (text.take(start) + new_body + text.skip(
                end,
            )) && only_versions_change(
                text.subrange(start, end),
                provider::found(provider::CATALOG_ENTRY@, text.subrange(start, end)),
                2,
                true,
                5,
                module,
                target,
                new_body,
            ),
{
    if let Some((start, end)) = provider::catalog_body(text) {
        let body = text.subrange(start, end);
        let ms = provider::found(provider::CATALOG_ENTRY@, body);
        let l = provider::catalog_layout();
        assert forall|i: int| 0 <= i < ms.len() implies entries::is_shaped(
            body,
            #[trigger] ms[i],
            l,
            5,
        ) by {
            let m = ms[i];
            reveal_with_fuel(pattern::groups_text, 3);
            assert(is_catalog_entry(m) && pattern::is_match(body, m));
            assert(pattern::is_span(body, m[1]->0) && pattern::is_span(body, m[5]->0));
            assert(pattern::is_span(body, m[6]->0) && pattern::is_span(body, m[7]->0));
            assert(l.before.drop_last() =~= seq![]);
            assert(l.behind.drop_last() =~= seq![6]);
            assert(l.behind.drop_last().drop_last() =~= seq![]);
            assert(pattern::groups_text(body, m, l.before) =~= pattern::group(body, m, 1));
            assert(pattern::groups_text(body, m, l.behind) =~= pattern::group(body, m, 6)
                + pattern::group(body, m, 7));
            pattern::pieces_join(
                body,
                (m[6]->0).0 as int,
                (m[6]->0).1 as int,
                (m[7]->0).1 as int,
            );
        }
        rewriting_changes_versions(body, ms, l, 5, module, target);
        let new_body = pattern::rewritten(body, ms, l, module, target);
        assert(p.bumped(text, module, target) == text.take(start) + new_body + text.skip(end));
    }
}

/// A bump has something to write just where an entry was found that goes by the
/// module's name.
pub proof fn bumps_where_an_entry_is_found(
    b: BazelDepProvider,
    n: NpmProvider,
    c: CargoProvider,
    text: Seq<char>,
    module: Seq<char>,
)
    ensures
        b.has_entry(text, module) <==> exists|i: int|
            0 <= i < provider::found(provider::BAZEL_DEP@, text).len() && pattern::group(
                text,
                #[trigger] provider::found(provider::BAZEL_DEP@, text)[i],
                2,
            ) == module,
        n.has_entry(text, module) <==> exists|i: int|
            0 <= i < provider::found(provider::NPM_DEP@, text).len() && pattern::group(
                text,
                #[trigger] provider::found(provider::NPM_DEP@, text)[i],
                2,
            ) == module,
        c.has_entry(text, module) <==> exists|i: int|
            0 <= i < provider::found(provider::CARGO_DEP@, text).len() && pattern::group(
                text,
                #[trigger] provider::found(provider::CARGO_DEP@, text)[i],
                2,
            ) == module,
{
    let a = provider::found(provider::BAZEL_DEP@, text);
    let d = provider::found(provider::NPM_DEP@, text);
    let e = provider::found(provider::CARGO_DEP@, text);
    assert forall|i: int| 0 <= i < a.len() implies pattern::entry_name(
        text,
        #[trigger] a[i],
        provider::plain_layout(),
    ) == pattern::group(text, a[i], 2) by {}
    assert forall|i: int| 0 <= i < d.len() implies pattern::entry_name(
        text,
        #[trigger] d[i],
        provider::npm_layout(),
    ) == pattern::group(text, d[i], 2) by {}
    assert forall|i: int| 0 <= i < e.len() implies pattern::entry_name(
        text,
        #[trigger] e[i],
        provider::plain_layout(),
    ) == pattern::group(text, e[i], 2) by {}
}

// ─── the kinds ──────────────────────────────────────────────────────────

/// Each kind of manifest has its own file and its own ecosystem: a catalog's entries
/// are npm's.
pub proof fn manifests_have_their_names(
    b: BazelDepProvider,
    n: NpmProvider,
    c: CargoProvider,
    w: PnpmCatalogProvider,
)
    ensures
        b.manifest() == "MODULE.bazel"@ && b.edge_kind() == EdgeKind::BazelDep,
        n.manifest() == "package.json"@ && n.edge_kind() == EdgeKind::Npm,
        c.manifest() == "Cargo.toml"@ && c.edge_kind() == EdgeKind::Cargo,
        w.manifest() == "pnpm-workspace.yaml"@ && w.edge_kind() == EdgeKind::Npm,
{
}

/// A provider reads and writes as the kind that it is.
pub proof fn provider_is_its_kind(
    b: BazelDepProvider,
    n: NpmProvider,
    c: CargoProvider,
    w: PnpmCatalogProvider,
    text: Seq<char>,
    module: Seq<char>,
    target: Seq<char>,
)
    ensures
        ({
            let p = Provider::Bazel(b);
            &&& p.manifest() == b.manifest() && p.edge_kind() == b.edge_kind()
            &&& p.name_in(text) == b.name_in(text) && p.version_in(text) == b.version_in(text)
            &&& p.edges_in(text) == b.edges_in(text) && p.has_entry(text, module) == b.has_entry(
                text,
                module,
            )
            &&& p.bumped(text, module, target) == b.bumped(text, module, target)
        }),
        ({
            let p = Provider::Npm(n);
            &&& p.manifest() == n.manifest() && p.edge_kind() == n.edge_kind()
            &&& p.name_in(text) == n.name_in(text) && p.version_in(text) == n.version_in(text)
            &&& p.edges_in(text) == n.edges_in(text) && p.has_entry(text, module) == n.has_entry(
                text,
                module,
            )
            &&& p.bumped(text, module, target) == n.bumped(text, module, target)
        }),
        ({
            let p = Provider::Cargo(c);
            &&& p.manifest() == c.manifest() && p.edge_kind() == c.edge_kind()
            &&& p.name_in(text) == c.name_in(text) && p.version_in(text) == c.version_in(text)
            &&& p.edges_in(text) == c.edges_in(text) && p.has_entry(text, module) == c.has_entry(
                text,
                module,
            )
            &&& p.bumped(text, module, target) == c.bumped(text, module, target)
        }),
        ({
            let p = Provider::PnpmCatalog(w);
            &&& p.manifest() == w.manifest() && p.edge_kind() == w.edge_kind()
            &&& p.name_in(text) == w.name_in(text) && p.version_in(text) == w.version_in(text)
            &&& p.edges_in(text) == w.edges_in(text) && p.has_entry(text, module) == w.has_entry(
                text,
                module,
            )
            &&& p.bumped(text, module, target) == w.bumped(text, module, target)
        }),
{
}

} // verus!
