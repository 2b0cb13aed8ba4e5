//! Reading and rewriting manifests.
use wave::document::Member;
use wave::edge::{DepEdge, EdgeKind, VersionConstraint};
use wave::pattern::{rewrite, unquote, Layout};
use wave::provider::{
    bazel_edges, cargo_edges, cargo_table_spec, catalog_edges, first_group_text, npm_edges,
    BazelDepProvider, CargoProvider, CargoSpec, GraphProvider, NpmProvider, PnpmCatalogProvider,
    ProviderChain, BAZEL_DEP, CATALOG_ENTRY,
};
use wave::version::Version;

const MODULE_BAZEL: &str = r#"
module(name = "rules_lang", version = "0.0.13")
bazel_dep(name = "rules_cc", version = "0.1.0")
bazel_dep(
    name = "rules_proto",
    version = "6.0.0",
)
"#;

#[test]
fn bazel_parse_and_publish() {
    let p = BazelDepProvider::new();
    assert_eq!(p.published_name(MODULE_BAZEL).as_deref(), Some("rules_lang"));
    assert_eq!(p.published_version(MODULE_BAZEL).as_deref(), Some("0.0.13"));
    let edges = p.parse_edges(MODULE_BAZEL).unwrap();
    assert_eq!(edges.len(), 2);
    assert_eq!(edges[0].module, "rules_cc");
    assert_eq!(edges[1].module, "rules_proto");
}

#[test]
fn bazel_bump_preserves_others() {
    let p = BazelDepProvider::new();
    let (out, changed) = p.bump(MODULE_BAZEL, "rules_cc", "0.2.0");
    assert!(changed);
    assert!(out.contains(r#"name = "rules_cc", version = "0.2.0""#));
    assert!(out.contains(r#"name = "rules_proto""#));
    assert!(out.contains(r#"version = "6.0.0""#));
}

#[test]
fn bazel_bump_multiline() {
    let p = BazelDepProvider::new();
    let (out, changed) = p.bump(MODULE_BAZEL, "rules_proto", "6.1.0");
    assert!(changed);
    assert!(out.contains(r#"version = "6.1.0""#));
    // the single-line neighbor is untouched
    assert!(out.contains(r#"version = "0.1.0""#));
}

const PKG_JSON: &str = r#"{
  "name": "@savvi-studio/api-router",
  "version": "0.1.0",
  "dependencies": {
    "@savvi-studio/modules": "^0.1.0",
    "@aion/kernel": "^0.1.7",
    "zod": "4.4.3"
  }
}"#;

#[test]
fn npm_parse_and_publish() {
    let p = NpmProvider::new();
    assert_eq!(
        p.published_name(PKG_JSON).as_deref(),
        Some("@savvi-studio/api-router")
    );
    assert_eq!(p.published_version(PKG_JSON).as_deref(), Some("0.1.0"));
    let edges = p.parse_edges(PKG_JSON).unwrap();
    assert_eq!(edges.len(), 3);
    let modules: Vec<_> = edges.iter().map(|e| e.module.as_str()).collect();
    assert!(modules.contains(&"@savvi-studio/modules"));
}

#[test]
fn npm_bump_keeps_caret() {
    let p = NpmProvider::new();
    let (out, changed) = p.bump(PKG_JSON, "@savvi-studio/modules", "0.1.1");
    assert!(changed);
    assert!(out.contains(r#""@savvi-studio/modules": "^0.1.1""#));
    // untouched neighbors + the package's own version
    assert!(out.contains(r#""zod": "4.4.3""#));
    assert!(out.contains(r#""version": "0.1.0""#));
}

#[test]
fn chain_falls_through() {
    let chain = ProviderChain::default_chain();
    assert!(chain.for_manifest("MODULE.bazel").is_some());
    assert!(chain.for_manifest("package.json").is_some());
    assert!(chain.for_manifest("Cargo.toml").is_some());
    assert!(chain.for_manifest("go.mod").is_none());
}

const CARGO_TOML: &str = r#"
[package]
name = "wave-core"
version = "0.1.0"

[dependencies]
anyhow = "1.0.86"
serde = { version = "1.0", features = ["derive"] }
fastverk-forge = { path = "../../forge" }
local-thing = { git = "https://example.com/x" }
shared = { workspace = true }

[build-dependencies]
prost-build = "0.13"

[workspace.dependencies]
tokio = { version = "1.40", features = ["full"] }
"#;

#[test]
fn cargo_parse_and_publish() {
    let p = CargoProvider::new();
    assert_eq!(p.published_name(CARGO_TOML).as_deref(), Some("wave-core"));
    assert_eq!(p.published_version(CARGO_TOML).as_deref(), Some("0.1.0"));
    let edges = p.parse_edges(CARGO_TOML).unwrap();
    let modules: Vec<_> = edges.iter().map(|e| e.module.as_str()).collect();
    // registry deps kept; path / git / workspace=true skipped.
    assert!(modules.contains(&"anyhow"));
    assert!(modules.contains(&"serde"));
    assert!(modules.contains(&"prost-build"));
    assert!(modules.contains(&"tokio")); // from [workspace.dependencies]
    assert!(!modules.contains(&"fastverk-forge"));
    assert!(!modules.contains(&"local-thing"));
    assert!(!modules.contains(&"shared"));
    // bare "1.0" is caret in Cargo.
    let anyhow = edges.iter().find(|e| e.module == "anyhow").unwrap();
    assert!(matches!(anyhow.current, VersionConstraint::Caret(_)));
}

#[test]
fn cargo_bump_string_form() {
    let p = CargoProvider::new();
    let (out, changed) = p.bump(CARGO_TOML, "anyhow", "1.1.0");
    assert!(changed);
    assert!(out.contains(r#"anyhow = "1.1.0""#));
    assert!(out.contains(r#"prost-build = "0.13""#)); // neighbor untouched
}

// ── pnpm catalog ────────────────────────────────────────────────────
//
// Shaped after a real catalog workspace: a `packages:` block that must never
// be touched, a load-bearing comment inside `catalog:`, mixed first-party and
// third-party entries, and a trailing block after the catalog.

const PNPM_WORKSPACE: &str = r#"# Collapse peer-dependency variants.
dedupePeerDependents: true

packages:
  - packages/kernel
  - packages/logger

catalog:
  # @aion/* framework packages — single source of truth for the published
  # framework version (all bumped together on release).
  '@aion/kernel': ^0.2.0
  '@aion/http-utils': ^0.2.0
  '@aws-sdk/client-s3': ^3.1030.0
  zod: ^3.23.8

onlyBuiltDependencies:
  - esbuild
"#;

#[test]
fn pnpm_catalog_parses_entries_and_publishes_nothing() {
    let p = PnpmCatalogProvider::new();
    assert_eq!(p.published_name(PNPM_WORKSPACE), None);
    assert_eq!(p.published_version(PNPM_WORKSPACE), None);

    let edges = p.parse_edges(PNPM_WORKSPACE).unwrap();
    let names: Vec<_> = edges.iter().map(|e| e.module.as_str()).collect();
    // Quotes stripped; the `packages:` list + `onlyBuiltDependencies:` block
    // are outside the catalog span and contribute nothing.
    assert_eq!(
        names,
        ["@aion/kernel", "@aion/http-utils", "@aws-sdk/client-s3", "zod"]
    );
    assert!(edges.iter().all(|e| e.kind == EdgeKind::Npm));
    assert!(edges
        .iter()
        .all(|e| e.manifest_path == "pnpm-workspace.yaml"));
    assert_eq!(
        edges[0].current,
        VersionConstraint::Caret(Version::new(0, 2, 0))
    );
}

#[test]
fn pnpm_catalog_bump_is_surgical() {
    let p = PnpmCatalogProvider::new();
    let (out, changed) = p.bump(PNPM_WORKSPACE, "@aion/http-utils", "0.2.3");
    assert!(changed);
    // Rewrote the target, preserving quote style + the caret operator.
    assert!(out.contains("'@aion/http-utils': ^0.2.3"));
    // Neighbors untouched.
    assert!(out.contains("'@aion/kernel': ^0.2.0"));
    assert!(out.contains("zod: ^3.23.8"));
    // The comment documenting the framework-version invariant SURVIVES — a
    // YAML round-trip would eat it. This is the whole point of regex-surgery.
    assert!(out.contains("# @aion/* framework packages — single source of truth"));
    // Structure outside the catalog is byte-identical.
    assert!(out.contains("  - packages/kernel"));
    assert!(out.contains("dedupePeerDependents: true"));
    assert!(out.contains("onlyBuiltDependencies:"));
    // Nothing else moved.
    assert_eq!(out.lines().count(), PNPM_WORKSPACE.lines().count());
}

#[test]
fn pnpm_catalog_bump_unknown_module_is_a_noop() {
    let p = PnpmCatalogProvider::new();
    let (out, changed) = p.bump(PNPM_WORKSPACE, "@aion/not-here", "9.9.9");
    assert!(!changed);
    assert_eq!(out, PNPM_WORKSPACE);
}

#[test]
fn pnpm_catalog_never_rewrites_outside_the_catalog_block() {
    // A `packages:` entry that looks superficially like an entry with a
    // version must not be reachable — the span guard, not the regex, is what
    // protects it.
    const TRICKY: &str = r#"packages:
  foo: ^1.0.0

catalog:
  foo: ^1.0.0
"#;
    let p = PnpmCatalogProvider::new();
    let edges = p.parse_edges(TRICKY).unwrap();
    assert_eq!(edges.len(), 1, "only the catalog's `foo` is an edge");
    let (out, changed) = p.bump(TRICKY, "foo", "2.0.0");
    assert!(changed);
    assert_eq!(
        out,
        "packages:\n  foo: ^1.0.0\n\ncatalog:\n  foo: ^2.0.0\n",
        "the packages: entry is untouched"
    );
}

#[test]
fn pnpm_catalog_absent_falls_through_the_chain() {
    // A workspace with no catalog: yields None so the chain moves on, rather
    // than claiming the repo with an empty edge set.
    const NO_CATALOG: &str = "packages:\n  - packages/a\n";
    assert!(PnpmCatalogProvider::new().parse_edges(NO_CATALOG).is_none());
    // `catalogs:` (pnpm's NAMED catalogs) is a different block and must not
    // be mistaken for the default one.
    const NAMED_ONLY: &str = "catalogs:\n  react17:\n    react: ^17.0.0\n";
    assert!(PnpmCatalogProvider::new().parse_edges(NAMED_ONLY).is_none());
}

#[test]
fn pnpm_catalog_quoting_styles_and_trailing_comments() {
    const STYLES: &str = r#"catalog:
  "@scope/dq": ~1.2.3
  '@scope/sq': ^1.0.0
  bare: 2.0.0
  quoted-val: '^3.0.0'
  with-comment: ^4.0.0 # pinned deliberately
"#;
    let p = PnpmCatalogProvider::new();
    let edges = p.parse_edges(STYLES).unwrap();
    assert_eq!(
        edges.iter().map(|e| e.module.as_str()).collect::<Vec<_>>(),
        ["@scope/dq", "@scope/sq", "bare", "quoted-val", "with-comment"]
    );
    // Each rewrite preserves that entry's own quoting + operator.
    assert!(p.bump(STYLES, "@scope/dq", "1.2.4").0.contains(r#""@scope/dq": ~1.2.4"#));
    assert!(p.bump(STYLES, "bare", "2.1.0").0.contains("bare: 2.1.0"));
    assert!(p.bump(STYLES, "quoted-val", "3.1.0").0.contains("quoted-val: '^3.1.0'"));
    let (out, _) = p.bump(STYLES, "with-comment", "4.1.0");
    assert!(
        out.contains("with-comment: ^4.1.0 # pinned deliberately"),
        "trailing comment survives: {out}"
    );
}

#[test]
fn pnpm_catalog_is_in_the_default_chain() {
    let chain = ProviderChain::default_chain();
    let p = chain
        .for_manifest("pnpm-workspace.yaml")
        .expect("pnpm catalog provider is routable by manifest name");
    assert_eq!(p.kind(), EdgeKind::Npm);
}

// ── beyond the manifests above ──────────────────────────────────────────

#[test]
fn an_unchanged_text_is_returned_as_it_is() {
    let text = "module(name = \"é\")\nbazel_dep(name = \"a\", version = \"1.0.0\")\n";
    assert_eq!(BazelDepProvider::new().bump(text, "b", "2.0.0"), (text.to_string(), false));
    assert_eq!(NpmProvider::new().bump("{\"a\": \"^1.0.0\"}", "b", "2.0.0").1, false);
    assert_eq!(CargoProvider::new().bump("a = \"1\"", "b", "2"), ("a = \"1\"".to_string(), false));
}

#[test]
fn every_entry_of_a_module_is_rewritten_and_nothing_else() {
    let text = "{\"é\": \"^1.0.0\", \"b\": \"~2.0.0\", \"é\": \"1.0.1\"}";
    let (out, changed) = NpmProvider::new().bump(text, "é", "9.9.9");
    assert!(changed);
    assert_eq!(out, "{\"é\": \"^9.9.9\", \"b\": \"~2.0.0\", \"é\": \"9.9.9\"}");
}

#[test]
fn a_text_without_module_syntax_is_no_module_file() {
    let p = BazelDepProvider::new();
    assert!(p.parse_edges("hello").is_none());
    assert_eq!(p.parse_edges("module(name = \"x\")").unwrap().len(), 0);
    assert_eq!(p.published_name("hello"), None);
    assert_eq!(p.published_version("module(name = \"x\")"), None);
}

#[test]
fn a_package_json_that_is_no_object_falls_through() {
    let p = NpmProvider::new();
    assert!(p.parse_edges("[]").is_none());
    assert!(p.parse_edges("not json").is_none());
    assert_eq!(p.published_name("{\"name\": 3}"), None);
    assert_eq!(p.published_version("{}"), None);
}

#[test]
fn package_json_sections_are_read_in_order_and_non_texts_skipped() {
    let p = NpmProvider::new();
    let edges = p
        .parse_edges(
            r#"{"peerDependencies":{"c":"^3.0.0"},"dependencies":{"a":"1.0.0","x":{}},"devDependencies":{"b":"workspace:*"}}"#,
        )
        .unwrap();
    let names: Vec<&str> = edges.iter().map(|e| e.module.as_str()).collect();
    assert_eq!(names, ["a", "b", "c"]);
    assert!(matches!(edges[1].current, VersionConstraint::Other(_)));
}

#[test]
fn a_manifest_that_is_no_toml_falls_through() {
    let p = CargoProvider::new();
    assert!(p.parse_edges("= nonsense").is_none());
    assert_eq!(p.published_name("[package]\nname = 3\n"), None);
    assert_eq!(p.published_version("[package]\nversion.workspace = true\n"), None);
}

#[test]
fn cargo_values_say_their_constraint() {
    assert_eq!(
        CargoProvider::constraint(&CargoSpec::Text("1.2.3".into())),
        Some(VersionConstraint::Caret(Version::new(1, 2, 3)))
    );
    assert_eq!(CargoProvider::constraint(&CargoSpec::Other), None);
    let table = |workspace: bool, elsewhere: bool, version: Option<&str>| CargoSpec::Table {
        workspace,
        elsewhere,
        version: version.map(str::to_string),
    };
    assert_eq!(CargoProvider::constraint(&table(true, false, Some("1.0.0"))), None);
    assert_eq!(CargoProvider::constraint(&table(false, true, Some("1.0.0"))), None);
    assert_eq!(CargoProvider::constraint(&table(false, false, None)), None);
    assert_eq!(
        CargoProvider::constraint(&table(false, false, Some("1.0.0"))),
        Some(VersionConstraint::Caret(Version::new(1, 0, 0)))
    );
}

#[test]
fn entries_become_edges() {
    let npm = npm_edges(&vec![("a".into(), Some("^1.0.0".into())), ("b".into(), None)]);
    assert_eq!(npm.len(), 1);
    assert_eq!(npm[0].manifest_path, "package.json");
    let cargo = cargo_edges(&vec![
        ("a".into(), CargoSpec::Text("1.0.0".into())),
        ("b".into(), CargoSpec::Other),
    ]);
    assert_eq!(cargo.len(), 1);
    assert_eq!(cargo[0].kind, EdgeKind::Cargo);
}

#[test]
fn matches_become_edges_and_texts() {
    let text = "é name 1.2.3!";
    let ms = vec![vec![Some((0, 13)), None, Some((3, 7)), Some((8, 13)), Some((13, 14))]];
    let edges = bazel_edges(text, &ms);
    assert_eq!(edges[0].module, "name");
    assert_eq!(edges[0].current, VersionConstraint::Exact(Version::new(1, 2, 3)));
    let edges = catalog_edges(text, &ms);
    assert_eq!(edges[0].module, "name");
    assert_eq!(edges[0].manifest_path, "pnpm-workspace.yaml");
    assert_eq!(first_group_text(text, &ms, 2).as_deref(), Some("name"));
    assert_eq!(first_group_text(text, &ms, 1).as_deref(), Some(""));
    assert_eq!(first_group_text(text, &Vec::new(), 1), None);

    let l = Layout { name: 2, quoted: false, before: vec![2], behind: vec![4] };
    assert_eq!(rewrite(text, &ms, &l, "name", "9"), ("name9!!".to_string(), true));
    assert_eq!(rewrite(text, &ms, &l, "other", "9"), (text.to_string(), false));
}

#[test]
fn quotes_come_off_in_pairs() {
    assert_eq!(unquote("'a'"), "a");
    assert_eq!(unquote("\"a\""), "a");
    assert_eq!(unquote("'a\""), "'a\"");
    assert_eq!(unquote("'"), "'");
    assert_eq!(unquote("''"), "");
}

#[test]
fn a_catalog_ends_at_the_next_block() {
    let span = |t: &str| PnpmCatalogProvider::catalog_span(&t.chars().collect());
    assert_eq!(span("catalog:\n  a: 1\n\n# c\nb:\n"), Some((9, 21)));
    assert_eq!(span("catalog: # all\r\n  a: 1"), Some((16, 22)));
    assert_eq!(span("catalog:"), Some((8, 8)));
    assert_eq!(span("catalog: x\n"), None);
    assert!(PnpmCatalogProvider::is_catalog_header("catalog:  # c"));
    assert!(!PnpmCatalogProvider::is_catalog_header("catalogs:"));
}

#[test]
fn the_default_chain_lists_its_manifests_in_order() {
    let chain = ProviderChain::default_chain();
    let names: Vec<&str> = chain.providers().iter().map(|p| p.manifest_name()).collect();
    assert_eq!(names, ["MODULE.bazel", "package.json", "Cargo.toml", "pnpm-workspace.yaml"]);
    let short = ProviderChain::new(vec![chain.providers()[1]]);
    assert!(short.for_manifest("MODULE.bazel").is_none());
    assert_eq!(short.for_manifest("package.json").unwrap().kind(), EdgeKind::Npm);
}

#[test]
fn a_section_that_is_a_date_has_no_edges() {
    let p = CargoProvider::new();
    assert!(p.parse_edges("dependencies = 1979-05-27\n").unwrap().is_empty());
    assert!(p.parse_edges("[dependencies]\nserde = 1979-05-27\n").unwrap().is_empty());
}

#[test]
fn a_catalog_bump_changes_what_discovery_sees() {
    let p = PnpmCatalogProvider::new();
    let text = "packages:\n  - a\ncatalog:\n  zod: ^4.0.0\n  'x/y': 1.0.0\n";
    let modules: Vec<String> =
        p.parse_edges(text).unwrap().into_iter().map(|e| e.module).collect();
    assert_eq!(modules, ["zod", "x/y"]);
    for m in ["zod", "x/y", "a", "packages"] {
        assert_eq!(p.bump(text, m, "9.0.0").1, modules.iter().any(|x| x == m));
    }
}

#[test]
fn a_section_may_be_nested_deeply() {
    let dotted = |k: &str| vec![k; 70].join(".");
    let text = format!(
        "[dependencies]\nserde = \"1.0.0\"\n[dependencies.{}]\n{} = 1\n",
        dotted("a"),
        dotted("b")
    );
    let edges = CargoProvider::new().parse_edges(&text).unwrap();
    assert_eq!(edges.len(), 1);
    assert_eq!(edges[0].module, "serde");
    assert_eq!(edges[0].current, VersionConstraint::Caret(Version::new(1, 0, 0)));
}

#[test]
fn cargo_tables_are_read_by_their_members() {
    let text = "[dependencies]\na = { version = \"1.0.0\" }\nb = { path = \"../b\", version = \"1.0.0\" }\n\
                c = { workspace = true }\nd = { workspace = false, version = \"2.0.0\" }\n\
                e = { git = \"x\" }\nf = [\"1.0.0\"]\n[dependencies.\"g.h\"]\nversion = \"3.0.0\"\n\
                [workspace.dependencies]\nw = \"4.0.0\"\n";
    let edges = CargoProvider::new().parse_edges(text).unwrap();
    let modules: Vec<&str> = edges.iter().map(|e| e.module.as_str()).collect();
    assert_eq!(modules, ["a", "d", "g.h", "w"]);
    assert_eq!(edges[1].current, VersionConstraint::Caret(Version::new(2, 0, 0)));
    assert!(CargoProvider::new().parse_edges("").unwrap().is_empty());

    let spec = cargo_table_spec(&vec![
        ("version".into(), Member::Text("1.0.0".into())),
        ("workspace".into(), Member::Flag(true)),
    ]);
    assert!(matches!(spec, CargoSpec::Table { workspace: true, elsewhere: false, .. }));
    let spec = cargo_table_spec(&vec![
        ("git".into(), Member::Table),
        ("version".into(), Member::Other),
    ]);
    assert!(matches!(
        spec,
        CargoSpec::Table { workspace: false, elsewhere: true, version: None }
    ));
}

/// The offsets of every group of every match.
fn spans(pattern: &str, text: &str) -> Vec<Vec<Option<(usize, usize)>>> {
    let re = regex::Regex::new(pattern).unwrap();
    re.captures_iter(text)
        .map(|c| c.iter().map(|g| g.map(|m| (m.start(), m.end()))).collect())
        .collect()
}

/// Are the matches in `after` those in `before`, each offset moved by what the
/// `versions` that end there or before it have grown?
fn found_again(
    pattern: &str,
    before: &str,
    after: &str,
    versions: &[(usize, usize)],
    target: &str,
) -> bool {
    let moved = |p: usize| {
        versions.iter().filter(|v| v.1 <= p).fold(p, |q, v| q + target.len() - (v.1 - v.0))
    };
    let was: Vec<Vec<Option<(usize, usize)>>> = spans(pattern, before)
        .into_iter()
        .map(|m| m.into_iter().map(|g| g.map(|s| (moved(s.0), moved(s.1)))).collect())
        .collect();
    was == spans(pattern, after)
}

fn on(edges: Vec<DepEdge>, module: &str) -> Vec<VersionConstraint> {
    edges.into_iter().filter(|e| e.module == module).map(|e| e.current).collect()
}

#[test]
fn a_bumped_catalog_reads_back() {
    let head = "packages:\n  - é\ncatalog:\n";
    let body = "  # é\n  zod: ^4.0.0 # pinned\n\n  'x/y': '~1.0.0'\n  zod: 4.0.1\n";
    let text = format!("{head}{body}other:\n  zod: 1.0.0\n");
    let p = PnpmCatalogProvider::new();
    for target in ["5.10.200", "6"] {
        let (out, changed) = p.bump(&text, "zod", target);
        assert!(changed);
        assert_eq!(
            out,
            format!(
                "{head}  # é\n  zod: ^{target} # pinned\n\n  'x/y': '~1.0.0'\n  zod: {target}\n\
                 other:\n  zod: 1.0.0\n"
            )
        );
        let after = &out[head.len()..out.len() - "other:\n  zod: 1.0.0\n".len()];
        let versions: Vec<(usize, usize)> = spans(CATALOG_ENTRY, body)
            .iter()
            .filter(|m| &body[m[2].unwrap().0..m[2].unwrap().1] == "zod")
            .map(|m| m[5].unwrap())
            .collect();
        assert_eq!(versions.len(), 2);
        assert!(found_again(CATALOG_ENTRY, body, after, &versions, target));
        let now = p.parse_edges(&out).unwrap();
        assert_eq!(now.len(), 3);
        assert_eq!(on(now.clone(), "x/y"), on(p.parse_edges(&text).unwrap(), "x/y"));
        assert_eq!(
            on(now, "zod"),
            [
                VersionConstraint::parse_npm(&format!("^{target}")),
                VersionConstraint::parse_npm(target)
            ]
        );
    }
}

#[test]
fn a_bumped_module_file_reads_back() {
    let text = "module(name = \"é\")\nbazel_dep(name = \"a\", version = \"1.0.0\")\n\
                bazel_dep(\n  name = \"b\",\n  version = \"2.0.0\",\n)\n";
    let p = BazelDepProvider::new();
    let (out, changed) = p.bump(text, "a", "10.20.30");
    assert!(changed);
    let versions = [spans(BAZEL_DEP, text)[0][3].unwrap()];
    assert!(found_again(BAZEL_DEP, text, &out, &versions, "10.20.30"));
    let now = p.parse_edges(&out).unwrap();
    assert_eq!(on(now.clone(), "a"), [VersionConstraint::parse_exact("10.20.30")]);
    assert_eq!(on(now, "b"), [VersionConstraint::parse_exact("2.0.0")]);
}
