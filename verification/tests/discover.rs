//! External-dependency discovery.
use std::collections::HashMap;

use wave::discover::{
    candidate, candidates_from, find_candidates, is_internal, lookups, resolve_latest, Answer,
    Datasource, DiscoverConfig, VersionInfo,
};
use wave::edge::{BumpDecision, DepEdge, EdgeKind, VersionConstraint};
use wave::forge::{ForgeKind, RepoRef};
use wave::graph::RepoNode;
use wave::version::Version;

fn repo(name: &str) -> RepoRef {
    RepoRef {
        forge: ForgeKind::Gitlab as i32,
        host: "gitlab.savvifi.com".into(),
        owner: "studio".into(),
        name: name.into(),
    }
}

fn npm_edge(module: &str, spec: &str) -> DepEdge {
    DepEdge {
        module: module.into(),
        current: VersionConstraint::parse_npm(spec),
        manifest_path: "package.json".into(),
        kind: EdgeKind::Npm,
    }
}

fn node(name: &str, publishes: Option<&str>, edges: Vec<DepEdge>) -> RepoNode {
    RepoNode {
        repo: repo(name),
        published: publishes.map(str::to_string),
        edges,
    }
}

/// A datasource that returns a fixed latest version per package.
struct MockNpm(HashMap<String, String>);

impl Datasource for MockNpm {
    fn kind(&self) -> EdgeKind {
        EdgeKind::Npm
    }
    fn latest(&self, package: &str) -> Result<Option<VersionInfo>, String> {
        Ok(self.0.get(package).map(|v| VersionInfo {
            version: v.clone(),
            digest: None,
            released_at: None,
        }))
    }
}

fn ds(pairs: &[(&str, &str)]) -> Vec<MockNpm> {
    let map = pairs
        .iter()
        .map(|(k, v)| ((*k).to_string(), (*v).to_string()))
        .collect();
    vec![MockNpm(map)]
}

#[test]
fn external_dep_with_newer_latest_becomes_a_candidate() {
    let nodes = vec![node(
        "web",
        None,
        vec![npm_edge("zod", "^4.4.0")],
    )];
    let cands = find_candidates(&nodes, &ds(&[("zod", "5.1.0")]), &DiscoverConfig::default());
    assert_eq!(cands.len(), 1);
    assert_eq!(cands[0].module, "zod");
    assert_eq!(cands[0].latest, "5.1.0");
    assert_eq!(cands[0].decision, BumpDecision::NeedsBump);
}

#[test]
fn caret_already_admitting_latest_is_not_a_candidate() {
    // ^4.4.0 admits 4.4.9 → the manifest range is fine (lockfile's job).
    let nodes = vec![node("web", None, vec![npm_edge("zod", "^4.4.0")])];
    let cands = find_candidates(&nodes, &ds(&[("zod", "4.4.9")]), &DiscoverConfig::default());
    assert!(cands.is_empty());
}

#[test]
fn internal_dep_published_by_an_enumerated_repo_is_skipped() {
    // `@s/modules` is published by the `modules` repo → cascade-owned.
    let nodes = vec![
        node("modules", Some("@s/modules"), vec![]),
        node("web", None, vec![npm_edge("@s/modules", "^0.1.0")]),
    ];
    let cands =
        find_candidates(&nodes, &ds(&[("@s/modules", "0.9.0")]), &DiscoverConfig::default());
    assert!(cands.is_empty());
}

#[test]
fn internal_prefix_is_skipped_even_without_a_local_producer() {
    // @aion/* is produced in another group; the prefix marks it internal.
    let nodes = vec![node("web", None, vec![npm_edge("@aion/kernel", "^0.1.0")])];
    let cfg = DiscoverConfig {
        internal_prefixes: vec!["@aion/".into()],
        force: false,
        include_internal: false,
        only_internal: false,
    };
    let cands = find_candidates(&nodes, &ds(&[("@aion/kernel", "0.5.0")]), &cfg);
    assert!(cands.is_empty());
}

#[test]
fn include_internal_opts_a_prefixed_module_back_in() {
    // The same scan as above, with the opt-in: @aion/* is now a candidate —
    // this is "bring a repo's first-party pins up to latest".
    let nodes = vec![node("web", None, vec![npm_edge("@aion/kernel", "^0.1.0")])];
    let cfg = DiscoverConfig {
        internal_prefixes: vec!["@aion/".into()],
        force: false,
        include_internal: true,
        only_internal: false,
    };
    let cands = find_candidates(&nodes, &ds(&[("@aion/kernel", "0.5.0")]), &cfg);
    assert_eq!(cands.len(), 1);
    assert_eq!(cands[0].module, "@aion/kernel");
    assert_eq!(cands[0].latest, "0.5.0");
}

#[test]
fn include_internal_still_defers_to_a_producer_in_the_scan() {
    // include_internal relaxes only the PREFIX rule. A module published by a
    // scanned repo is the cascade's to bump — discovery must not also claim
    // it, or the two fight over the same manifest.
    let nodes = vec![
        node("kernel", Some("@aion/kernel"), vec![]),
        node("web", None, vec![npm_edge("@aion/kernel", "^0.1.0")]),
    ];
    let cfg = DiscoverConfig {
        internal_prefixes: vec!["@aion/".into()],
        force: false,
        include_internal: true,
        only_internal: false,
    };
    let cands = find_candidates(&nodes, &ds(&[("@aion/kernel", "0.5.0")]), &cfg);
    assert!(
        cands.is_empty(),
        "a producer in the scan keeps the module internal even with include_internal"
    );
}

#[test]
fn only_internal_selects_first_party_instead_of_adding_to_it() {
    // include_internal ADDS internal to the external set; only_internal
    // SELECTS it. The difference is a change carrying 10 first-party bumps vs
    // one carrying 10 + every third-party dep that drifted — a different blast
    // radius.
    let nodes = vec![node(
        "web",
        None,
        vec![
            npm_edge("@aion/kernel", "^0.1.0"),
            npm_edge("@aws-sdk/client-s3", "^3.0.0"),
        ],
    )];
    // Both targets must be OUTSIDE their caret, or the third-party one is
    // AlreadySatisfied and the test proves nothing about filtering.
    let ds = ds(&[("@aion/kernel", "0.5.0"), ("@aws-sdk/client-s3", "4.0.0")]);

    let both = DiscoverConfig {
        internal_prefixes: vec!["@aion/".into()],
        force: false,
        include_internal: true,
        only_internal: false,
    };
    let cands = find_candidates(&nodes, &ds, &both);
    assert_eq!(cands.len(), 2, "include_internal reports first- AND third-party");

    let only = DiscoverConfig {
        internal_prefixes: vec!["@aion/".into()],
        force: false,
        include_internal: false, // implied by only_internal
        only_internal: true,
    };
    let cands = find_candidates(&nodes, &ds, &only);
    assert_eq!(cands.len(), 1, "only_internal reports first-party alone");
    assert_eq!(cands[0].module, "@aion/kernel");
}

#[test]
fn an_opaque_spec_is_never_a_candidate_even_when_a_sibling_polls_it() {
    // The pnpm-catalog shape: package.json says `"dep": "catalog:"` (opaque)
    // while pnpm-workspace.yaml carries the real `^0.2.0`. Both edges name the
    // SAME module, so the catalog edge causes a poll — and the opaque edge must
    // not ride in on that cache hit. Bumping it would rewrite `"catalog:"` into
    // a literal version and destroy the indirection.
    let catalog_edge = DepEdge {
        module: "@aion/kernel".into(),
        current: VersionConstraint::parse_npm("^0.2.0"),
        manifest_path: "pnpm-workspace.yaml".into(),
        kind: EdgeKind::Npm,
    };
    let opaque_pin = DepEdge {
        module: "@aion/kernel".into(),
        current: VersionConstraint::parse_npm("catalog:"),
        manifest_path: "package.json".into(),
        kind: EdgeKind::Npm,
    };
    assert!(matches!(opaque_pin.current, VersionConstraint::Other(_)));

    let nodes = vec![node("web", None, vec![catalog_edge, opaque_pin])];
    let cfg = DiscoverConfig {
        internal_prefixes: vec!["@aion/".into()],
        force: true,
        include_internal: true,
        only_internal: false,
    };
    let cands = find_candidates(&nodes, &ds(&[("@aion/kernel", "0.2.3")]), &cfg);
    assert_eq!(cands.len(), 1, "only the catalog edge is bumpable");
    assert_eq!(cands[0].manifest_path, "pnpm-workspace.yaml");
}

#[test]
fn force_does_not_propose_a_no_op_bump() {
    // `^0.3.1` with latest 0.3.1: the floor already IS the target, so even
    // --force has nothing to advance. Proposing it would open an empty MR.
    let nodes = vec![node("web", None, vec![npm_edge("@aion/app-boot", "^0.3.1")])];
    let cfg = DiscoverConfig {
        internal_prefixes: vec!["@aion/".into()],
        force: true,
        include_internal: true,
        only_internal: false,
    };
    let cands = find_candidates(&nodes, &ds(&[("@aion/app-boot", "0.3.1")]), &cfg);
    assert!(cands.is_empty(), "no-op bump must not be a candidate");
}

#[test]
fn include_internal_with_force_advances_an_admitting_caret() {
    // The aion shape: catalog pins ^0.2.0, registry has 0.2.3. The caret
    // already ADMITS 0.2.3, so only `force` makes it a candidate — that's how
    // the manifest floor (and hence the lockfile) actually moves.
    let nodes = vec![node(
        "web",
        None,
        vec![npm_edge("@aion/http-utils", "^0.2.0")],
    )];
    let ds = ds(&[("@aion/http-utils", "0.2.3")]);

    let admitting = DiscoverConfig {
        internal_prefixes: vec!["@aion/".into()],
        force: false,
        include_internal: true,
        only_internal: false,
    };
    assert!(
        find_candidates(&nodes, &ds, &admitting).is_empty(),
        "^0.2.0 admits 0.2.3, so without force there is nothing to do"
    );

    let forcing = DiscoverConfig {
        internal_prefixes: vec!["@aion/".into()],
        force: true,
        include_internal: true,
        only_internal: false,
    };
    let cands = find_candidates(&nodes, &ds, &forcing);
    assert_eq!(cands.len(), 1);
    assert_eq!(cands[0].latest, "0.2.3");
    assert_eq!(cands[0].decision, BumpDecision::NeedsBump);
}

#[test]
fn non_semver_specs_are_left_alone() {
    let nodes = vec![node(
        "web",
        None,
        vec![
            npm_edge("@s/modules", "workspace:*"),
            npm_edge("next", "catalog:"),
        ],
    )];
    let cands = find_candidates(
        &nodes,
        &ds(&[("next", "16.2.0")]),
        &DiscoverConfig::default(),
    );
    assert!(cands.is_empty());
}

#[test]
fn prerelease_latest_is_ignored() {
    let nodes = vec![node("web", None, vec![npm_edge("zod", "^4.4.0")])];
    let cands = find_candidates(
        &nodes,
        &ds(&[("zod", "5.0.0-beta.1")]),
        &DiscoverConfig::default(),
    );
    assert!(cands.is_empty());
}

#[test]
fn edges_without_a_datasource_for_their_kind_are_skipped() {
    // A bazel edge with only an npm datasource wired → no candidate, no panic.
    let nodes = vec![node(
        "rules",
        None,
        vec![DepEdge {
            module: "rules_cc".into(),
            current: VersionConstraint::parse_exact("0.1.0"),
            manifest_path: "MODULE.bazel".into(),
            kind: EdgeKind::BazelDep,
        }],
    )];
    let cands = find_candidates(&nodes, &ds(&[("rules_cc", "0.2.0")]), &DiscoverConfig::default());
    assert!(cands.is_empty());
}

struct Flaky;

impl Datasource for Flaky {
    fn kind(&self) -> EdgeKind {
        EdgeKind::Npm
    }
    fn latest(&self, _: &str) -> Result<Option<VersionInfo>, String> {
        Err("503".into())
    }
}

#[test]
fn a_lookup_that_fails_counts_as_no_info() {
    let nodes = vec![node("web", None, vec![npm_edge("zod", "^4.4.0")])];
    assert!(find_candidates(&nodes, &vec![Flaky], &DiscoverConfig::default()).is_empty());
}

struct HalfFlaky;

impl Datasource for HalfFlaky {
    fn kind(&self) -> EdgeKind {
        EdgeKind::Npm
    }
    fn latest(&self, package: &str) -> Result<Option<VersionInfo>, String> {
        if package == "zod" {
            Err("503".into())
        } else {
            Ok(info("9.0.0"))
        }
    }
}

#[test]
fn a_failing_lookup_costs_only_its_module() {
    let nodes = vec![
        node("web", None, vec![npm_edge("zod", "^4.4.0"), npm_edge("abc", "^1.0.0")]),
        node("api", None, vec![npm_edge("xyz", "^1.0.0"), npm_edge("zod", "^4.4.0")]),
    ];
    let cs = find_candidates(&nodes, &vec![HalfFlaky], &DiscoverConfig::default());
    let left: Vec<(&str, &str)> =
        cs.iter().map(|c| (c.repo.name.as_str(), c.module.as_str())).collect();
    assert_eq!(left, [("api", "xyz"), ("web", "abc")]);
}

fn info(version: &str) -> Option<VersionInfo> {
    Some(VersionInfo { version: version.into(), digest: None, released_at: None })
}

#[test]
fn only_a_stable_version_is_usable() {
    assert_eq!(resolve_latest(&info(" 1.2.3 ")), Some(Version::new(1, 2, 3)));
    assert_eq!(resolve_latest(&info("1.2.3-rc.1")), None);
    assert_eq!(resolve_latest(&info("latest")), None);
    assert_eq!(resolve_latest(&None), None);
}

#[test]
fn each_pair_is_looked_up_once() {
    let nodes = vec![
        node("web", Some("@s/web"), vec![npm_edge("zod", "^4.4.0"), npm_edge("zod", "^3.0.0")]),
        node("api", None, vec![npm_edge("zod", "4.0.0"), npm_edge("@s/web", "1.0.0"), npm_edge("x", "*!")]),
    ];
    let wants = lookups(&nodes, &vec![EdgeKind::Npm], &DiscoverConfig::default());
    assert_eq!(wants, vec![(EdgeKind::Npm, "zod".to_string())]);
    assert!(lookups(&nodes, &vec![EdgeKind::Cargo], &DiscoverConfig::default()).is_empty());
}

#[test]
fn internal_is_published_or_prefixed() {
    let cfg = |opted_in: bool, only: bool| DiscoverConfig {
        internal_prefixes: vec!["@aion/".into()],
        force: false,
        include_internal: opted_in,
        only_internal: only,
    };
    let published = vec!["@s/a".to_string()];
    assert!(is_internal("@s/a", &published, &cfg(true, true)));
    assert!(is_internal("@aion/x", &published, &cfg(false, false)));
    assert!(!is_internal("@aion/x", &published, &cfg(true, false)));
    assert!(!is_internal("@aion/x", &published, &cfg(false, true)));
    assert!(!is_internal("zod", &published, &cfg(false, false)));
    assert!(cfg(false, true).excluded_by_only_internal("zod"));
    assert!(!cfg(false, true).excluded_by_only_internal("@aion/x"));
    assert!(cfg(false, true).internal_opted_in());
}

#[test]
fn candidates_stand_by_repo_then_module() {
    let nodes = vec![
        node("web", None, vec![npm_edge("zod", "^4.4.0"), npm_edge("abc", "^1.0.0")]),
        node("api", None, vec![npm_edge("zod", "^4.4.0")]),
    ];
    let answers = vec![
        Answer { kind: EdgeKind::Npm, module: "zod".into(), latest: Some(Version::new(5, 0, 0)) },
        Answer { kind: EdgeKind::Npm, module: "abc".into(), latest: Some(Version::new(2, 0, 0)) },
    ];
    let cs = candidates_from(&nodes, &answers, &DiscoverConfig::default());
    let order: Vec<(&str, &str)> =
        cs.iter().map(|c| (c.repo.name.as_str(), c.module.as_str())).collect();
    assert_eq!(order, [("api", "zod"), ("web", "abc"), ("web", "zod")]);
    let one = candidate(&repo("web"), &npm_edge("zod", "^4.4.0"), &answers, &DiscoverConfig::default());
    assert_eq!(one.unwrap().latest, "5.0.0");
    assert!(candidate(&repo("web"), &npm_edge("none", "^4.4.0"), &answers, &DiscoverConfig::default()).is_none());
}
