//! Registries, repo listings and node assembly.
use wave::edge::EdgeKind;
use wave::enumerate::{
    assemble_nodes, github_page_url, gitlab_page_url, managed_repos, next_page, node_for,
    page_behind, GhRepo, RepoSpec,
};
use wave::forge::{ForgeKind, RepoRef};
use wave::provider::ProviderChain;
use wave::registry::{
    index_lines, latest_of_rows, packument_latest, shard_path_of, CargoDatasource, CrateVersionRow,
    NpmDatasource,
};

fn package_json() -> Option<String> {
    Some(
        r#"{"name":"@s/foundation","version":"0.1.0","dependencies":{"@s/modules":"^0.1.0"}}"#
            .to_string(),
    )
}

#[test]
fn assembles_recognized_repos_and_skips_the_rest() {
    let specs = vec![
        RepoSpec { name: "foundation".into() },
        RepoSpec { name: "docs".into() },
    ];
    let chain = ProviderChain::default_chain();
    let read = vec![
        Some(vec![None, package_json(), None, None]),
        Some(vec![None, None, None, None]),
    ];
    let nodes =
        assemble_nodes(ForgeKind::Gitlab, &specs, "gitlab.savvifi.com", "studio", &chain, &read);
    assert_eq!(nodes.len(), 1);
    assert_eq!(nodes[0].repo.name, "foundation");
    assert_eq!(nodes[0].published.as_deref(), Some("@s/foundation"));
    assert_eq!(nodes[0].edges.len(), 1);
    assert_eq!(nodes[0].repo.forge, ForgeKind::Gitlab as i32);
}

#[test]
fn a_repo_that_cannot_be_read_is_skipped() {
    let specs = vec![RepoSpec { name: "a".into() }, RepoSpec { name: "b".into() }];
    let chain = ProviderChain::default_chain();
    let read = vec![None, Some(vec![None, package_json(), None, None])];
    let nodes = assemble_nodes(ForgeKind::Github, &specs, "h", "o", &chain, &read);
    assert_eq!(nodes.len(), 1);
    assert_eq!(nodes[0].repo.name, "b");
}

#[test]
fn a_node_unites_its_manifests() {
    let repo = || RepoRef { forge: 1, host: "h".into(), owner: "o".into(), name: "n".into() };
    let chain = ProviderChain::default_chain();
    let bazel = Some("module(name = \"m\")\nbazel_dep(name = \"x\", version = \"1.0.0\")".to_string());
    let cargo = Some("[package]\nname = \"c\"\n[dependencies]\ny = \"1.0.0\"\n".to_string());
    let node = node_for(repo(), &chain, &vec![bazel, package_json(), cargo.clone(), None]).unwrap();
    assert_eq!(node.published.as_deref(), Some("m"));
    let modules: Vec<&str> = node.edges.iter().map(|e| e.module.as_str()).collect();
    assert_eq!(modules, ["x", "@s/modules", "y"]);
    let node = node_for(repo(), &chain, &vec![None, None, cargo, None]).unwrap();
    assert_eq!(node.published.as_deref(), Some("c"));
    assert!(node_for(repo(), &chain, &vec![None, Some("oops".into()), None, None]).is_none());
}

#[test]
fn pages_are_addressed() {
    assert_eq!(
        gitlab_page_url("gitlab.com", "a b/é", 3),
        "https://gitlab.com/api/v4/groups/a%20b%2F%C3%A9/projects?include_subgroups=true&archived=false&per_page=100&page=3"
    );
    assert_eq!(
        github_page_url("", "org", 1),
        "https://api.github.com/orgs/org/repos?per_page=100&page=1"
    );
    assert_eq!(
        github_page_url("github.com", "org", 12),
        "https://api.github.com/orgs/org/repos?per_page=100&page=12"
    );
    assert_eq!(
        github_page_url("ghe.corp", "org", 1),
        "https://ghe.corp/api/v3/orgs/org/repos?per_page=100&page=1"
    );
}

#[test]
fn the_next_page_is_a_positive_number() {
    assert_eq!(next_page("2"), Some(2));
    assert_eq!(next_page("+7"), Some(7));
    assert_eq!(next_page("4294967295"), Some(u32::MAX));
    for s in ["", "0", "+", "-1", "x", "1 ", "4294967296", "99999999999999999999"] {
        assert_eq!(next_page(s), None, "{s}");
    }
}

#[test]
fn paging_ends_behind_an_empty_page() {
    assert_eq!(page_behind(1, false), Some(2));
    assert_eq!(page_behind(7, true), None);
    assert_eq!(page_behind(u32::MAX, false), None);
}

#[test]
fn archived_repos_and_forks_are_left_out() {
    let r = |name: &str, archived: bool, fork: bool| GhRepo { name: name.into(), archived, fork };
    let kept = managed_repos(&vec![r("a", false, false), r("b", true, false), r("c", false, true)]);
    assert_eq!(kept, vec![RepoSpec { name: "a".into() }]);
}

#[test]
fn packages_are_routed_by_their_longest_scope() {
    let npm = NpmDatasource::new()
        .with_scope("@aion", "https://one/", Some("t1".into()))
        .with_scope("@aion/sub/", "https://two//", None);
    assert_eq!(npm.kind(), EdgeKind::Npm);
    let url = |p: &str| npm.packument_url(p);
    assert_eq!(url("zod"), ("https://registry.npmjs.org/zod".to_string(), None));
    assert_eq!(
        url("@aion/kernel"),
        ("https://one/@aion%2Fkernel".to_string(), Some("t1".to_string()))
    );
    assert_eq!(url("@aion/sub/x"), ("https://two/@aion%2Fsub/x".to_string(), None));
    assert_eq!(url("@aion-other/x").0, "https://registry.npmjs.org/@aion-other%2Fx");
    assert_eq!(url("a/b").0, "https://registry.npmjs.org/a/b");
    assert_eq!(npm.route("@aion/kernel").0, "https://one");
}

#[test]
fn a_packument_says_its_latest_version() {
    assert_eq!(packument_latest(Some("1.0.0".into())).unwrap().version, "1.0.0");
    assert!(packument_latest(None).is_none());
}

#[test]
fn index_paths_are_sharded() {
    let path = |n: &str| CargoDatasource::index_path(n);
    assert_eq!(path("").as_deref(), Some(""));
    assert_eq!(path("A").as_deref(), Some("1/a"));
    assert_eq!(path("ab").as_deref(), Some("2/ab"));
    assert_eq!(path("Abc").as_deref(), Some("3/a/abc"));
    assert_eq!(path("Tokio").as_deref(), Some("to/ki/tokio"));
    assert_eq!(
        CargoDatasource::new().index_url("serde").as_deref(),
        Some("https://index.crates.io/se/rd/serde")
    );
    assert_eq!(CargoDatasource::new().kind(), EdgeKind::Cargo);
    assert_eq!(shard_path_of("é").as_deref(), Some("2/é"));
    assert_eq!(shard_path_of("aéb"), None);
    assert_eq!(shard_path_of("éa"), None);
}

#[test]
fn the_highest_stable_version_that_is_not_yanked_wins() {
    let row = |vers: &str, yanked: bool| CrateVersionRow { vers: vers.into(), yanked };
    let latest = |rows: Vec<CrateVersionRow>| latest_of_rows(&rows).map(|i| i.version);
    assert_eq!(
        latest(vec![
            row("0.9.0", false),
            row("1.10.0", false),
            row("1.9.0", false),
            row("2.0.0", true),
            row("3.0.0-rc.1", false),
            row("x", false),
        ]),
        Some("1.10.0".to_string())
    );
    assert_eq!(latest(vec![row("1.0.0", true)]), None);
    let builds = ["1.0.0+2", "1.0.0+10", "1.0.0"].map(|v| row(v, false));
    assert_eq!(latest(builds.into()), Some("1.0.0+10".to_string()));
}

#[test]
fn index_files_are_read_line_by_line() {
    assert_eq!(index_lines("{a}\r\n\n  {b} \n{c}"), ["{a}", "{b}", "{c}"]);
    assert!(index_lines("").is_empty());
}
