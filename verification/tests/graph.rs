//! The tiered cascade plan.
use wave::edge::{BumpDecision, DepEdge, EdgeKind, VersionConstraint};
use wave::forge::{repo_slug, ForgeKind, RepoRef};
use wave::graph::{propose, repo_key, RepoNode, WavePlan};

fn repo(name: &str) -> RepoRef {
    RepoRef {
        forge: ForgeKind::Gitlab as i32,
        host: "gitlab.savvifi.com".into(),
        owner: "studio".into(),
        name: name.into(),
    }
}

fn node(name: &str, publishes: Option<&str>, deps: &[(&str, &str)]) -> RepoNode {
    RepoNode {
        repo: repo(name),
        published: publishes.map(str::to_string),
        edges: deps
            .iter()
            .map(|(m, v)| DepEdge {
                module: (*m).to_string(),
                current: VersionConstraint::parse_exact(v),
                manifest_path: "MODULE.bazel".into(),
                kind: EdgeKind::BazelDep,
            })
            .collect(),
    }
}

#[test]
fn tiers_follow_the_dag_with_longest_path() {
    // modules → foundation → api → web; web also depends on foundation.
    let nodes = vec![
        node("modules", Some("modules"), &[]),
        node("foundation", Some("foundation"), &[("modules", "0.1.0")]),
        node("api", Some("api"), &[("foundation", "0.1.0")]),
        node(
            "web",
            None,
            &[("api", "0.1.0"), ("foundation", "0.1.0")],
        ),
    ];
    let plan = propose(nodes, "modules", "0.1.1", false);
    assert!(plan.cycle.is_empty());
    let tier_of = |n: &str| {
        plan.items
            .iter()
            .find(|i| i.repo.name == n)
            .map(|i| i.tier)
            .unwrap()
    };
    assert_eq!(tier_of("foundation"), 1);
    assert_eq!(tier_of("api"), 2);
    // web depends on api(2) AND foundation(1) → longest path = 3.
    assert_eq!(tier_of("web"), 3);
    // modules is the source (tier 0), not in the affected work set.
    assert!(plan.items.iter().all(|i| i.repo.name != "modules"));
    // items are ordered by tier.
    let tiers: Vec<u32> = plan.items.iter().map(|i| i.tier).collect();
    let mut sorted = tiers.clone();
    sorted.sort_unstable();
    assert_eq!(tiers, sorted);
    // tier-1 foundation has an exact pin 0.1.0 < 0.1.1 → needs a bump.
    let foundation = plan.items.iter().find(|i| i.repo.name == "foundation").unwrap();
    assert_eq!(foundation.decision, Some(BumpDecision::NeedsBump));
}

#[test]
fn cycle_is_surfaced_not_hung() {
    // a ↔ b mutually depend → cycle, plus c depends on a as the trigger.
    let nodes = vec![
        node("a", Some("a"), &[("b", "0.1.0"), ("seed", "0.1.0")]),
        node("b", Some("b"), &[("a", "0.1.0")]),
    ];
    let plan = propose(nodes, "seed", "0.2.0", false);
    // a is the direct consumer of `seed`; a↔b cycle means neither orders.
    assert!(!plan.cycle.is_empty());
}

#[test]
fn keys_and_slugs_name_a_repo() {
    let mut r = repo("web");
    assert_eq!(repo_key(&r), "gitlab.savvifi.com|studio/web");
    assert_eq!(repo_slug(&r), "studio/web");
    r.owner = String::new();
    assert_eq!(repo_key(&r), "gitlab.savvifi.com|/web");
    assert_eq!(repo_slug(&r), "web");
}

#[test]
fn a_plan_lists_modules_once_in_order_and_the_first_manifest() {
    let mut web = node("web", None, &[("b", "0.1.0"), ("a", "0.1.0"), ("b", "0.1.0"), ("x", "1.0.0")]);
    web.edges[0].manifest_path = String::new();
    web.edges[1].manifest_path = "package.json".into();
    let nodes = vec![
        node("a", Some("a"), &[("root", "0.1.0")]),
        node("b", Some("b"), &[("root", "0.1.0")]),
        web,
    ];
    let plan = propose(nodes, "root", "0.2.0", false);
    assert_eq!(plan.root_repo, None);
    let web = plan.items.iter().find(|i| i.repo.name == "web").unwrap();
    assert_eq!(web.tier, 2);
    assert_eq!(web.upstream_modules, ["a", "b"]);
    assert_eq!(web.manifest_path, "package.json");
    assert_eq!(web.decision, None);
}

#[test]
fn items_of_one_tier_stand_by_key() {
    let nodes = vec![
        node("z", None, &[("root", "0.1.0")]),
        node("a", None, &[("root", "0.1.0")]),
        node("root", Some("root"), &[]),
        node("m", None, &[("root", "0.1.0")]),
    ];
    let plan = propose(nodes, "root", "0.2.0", false);
    let names: Vec<&str> = plan.items.iter().map(|i| i.repo.name.as_str()).collect();
    assert_eq!(names, ["a", "m", "z"]);
    assert_eq!(plan.root_repo.unwrap().name, "root");
}

#[test]
fn the_last_node_of_a_key_stands_for_the_repo() {
    let nodes = vec![
        node("a", Some("a"), &[("root", "0.1.0")]),
        node("a", Some("a"), &[]),
        node("b", None, &[("root", "0.1.0"), ("a", "0.1.0")]),
    ];
    let plan = propose(nodes, "root", "0.2.0", false);
    assert_eq!(plan.items.len(), 1);
    assert_eq!(plan.items[0].repo.name, "b");
    assert_eq!(plan.items[0].tier, 1);
    assert_eq!(plan.items[0].upstream_modules, ["root"]);
}

#[test]
fn everything_behind_a_cycle_is_surfaced() {
    let nodes = vec![
        node("a", Some("a"), &[("b", "0.1.0"), ("seed", "0.1.0")]),
        node("b", Some("b"), &[("a", "0.1.0")]),
        node("c", None, &[("b", "0.1.0")]),
        node("d", None, &[("seed", "0.1.0")]),
    ];
    let plan = propose(nodes, "seed", "0.2.0", false);
    let mut cycle = plan.cycle.clone();
    cycle.sort();
    assert_eq!(
        cycle,
        [
            "gitlab.savvifi.com|studio/a",
            "gitlab.savvifi.com|studio/b",
            "gitlab.savvifi.com|studio/c"
        ]
    );
    assert_eq!(plan.items.len(), 1);
    assert_eq!(plan.items[0].repo.name, "d");
}

#[test]
fn the_source_of_a_wave_is_not_planned() {
    let nodes = vec![
        node("modules", Some("modules"), &[("modules", "0.1.0")]),
        node("foundation", Some("foundation"), &[("modules", "0.1.0")]),
    ];
    let plan = propose(nodes, "modules", "0.1.1", false);
    let tiers: Vec<(&str, u32)> =
        plan.items.iter().map(|i| (i.repo.name.as_str(), i.tier)).collect();
    assert_eq!(tiers, [("foundation", 1)]);
    assert_eq!(plan.root_repo.unwrap().name, "modules");
    assert!(plan.cycle.is_empty());
}

#[test]
fn the_order_of_the_nodes_does_not_matter() {
    let nodes = || {
        vec![
            node("modules", Some("modules"), &[]),
            node("foundation", Some("foundation"), &[("modules", "0.1.0")]),
            node("web", None, &[("foundation", "0.1.0"), ("modules", "0.1.0")]),
        ]
    };
    let mut turned = nodes();
    turned.reverse();
    let a = propose(nodes(), "modules", "0.1.1", false);
    let b = propose(turned, "modules", "0.1.1", false);
    let items = |p: &WavePlan| -> Vec<(String, u32, Vec<String>)> {
        p.items
            .iter()
            .map(|i| (i.repo.name.clone(), i.tier, i.upstream_modules.clone()))
            .collect()
    };
    assert_eq!(items(&a), items(&b));
    assert_eq!(a.items.len(), 2);
    assert_eq!(a.root_repo, b.root_repo);
}

#[test]
fn a_target_that_is_no_version_leaves_the_decision_open() {
    let nodes = vec![node("a", None, &[("root", "0.1.0")])];
    let plan = propose(nodes, "root", "latest", false);
    assert_eq!(plan.items[0].decision, None);
    assert_eq!(plan.target_version, "latest");
    let none = propose(Vec::new(), "root", "0.2.0", false);
    assert!(none.items.is_empty() && none.cycle.is_empty());
}
