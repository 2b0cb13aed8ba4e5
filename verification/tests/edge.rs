//! Version constraints and the bump policy.
use wave::edge::{decide, BumpDecision, VersionConstraint};
use wave::version::{caret_matches, Version, VersionReq};

#[test]
fn npm_spec_classification() {
    assert!(matches!(
        VersionConstraint::parse_npm("^0.1.0"),
        VersionConstraint::Caret(_)
    ));
    assert!(matches!(
        VersionConstraint::parse_npm("0.1.0"),
        VersionConstraint::Exact(_)
    ));
    assert!(matches!(
        VersionConstraint::parse_npm(">=1, <2"),
        VersionConstraint::Range(_)
    ));
    assert!(matches!(
        VersionConstraint::parse_npm("workspace:*"),
        VersionConstraint::Other(_)
    ));
}

#[test]
fn caret_admits_patch_but_not_minor_floor_advance() {
    let c = VersionConstraint::parse_npm("^0.1.0");
    let target = Version::parse("0.1.5").unwrap();
    // ^0.1.0 admits 0.1.5 → satisfied unless we force a floor advance.
    assert_eq!(decide(&c, &target, false), BumpDecision::AlreadySatisfied);
    assert_eq!(decide(&c, &target, true), BumpDecision::NeedsBump);
}

#[test]
fn exact_pin_always_bumps_forward_and_conflicts_backward() {
    let c = VersionConstraint::parse_exact("0.1.0");
    assert_eq!(
        decide(&c, &Version::parse("0.1.1").unwrap(), false),
        BumpDecision::NeedsBump
    );
    assert_eq!(
        decide(&c, &Version::parse("0.1.0").unwrap(), false),
        BumpDecision::AlreadySatisfied
    );
    assert!(matches!(
        decide(&c, &Version::parse("0.0.9").unwrap(), false),
        BumpDecision::Conflict(_)
    ));
}

fn version(s: &str) -> Version {
    Version::parse(s).unwrap()
}

#[test]
fn versions_are_read_strictly_and_written_back() {
    for s in ["0.0.0", "1.20.300", "1.0.0-alpha.1", "1.0.0+build.5", "1.0.0-rc.1+b-7"] {
        assert_eq!(version(s).to_text(), s);
    }
    for s in ["", "1", "1.2", "1.2.3.4", "01.2.3", "1.2.3-", "1.2.3-01", "v1.2.3", " 1.2.3", "1.2.3-a..b"] {
        assert!(Version::parse(s).is_none(), "{s}");
    }
    assert!(version("1.0.0").is_stable());
    assert!(!version("1.0.0-rc.1").is_stable());
    assert_eq!(Version::new(1, 2, 3), version("1.2.3"));
}

#[test]
fn precedence_orders_releases_and_prereleases() {
    assert!(version("0.10.0").exceeds(&version("0.9.9")));
    assert!(!version("0.9.9").exceeds(&version("0.10.0")));
    assert!(version("1.0.0").exceeds(&version("1.0.0-rc.1")));
    assert!(!version("1.0.0").exceeds(&version("1.0.0")));
    assert!(version("1.0.0").same(&version("1.0.0")));
    assert!(!version("1.0.0+a").same(&version("1.0.0+b")));
}

#[test]
fn caret_ranges_keep_the_leftmost_nonzero_part() {
    let admits = |floor: &str, v: &str| caret_matches(&version(floor), &version(v));
    assert!(admits("1.2.3", "1.9.0"));
    assert!(!admits("1.2.3", "2.0.0"));
    assert!(!admits("1.2.3", "1.2.2"));
    assert!(admits("0.2.3", "0.2.9"));
    assert!(!admits("0.2.3", "0.3.0"));
    assert!(admits("0.0.3", "0.0.3"));
    assert!(!admits("0.0.3", "0.0.4"));
    assert!(admits("1.0.0-rc.1", "1.0.0-rc.1"));
}

#[test]
fn requirements_have_a_canonical_notation() {
    let req = VersionReq::parse(">=1, <2").unwrap();
    assert_eq!(req.to_text(), ">=1, <2");
    assert_eq!(VersionReq::parse("1.0").unwrap().to_text(), "^1.0");
    assert!(req.matches(&version("1.5.0")));
    assert!(!req.matches(&version("2.0.0")));
    assert!(VersionReq::parse("workspace:*").is_none());
}

#[test]
fn bazel_and_cargo_specs_are_classified() {
    assert_eq!(
        VersionConstraint::parse_exact(" 1.2.3 "),
        VersionConstraint::Exact(Version::new(1, 2, 3))
    );
    assert_eq!(VersionConstraint::parse_exact("main"), VersionConstraint::Other("main".into()));
    assert_eq!(
        VersionConstraint::parse_cargo("1.2.3"),
        VersionConstraint::Caret(Version::new(1, 2, 3))
    );
    assert_eq!(
        VersionConstraint::parse_cargo("^ 1.2.3"),
        VersionConstraint::Caret(Version::new(1, 2, 3))
    );
    assert!(matches!(VersionConstraint::parse_cargo("1.0"), VersionConstraint::Range(_)));
    assert!(matches!(VersionConstraint::parse_cargo("nope!"), VersionConstraint::Other(_)));
}

#[test]
fn constraints_have_a_notation_and_an_anchor() {
    let text = |s: &str| VersionConstraint::parse_npm(s).to_text();
    assert_eq!(text("1.2.3"), "1.2.3");
    assert_eq!(text("^ 1.2.3"), "^1.2.3");
    assert_eq!(text("~1.2"), "~1.2");
    assert_eq!(text(" workspace:* "), "workspace:*");
    assert_eq!(VersionConstraint::parse_npm("^1.2.3").anchor(), Some(&Version::new(1, 2, 3)));
    assert_eq!(VersionConstraint::parse_npm("~1.2").anchor(), None);
    assert!(VersionConstraint::parse_npm("~1.2").admits(&version("1.2.9")));
    assert!(!VersionConstraint::parse_npm("main").admits(&version("1.2.9")));
    assert!(VersionConstraint::parse_npm("1.2.9").admits(&version("1.2.9")));
}

#[test]
fn a_floor_at_the_target_has_nothing_to_advance() {
    let c = VersionConstraint::parse_npm("^0.3.1");
    assert_eq!(decide(&c, &version("0.3.1"), true), BumpDecision::AlreadySatisfied);
    assert_eq!(decide(&c, &version("0.3.1"), false), BumpDecision::AlreadySatisfied);
    assert_eq!(
        decide(&c, &version("0.3.0"), true),
        BumpDecision::Conflict("caret floor 0.3.1 > target 0.3.0".into())
    );
    assert_eq!(
        decide(&VersionConstraint::parse_exact("0.3.1"), &version("0.3.0"), true),
        BumpDecision::Conflict("pinned 0.3.1 > target 0.3.0".into())
    );
}

#[test]
fn ranges_and_opaque_specs_are_decided_too() {
    let range = VersionConstraint::parse_npm(">=1, <2");
    assert_eq!(decide(&range, &version("1.5.0"), false), BumpDecision::AlreadySatisfied);
    assert_eq!(decide(&range, &version("1.5.0"), true), BumpDecision::NeedsBump);
    assert_eq!(decide(&range, &version("2.0.0"), false), BumpDecision::NeedsBump);
    let opaque = VersionConstraint::parse_npm("workspace:*");
    assert_eq!(decide(&opaque, &version("2.0.0"), false), BumpDecision::NeedsBump);
}

#[test]
fn unforced_an_edge_is_left_alone_exactly_where_it_admits_the_target() {
    let constraints = [
        VersionConstraint::parse_npm("1.2.0"),
        VersionConstraint::parse_npm("^1.2.0"),
        VersionConstraint::parse_npm("^1.2.0-rc.2"),
        VersionConstraint::parse_npm("~1.2"),
        VersionConstraint::parse_npm("workspace:*"),
    ];
    for c in &constraints {
        for t in ["1.1.0", "1.2.0-rc.1", "1.2.0-rc.2", "1.2.0", "1.3.0", "2.0.0"] {
            let t = Version::parse(t).unwrap();
            assert_eq!(decide(c, &t, false) == BumpDecision::AlreadySatisfied, c.admits(&t));
        }
    }
}
