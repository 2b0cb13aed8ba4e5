//! `wave` — the cross-repo dependency-cascade engine.
//!
//! A *wave* propagates a dependency-version bump through a graph of separate
//! repositories: an upstream publishes a new version, downstream repos open
//! bump MRs/PRs, auto-merge on green, publish their own new version, and the
//! cascade continues — in dependency order.
//!
//! This crate is the engine:
//! - [`provider`] parses each repo's manifest (Bazel `MODULE.bazel`, npm
//!   `package.json`, …) into the name it publishes + its dependency edges,
//!   via an ordered [`ProviderChain`];
//! - [`splice`], [`entries`] and [`catalog`] say what a bump leaves of a manifest
//!   and what the bumped manifest reads as;
//! - [`graph`] assembles the cross-repo DAG, computes the affected set + tiers,
//!   and emits a topologically-ordered [`WavePlan`] ([`propose`]);
//! - [`manifests`], [`plan`] and [`course`] state what holds of the manifests that
//!   are read and written, of a plan, and of a wave on its way, in terms of what goes
//!   in and what comes out; [`select`] is what they say lists with;
//! - [`edge`] is the version-constraint model + bump policy;
//! - [`discover`] is the complement to [`propose`]: it says which *external*
//!   dependency versions to ask the registries ([`registry`]) for, and reports the
//!   repos whose pins need a bump;
//! - [`runner`] materializes a plan into a durable [`pb::Wave`] and drives each
//!   repo through the cascade state machine ([`cascade`]);
//! - [`open`] turns discovery candidates into one change per repo;
//! - [`store`] holds the waves, [`trace`] their timelines, and [`render`] says it
//!   all in text.
//!
//! The engine makes no forge, network or file access of its own. Where one is
//! needed, it says what to ask and is given the reply.
pub mod cascade;
pub mod catalog;
pub mod cli;
pub mod course;
pub mod discover;
pub mod document;
pub mod edge;
pub mod entries;
pub mod enumerate;
pub mod forge;
pub mod graph;
pub mod manifests;
pub mod open;
pub mod pattern;
pub mod pb;
pub mod plan;
pub mod provider;
pub mod registry;
pub mod render;
pub mod runner;
pub mod select;
pub mod sort;
pub mod splice;
pub mod store;
pub mod targets;
pub mod text;
pub mod trace;
pub mod version;

pub use discover::{find_candidates, is_internal, Candidate, Datasource, DiscoverConfig, VersionInfo};
pub use edge::{decide, BumpDecision, DepEdge, EdgeKind, VersionConstraint};
pub use graph::{propose, repo_key, PlanItem, RepoNode, WavePlan};
pub use pb::{
    pb_repo_key, pb_repo_slug, to_forge_change, to_forge_repo, to_pb_change, to_pb_repo,
};
pub use provider::{
    BazelDepProvider, CargoProvider, GraphProvider, NpmProvider, PnpmCatalogProvider, ProviderChain,
};
pub use runner::{
    materialize, next_action, wave_id, ItemAction, NullObserver, WaveObserver, WaveRunner,
};
pub use store::Store;
pub use trace::{project, EventLog, LoggingObserver};
