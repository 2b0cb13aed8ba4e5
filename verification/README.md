# wave

`wave` propagates a dependency-version bump through a graph of separate
repositories: an upstream publishes a new version, downstream repos open bump
changes, merge them on green, publish their own new version, and the cascade
continues — in dependency order. Its complement, discovery, scans the same
manifests for external dependencies that a registry has a newer version of.

The engine under `src/` is verified with Verus: every function has a contract
that says what it returns, and the laws that relate several functions are public
proof functions. The engine makes no forge, network or file access. Where one is
needed, it says what to ask (`cascade::ForgeRequest`, `discover::lookups`,
`enumerate::gitlab_page_url`, …) and is given the reply.

| module | what it is |
| --- | --- |
| `text`, `sort`, `targets`, `version`, `pattern`, `document` | the primitives: strings, stable sorting, ordered targets, semantic versions, regular-expression surgery, JSON and TOML documents |
| `edge`, `provider`, `graph` | dependency edges and the bump policy, the manifest kinds, and the tiered plan of a cascade |
| `splice`, `entries`, `catalog` | what a bump leaves as it is, and what a bumped manifest reads as |
| `pb`, `forge`, `store`, `trace` | the stored messages, the forge's vocabulary, the wave store, the event log and its timeline |
| `cascade`, `runner` | the state machine of one repo, and the resumable run over a wave |
| `discover`, `registry`, `enumerate`, `open` | external updates, the registries, the repos of a group, and one change per repo |
| `render`, `cli` | text reports and what the command line decides |

`app/` is the program around the engine: arguments, HTTP, the forge and the
files. It needs the `fastverk-forge` crate.

What is not proved is listed where it stands: a call into another crate sits in a
small function whose doc comment names the call and says what is taken on trust.
