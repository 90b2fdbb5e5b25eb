use resolver_core::dist::{HashAlgorithm, HashDigest, ResolvedDist, UrlKind, VerbatimUrl, VersionId};
use resolver_core::error::ResolveError;
use resolver_core::index::{
    Archive, Editable, Editables, FilePins, LocalEditable, Metadata, MetadataResponse, NameVersion,
    Pin, Preferences, VersionMap, VersionsResponse,
};
use resolver_core::name::{ExtraName, PackageName};
use resolver_core::range::VersionRange;
use resolver_core::resolution::{Diagnostic, Resolution, ResolutionGraph};
use resolver_core::solver::{Incompatibility, Kind, PubGrubPackage, SelectedPackage, State};
use resolver_core::table::Table;
use resolver_core::version::Version;

fn name(s: &str) -> PackageName {
    PackageName::new(s).unwrap()
}

fn extra(s: &str) -> ExtraName {
    ExtraName::new(s).unwrap()
}

fn v(release: &[u64]) -> Version {
    Version::new(release.to_vec())
}

fn url(scheme: &str, path: &str) -> VerbatimUrl {
    VerbatimUrl {
        scheme: scheme.to_string(),
        path: path.to_string(),
        raw: format!("{scheme}://{path}"),
    }
}

fn base(n: &str) -> PubGrubPackage {
    PubGrubPackage::Package(name(n), None, None)
}

fn with_extra(n: &str, e: &str) -> PubGrubPackage {
    PubGrubPackage::Package(name(n), Some(extra(e)), None)
}

fn selected(package: PubGrubPackage, version: &[u64]) -> SelectedPackage {
    SelectedPackage { package, version: v(version) }
}

fn registry(n: &str, version: &[u64]) -> ResolvedDist {
    ResolvedDist::Registry {
        name: name(n),
        version: v(version),
        index: Some("https://pypi.org/simple".to_string()),
    }
}

fn pins(entries: &[(&str, &[u64])]) -> FilePins {
    FilePins {
        pins: Table {
            entries: entries
                .iter()
                .map(|(n, ver)| (NameVersion { name: name(n), version: v(ver) }, registry(n, ver)))
                .collect(),
        },
    }
}

fn depends(from: PubGrubPackage, at: VersionRange, on: PubGrubPackage, within: VersionRange) -> Incompatibility {
    Incompatibility { kind: Kind::FromDependencyOf(from, at, on, within) }
}

fn sha(digest: &str) -> HashDigest {
    HashDigest { algorithm: HashAlgorithm::Sha256, digest: digest.to_string() }
}

fn metadata(n: &str, extras: &[&str]) -> Metadata {
    Metadata {
        name: name(n),
        provides_extras: extras.iter().map(|e| extra(e)).collect(),
        requires_dist: vec![],
    }
}

fn found(n: &str, version: &[u64], extras: &[&str]) -> (VersionId, MetadataResponse) {
    (
        VersionId::from_registry(name(n), v(version)),
        MetadataResponse::Found(Archive { metadata: metadata(n, extras), hashes: vec![] }),
    )
}

struct World {
    selection: Vec<SelectedPackage>,
    pins: FilePins,
    packages: Table<PackageName, VersionsResponse>,
    distributions: Table<VersionId, MetadataResponse>,
    state: State,
    preferences: Preferences,
    redirects: Table<VerbatimUrl, VerbatimUrl>,
}

impl World {
    fn assemble(&self, editables: Editables) -> Option<Result<ResolutionGraph, ResolveError>> {
        ResolutionGraph::assemble(
            &self.selection,
            &self.pins,
            &self.packages,
            &self.distributions,
            &self.state,
            &self.preferences,
            editables,
            &self.redirects,
        )
    }

    fn graph(&self) -> ResolutionGraph {
        self.assemble(no_editables()).unwrap().unwrap()
    }
}

fn no_editables() -> Editables {
    Editables { projects: Table { entries: vec![] } }
}

fn flask_world() -> World {
    let flask_at = || VersionRange::singleton(v(&[2, 0, 0]));
    World {
        selection: vec![
            selected(PubGrubPackage::Root(None), &[0]),
            selected(base("flask"), &[2, 0, 0]),
            selected(base("werkzeug"), &[2, 3, 7]),
            selected(base("jinja2"), &[3, 1, 2]),
        ],
        pins: pins(&[("flask", &[2, 0, 0]), ("werkzeug", &[2, 3, 7]), ("jinja2", &[3, 1, 2])]),
        packages: Table {
            entries: vec![(
                name("flask"),
                VersionsResponse::Found(vec![
                    VersionMap { digests: Table { entries: vec![(v(&[1, 0]), vec![sha("00")])] } },
                    VersionMap {
                        digests: Table { entries: vec![(v(&[2, 0, 0]), vec![sha("bb"), sha("aa")])] },
                    },
                ]),
            )],
        },
        distributions: Table { entries: vec![] },
        state: State {
            incompatibilities: Table {
                entries: vec![
                    (PubGrubPackage::Root(None), vec![2]),
                    (base("flask"), vec![0, 1, 2]),
                    (base("werkzeug"), vec![0]),
                    (base("jinja2"), vec![1]),
                ],
            },
            incompatibility_store: vec![
                depends(base("flask"), flask_at(), base("werkzeug"), VersionRange::between(v(&[2]), v(&[3]))),
                depends(base("flask"), flask_at(), base("jinja2"), VersionRange::between(v(&[3]), v(&[4]))),
                Incompatibility { kind: Kind::Other },
            ],
        },
        preferences: Preferences { pins: Table { entries: vec![] } },
        redirects: Table { entries: vec![] },
    }
}

fn edges(graph: &ResolutionGraph) -> Vec<(String, String, VersionRange)> {
    let g = graph.petgraph();
    g.raw_edges()
        .iter()
        .map(|e| {
            (
                g[e.source()].name().as_str().to_string(),
                g[e.target()].name().as_str().to_string(),
                e.weight.clone(),
            )
        })
        .collect()
}

#[test]
fn nodes_follow_the_selection_and_edges_the_dependencies() {
    let graph = flask_world().graph();
    assert_eq!(graph.len(), 3);
    assert!(!graph.is_empty());
    assert!(graph.contains(&name("flask")));
    assert!(graph.contains(&name("Werkzeug")));
    assert!(!graph.contains(&name("click")));
    assert!(graph.diagnostics().is_empty());
    let found = edges(&graph);
    assert_eq!(found.len(), 2);
    assert_eq!((found[0].0.as_str(), found[0].1.as_str()), ("flask", "werkzeug"));
    assert_eq!((found[1].0.as_str(), found[1].1.as_str()), ("flask", "jinja2"));
    assert!(found[0].2.contains(&v(&[2, 3, 7])));
    assert!(!found[0].2.contains(&v(&[3])));
    assert!(found[1].2.contains(&v(&[3, 1, 2])));
    assert!(!found[1].2.contains(&v(&[2, 9])));
    let dists = graph.into_distributions();
    let texts: Vec<String> = dists.iter().map(|d| d.verbatim()).collect();
    assert_eq!(texts, vec!["flask==2.0.0", "werkzeug==2.3.7", "jinja2==3.1.2"]);
}

#[test]
fn every_edge_admits_the_version_of_its_target() {
    let graph = flask_world().graph();
    let g = graph.petgraph();
    for e in g.raw_edges() {
        match &g[e.target()] {
            ResolvedDist::Registry { version, .. } => assert!(e.weight.contains(version)),
            _ => panic!("a registry node was expected"),
        }
        assert_ne!(e.source(), e.target());
    }
}

#[test]
fn the_empty_selection_gives_the_empty_graph() {
    let mut world = flask_world();
    world.selection = vec![];
    let graph = world.graph();
    assert_eq!(graph.len(), 0);
    assert!(graph.is_empty());
    assert!(edges(&graph).is_empty());
}

#[test]
fn a_dependency_of_another_version_adds_no_edge() {
    let mut world = flask_world();
    world.state.incompatibility_store[0] = depends(
        base("flask"),
        VersionRange::singleton(v(&[1, 0])),
        base("werkzeug"),
        VersionRange::full(),
    );
    let found = edges(&world.graph());
    assert_eq!(found.len(), 1);
    assert_eq!(found[0].1, "jinja2");
}

#[test]
fn a_dependency_listed_under_its_target_adds_no_edge() {
    let mut world = flask_world();
    world.state.incompatibilities.entries[1].1 = vec![1];
    let found = edges(&world.graph());
    assert_eq!(found.len(), 1);
    assert_eq!((found[0].0.as_str(), found[0].1.as_str()), ("flask", "jinja2"));
}

#[test]
fn of_two_ranges_on_one_edge_the_later_stays() {
    let mut world = flask_world();
    world.state.incompatibility_store[1] = depends(
        base("flask"),
        VersionRange::full(),
        base("werkzeug"),
        VersionRange::higher_than(v(&[2, 3])),
    );
    let found = edges(&world.graph());
    assert_eq!(found.len(), 1);
    assert_eq!(found[0].1, "werkzeug");
    assert!(found[0].2.contains(&v(&[5])));
    assert!(!found[0].2.contains(&v(&[2, 2])));
}

#[test]
fn published_digests_are_sorted_and_preferences_go_first() {
    let world = flask_world();
    let lock = world.graph().lock().unwrap();
    let digests: Vec<&str> = lock.distributions[0].hashes.iter().map(|h| h.digest.as_str()).collect();
    assert_eq!(digests, vec!["aa", "bb"]);
    assert!(lock.distributions[1].hashes.is_empty());

    let mut preferred = flask_world();
    preferred.preferences.pins.entries = vec![
        (name("flask"), Pin { version: v(&[2, 0, 0]), hashes: vec![sha("cc")] }),
        (name("werkzeug"), Pin { version: v(&[2, 0]), hashes: vec![sha("dd")] }),
        (name("jinja2"), Pin { version: v(&[3, 1, 2]), hashes: vec![] }),
    ];
    let lock = preferred.graph().lock().unwrap();
    let digests: Vec<&str> = lock.distributions[0].hashes.iter().map(|h| h.digest.as_str()).collect();
    assert_eq!(digests, vec!["cc"]);
    assert!(lock.distributions[1].hashes.is_empty());
    assert!(lock.distributions[2].hashes.is_empty());
}

#[test]
fn a_declared_extra_is_recorded_and_adds_no_node() {
    let mut world = flask_world();
    world.selection = vec![
        selected(base("pkg-a"), &[1, 0]),
        selected(with_extra("pkg-a", "cli"), &[1, 0]),
        selected(base("rich"), &[13]),
    ];
    world.pins = pins(&[("pkg-a", &[1, 0]), ("rich", &[13])]);
    world.distributions.entries = vec![found("pkg-a", &[1, 0], &["cli", "dev"])];
    world.state = State {
        incompatibilities: Table {
            entries: vec![
                (base("pkg-a"), vec![0]),
                (with_extra("pkg-a", "cli"), vec![0, 1]),
                (base("rich"), vec![1]),
            ],
        },
        incompatibility_store: vec![
            depends(with_extra("pkg-a", "cli"), VersionRange::full(), base("pkg-a"), VersionRange::singleton(v(&[1, 0]))),
            depends(with_extra("pkg-a", "cli"), VersionRange::full(), base("rich"), VersionRange::higher_than(v(&[10]))),
        ],
    };
    let graph = world.graph();
    assert_eq!(graph.len(), 2);
    assert!(graph.diagnostics().is_empty());
    let found_edges = edges(&graph);
    assert_eq!(found_edges.len(), 1);
    assert_eq!((found_edges[0].0.as_str(), found_edges[0].1.as_str()), ("pkg-a", "rich"));
    assert!(found_edges[0].2.contains(&v(&[13])));
    let shown = resolver_core::display::DisplayResolutionGraph::new(
        &graph,
        &[],
        false,
        true,
        false,
        false,
        resolver_core::resolution::AnnotationStyle::Split,
        resolver_core::display::SourceAnnotations::default(),
    )
    .to_string();
    assert_eq!(shown, "pkg-a[cli]==1.0\nrich==13\n");
}

#[test]
fn an_undeclared_extra_is_a_diagnostic() {
    let mut world = flask_world();
    world.selection = vec![selected(base("pkg-a"), &[1, 0]), selected(with_extra("pkg-a", "missing"), &[1, 0])];
    world.pins = pins(&[("pkg-a", &[1, 0])]);
    world.distributions.entries = vec![found("pkg-a", &[1, 0], &[])];
    world.state = State {
        incompatibilities: Table { entries: vec![(base("pkg-a"), vec![]), (with_extra("pkg-a", "missing"), vec![])] },
        incompatibility_store: vec![],
    };
    let graph = world.graph();
    assert_eq!(graph.len(), 1);
    assert!(graph.contains(&name("pkg-a")));
    let diagnostics = graph.diagnostics();
    assert_eq!(diagnostics.len(), 1);
    assert!(matches!(&diagnostics[0], Diagnostic::MissingExtra { extra: e, .. } if e.as_str() == "missing"));
    assert_eq!(
        diagnostics[0].message(),
        "The package `pkg-a==1.0` does not have an extra named `missing`."
    );
    assert!(diagnostics[0].includes(&name("pkg-a")));
    assert!(!diagnostics[0].includes(&name("rich")));
}

#[test]
fn a_url_package_becomes_a_url_node_without_registry_digests() {
    let demo = url("file", "/work/localpkg");
    let mut world = flask_world();
    world.selection = vec![
        selected(PubGrubPackage::Package(name("demo"), None, Some(demo.clone())), &[0, 1]),
        selected(base("click"), &[8, 1]),
    ];
    world.pins = pins(&[("click", &[8, 1])]);
    world.packages.entries = vec![(name("demo"), VersionsResponse::Found(vec![VersionMap {
        digests: Table { entries: vec![(v(&[0, 1]), vec![sha("ee")])] },
    }]))];
    world.state = State {
        incompatibilities: Table {
            entries: vec![
                (PubGrubPackage::Package(name("demo"), None, Some(demo.clone())), vec![0]),
                (base("click"), vec![0]),
            ],
        },
        incompatibility_store: vec![depends(
            PubGrubPackage::Package(name("demo"), None, Some(demo.clone())),
            VersionRange::full(),
            base("click"),
            VersionRange::full(),
        )],
    };
    let graph = world.graph();
    assert_eq!(edges(&graph).len(), 1);
    let lock = graph.lock().unwrap();
    assert!(lock.distributions[0].hashes.is_empty());
    assert_eq!(lock.distributions[0].url.as_deref(), Some("file:///work/localpkg"));
    let dists = graph.into_distributions();
    assert!(matches!(&dists[0], ResolvedDist::Url { kind: UrlKind::LocalPath, .. }));
    assert_eq!(dists[0].verbatim(), "demo @ file:///work/localpkg");
    assert!(matches!(&dists[1], ResolvedDist::Registry { .. }));
}

#[test]
fn kinds_of_url_go_by_scheme_and_redirects_are_applied() {
    let git = url("git+https", "github.com/a/b@main");
    let precise = url("git+https", "github.com/a/b@0123abc");
    let mut world = flask_world();
    world.selection = vec![
        selected(PubGrubPackage::Package(name("a"), None, Some(git.clone())), &[1]),
        selected(PubGrubPackage::Package(name("b"), None, Some(url("https", "x.org/b-1.0.tar.gz"))), &[1]),
    ];
    world.state = State {
        incompatibilities: Table {
            entries: vec![
                (PubGrubPackage::Package(name("a"), None, Some(git.clone())), vec![]),
                (PubGrubPackage::Package(name("b"), None, Some(url("https", "x.org/b-1.0.tar.gz"))), vec![]),
            ],
        },
        incompatibility_store: vec![],
    };
    world.redirects.entries = vec![(git, precise)];
    let dists = world.graph().into_distributions();
    assert!(matches!(&dists[0], ResolvedDist::Url { kind: UrlKind::Git, url, .. } if url.raw == "git+https://github.com/a/b@0123abc"));
    assert!(matches!(&dists[1], ResolvedDist::Url { kind: UrlKind::DirectArchive, .. }));
}

#[test]
fn a_file_url_without_absolute_path_is_an_error() {
    let bad = VerbatimUrl { scheme: "FILE".to_string(), path: "relative".to_string(), raw: "file:relative".to_string() };
    let mut world = flask_world();
    world.selection = vec![selected(PubGrubPackage::Package(name("a"), None, Some(bad)), &[1])];
    let result = world.assemble(no_editables()).unwrap();
    assert!(matches!(result, Err(ResolveError::InvalidUrl(u)) if u == "file:relative"));
}

#[test]
fn an_editable_project_stands_for_its_package() {
    let mut world = flask_world();
    world.selection.push(selected(with_extra("flask", "async"), &[2, 0, 0]));
    world.state.incompatibilities.entries.push((with_extra("flask", "async"), vec![]));
    let editables = Editables {
        projects: Table {
            entries: vec![(
                name("flask"),
                Editable {
                    editable: LocalEditable {
                        url: url("file", "/src/flask"),
                        path: "/src/flask".to_string(),
                        extras: vec![],
                    },
                    metadata: metadata("flask", &["async"]),
                },
            )],
        },
    };
    let graph = world.assemble(editables).unwrap().unwrap();
    let shown = resolver_core::display::DisplayResolutionGraph::new(
        &graph,
        &[],
        false,
        true,
        false,
        false,
        resolver_core::resolution::AnnotationStyle::Split,
        resolver_core::display::SourceAnnotations::default(),
    )
    .to_string();
    assert_eq!(shown, "-e file:///src/flask\njinja2==3.1.2\nwerkzeug==2.3.7\n");
    let dists = graph.into_distributions();
    assert!(matches!(&dists[0], ResolvedDist::Editable { path, .. } if path == "/src/flask"));
}

#[test]
fn a_missing_table_entry_is_told_apart_from_an_error() {
    let mut unpinned = flask_world();
    unpinned.pins.pins.entries.remove(1);
    assert!(unpinned.assemble(no_editables()).is_none());

    let mut unknown_incompatibility = flask_world();
    unknown_incompatibility.state.incompatibilities.entries[1].1.push(7);
    assert!(unknown_incompatibility.assemble(no_editables()).is_none());

    let mut unlisted = flask_world();
    unlisted.state.incompatibilities.entries.remove(3);
    assert!(unlisted.assemble(no_editables()).is_none());

    let mut no_metadata = flask_world();
    no_metadata.selection.push(selected(with_extra("flask", "async"), &[2, 0, 0]));
    assert!(no_metadata.assemble(no_editables()).is_none());

    let mut no_node = flask_world();
    no_node.selection.remove(2);
    assert!(no_node.assemble(no_editables()).is_none());
}

#[test]
fn from_state_builds_what_assemble_builds() {
    let world = flask_world();
    let graph = ResolutionGraph::from_state(
        &world.selection,
        &world.pins,
        &world.packages,
        &world.distributions,
        &world.state,
        &world.preferences,
        no_editables(),
        &world.redirects,
    )
    .unwrap();
    assert_eq!(graph.len(), 3);
    assert_eq!(edges(&graph).len(), 2);
}

#[test]
fn assembling_twice_gives_the_same_graph_and_lock() {
    let first = flask_world().graph();
    let second = flask_world().graph();
    let show = |g: &ResolutionGraph| resolver_core::display::DisplayResolutionGraph::from(g).to_string();
    assert_eq!(show(&first), show(&second));
    assert_eq!(format!("{:?}", first.lock()), format!("{:?}", second.lock()));
}

#[test]
fn resolution_holds_each_distribution_under_its_name() {
    let resolution = Resolution::from(flask_world().graph());
    let names: Vec<&str> = resolution.distributions.entries.iter().map(|(n, _)| n.as_str()).collect();
    assert_eq!(names, vec!["flask", "werkzeug", "jinja2"]);
    assert_eq!(resolution.distributions.get(&name("jinja2")).unwrap().verbatim(), "jinja2==3.1.2");
}

#[test]
fn an_edge_keeps_the_range_of_the_dependency_itself() {
    let mut world = flask_world();
    world.selection = vec![
        selected(PubGrubPackage::Root(None), &[0]),
        selected(base("requests"), &[2, 31, 0]),
        selected(base("urllib3"), &[1, 26, 18]),
    ];
    world.pins = pins(&[("requests", &[2, 31, 0]), ("urllib3", &[1, 26, 18])]);
    world.state = State {
        incompatibilities: Table {
            entries: vec![
                (PubGrubPackage::Root(None), vec![0, 1]),
                (base("requests"), vec![0, 2]),
                (base("urllib3"), vec![1, 2]),
            ],
        },
        incompatibility_store: vec![
            depends(PubGrubPackage::Root(None), VersionRange::full(), base("requests"), VersionRange::full()),
            depends(
                PubGrubPackage::Root(None),
                VersionRange::full(),
                base("urllib3"),
                VersionRange::strictly_lower_than(v(&[2])),
            ),
            depends(
                base("requests"),
                VersionRange::full(),
                base("urllib3"),
                VersionRange::between(v(&[1, 21]), v(&[3])),
            ),
        ],
    };
    let graph = world.graph();
    assert_eq!(graph.len(), 2);
    let found = edges(&graph);
    assert_eq!(found.len(), 1);
    assert_eq!((found[0].0.as_str(), found[0].1.as_str()), ("requests", "urllib3"));
    assert!(found[0].2.contains(&v(&[1, 26, 18])));
    assert!(found[0].2.contains(&v(&[2, 5])));
    assert!(!found[0].2.contains(&v(&[1, 20])));
    assert!(!found[0].2.contains(&v(&[3])));
}

#[test]
fn no_two_nodes_are_the_same_package() {
    let dists = flask_world().graph().into_distributions();
    for i in 0..dists.len() {
        for j in 0..i {
            assert!(*dists[i].name() != *dists[j].name());
        }
    }
}

#[test]
fn digests_fed_back_as_preferences_give_the_same_lock() {
    let lock = flask_world().graph().lock().unwrap();
    let mut again = flask_world();
    again.preferences.pins.entries = lock
        .distributions
        .iter()
        .map(|d| (d.name.clone(), Pin { version: d.version.clone().unwrap(), hashes: d.hashes.clone() }))
        .collect();
    let relocked = again.graph().lock().unwrap();
    assert_eq!(format!("{lock:?}"), format!("{relocked:?}"));
    let digests: Vec<&str> = relocked.distributions[0].hashes.iter().map(|h| h.digest.as_str()).collect();
    assert_eq!(digests, vec!["aa", "bb"]);
}
