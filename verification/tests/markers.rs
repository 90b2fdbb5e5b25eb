use resolver_core::dist::{ResolvedDist, VersionId};
use resolver_core::index::{
    Archive, Editables, FilePins, InMemoryIndex, LocalEditable, Metadata, MetadataResponse,
    NameVersion, Preferences, Requirement,
};
use resolver_core::manifest::{Manifest, ManifestEditable};
use resolver_core::marker::{
    add_marker_params_from_tree, add_marker_value, project, MarkerEnvironment, MarkerExpression,
    MarkerOperator, MarkerParam, MarkerTree, MarkerValue, MarkerValueString, MarkerValueVersion,
};
use resolver_core::name::PackageName;
use resolver_core::resolution::ResolutionGraph;
use resolver_core::solver::{PubGrubPackage, SelectedPackage, State};
use resolver_core::table::Table;
use resolver_core::version::Version;

fn name(s: &str) -> PackageName {
    PackageName::new(s).unwrap()
}

fn env() -> MarkerEnvironment {
    MarkerEnvironment {
        implementation_name: "cpython".to_string(),
        implementation_version: Version::new(vec![3, 12, 1]),
        os_name: "posix".to_string(),
        platform_machine: "x86_64".to_string(),
        platform_python_implementation: "CPython".to_string(),
        platform_release: "6.5.0".to_string(),
        platform_system: "Linux".to_string(),
        platform_version: "#1 SMP".to_string(),
        python_full_version: Version::new(vec![3, 12, 1]),
        python_version: Version::new(vec![3, 12]),
        sys_platform: "linux".to_string(),
    }
}

fn expr(l: MarkerValue, op: MarkerOperator, r: MarkerValue) -> MarkerTree {
    MarkerTree::Expression(MarkerExpression { l_value: l, operator: op, r_value: r })
}

fn quoted(s: &str) -> MarkerValue {
    MarkerValue::QuotedString(s.to_string())
}

fn on_platform(platform: &str) -> MarkerTree {
    expr(MarkerValue::MarkerEnvString(MarkerValueString::SysPlatform), MarkerOperator::Equal, quoted(platform))
}

fn python_at_least(version: &str) -> MarkerTree {
    expr(quoted(version), MarkerOperator::LessEqual, MarkerValue::MarkerEnvVersion(MarkerValueVersion::PythonVersion))
}

fn requirement(n: &str, marker: Option<MarkerTree>) -> Requirement {
    Requirement { name: name(n), extras: vec![], version_or_url: None, marker, origin: None }
}

fn pinned(tree: &MarkerTree) -> Vec<(String, String)> {
    let MarkerTree::And(conjuncts) = tree else { panic!("a conjunction was expected") };
    conjuncts
        .iter()
        .map(|c| match c {
            MarkerTree::Expression(MarkerExpression {
                l_value,
                operator: MarkerOperator::Equal,
                r_value: MarkerValue::QuotedString(s),
            }) => (format!("{l_value:?}"), s.clone()),
            other => panic!("an equality was expected, not {other:?}"),
        })
        .collect()
}

#[test]
fn parameters_are_collected_once_in_order_of_occurrence() {
    let tree = MarkerTree::And(vec![
        on_platform("darwin"),
        MarkerTree::Or(vec![python_at_least("3.8"), on_platform("win32")]),
        expr(MarkerValue::Extra, MarkerOperator::Equal, quoted("cli")),
        expr(quoted("a"), MarkerOperator::In, quoted("abc")),
        expr(
            MarkerValue::MarkerEnvString(MarkerValueString::OsName),
            MarkerOperator::NotEqual,
            MarkerValue::MarkerEnvString(MarkerValueString::SysPlatform),
        ),
    ]);
    let mut set = vec![];
    add_marker_params_from_tree(&tree, &mut set);
    assert_eq!(
        set,
        vec![
            MarkerParam::String(MarkerValueString::SysPlatform),
            MarkerParam::Version(MarkerValueVersion::PythonVersion),
            MarkerParam::String(MarkerValueString::OsName),
        ]
    );
}

#[test]
fn quoted_strings_and_extras_are_not_collected() {
    let mut set = vec![];
    add_marker_value(&quoted("linux"), &mut set);
    add_marker_value(&MarkerValue::Extra, &mut set);
    assert!(set.is_empty());
    add_marker_value(&MarkerValue::MarkerEnvVersion(MarkerValueVersion::PythonFullVersion), &mut set);
    add_marker_value(&MarkerValue::MarkerEnvVersion(MarkerValueVersion::PythonFullVersion), &mut set);
    assert_eq!(set, vec![MarkerParam::Version(MarkerValueVersion::PythonFullVersion)]);
}

#[test]
fn projection_pins_each_parameter_to_the_environment() {
    let tree = project(
        &vec![
            MarkerParam::String(MarkerValueString::SysPlatform),
            MarkerParam::Version(MarkerValueVersion::PythonVersion),
            MarkerParam::String(MarkerValueString::PlatformMachineDeprecated),
        ],
        &env(),
    );
    assert_eq!(
        pinned(&tree),
        vec![
            ("MarkerEnvString(SysPlatform)".to_string(), "linux".to_string()),
            ("MarkerEnvVersion(PythonVersion)".to_string(), "3.12".to_string()),
            ("MarkerEnvString(PlatformMachineDeprecated)".to_string(), "x86_64".to_string()),
        ]
    );
}

#[test]
fn projection_of_nothing_is_the_empty_conjunction() {
    assert!(matches!(project(&vec![], &env()), MarkerTree::And(c) if c.is_empty()));
}

fn graph_and_index() -> (ResolutionGraph, InMemoryIndex) {
    let foo = || name("foo");
    let version = || Version::new(vec![1]);
    let selection = vec![SelectedPackage {
        package: PubGrubPackage::Package(foo(), None, None),
        version: version(),
    }];
    let pins = FilePins {
        pins: Table {
            entries: vec![(
                NameVersion { name: foo(), version: version() },
                ResolvedDist::Registry { name: foo(), version: version(), index: None },
            )],
        },
    };
    let state = State {
        incompatibilities: Table { entries: vec![(PubGrubPackage::Package(foo(), None, None), vec![])] },
        incompatibility_store: vec![],
    };
    let index = InMemoryIndex {
        packages: Table { entries: vec![] },
        distributions: Table {
            entries: vec![(
                VersionId::from_registry(foo(), version()),
                MetadataResponse::Found(Archive {
                    metadata: Metadata {
                        name: foo(),
                        provides_extras: vec![],
                        requires_dist: vec![
                            requirement("bar", Some(python_at_least("3.8"))),
                            requirement("baz", None),
                            requirement("qux", Some(on_platform("win32"))),
                        ],
                    },
                    hashes: vec![],
                }),
            )],
        },
    };
    let graph = ResolutionGraph::assemble(
        &selection,
        &pins,
        &index.packages,
        &index.distributions,
        &state,
        &Preferences { pins: Table { entries: vec![] } },
        Editables { projects: Table { entries: vec![] } },
        &Table { entries: vec![] },
    )
    .unwrap()
    .unwrap();
    (graph, index)
}

fn manifest() -> Manifest {
    Manifest {
        requirements: vec![requirement(
            "foo",
            Some(expr(
                MarkerValue::MarkerEnvString(MarkerValueString::OsName),
                MarkerOperator::Equal,
                quoted("nt"),
            )),
        )],
        constraints: vec![],
        overrides: vec![],
        editables: vec![],
        preferences: Preferences { pins: Table { entries: vec![] } },
    }
}

#[test]
fn marker_tree_pins_what_the_nodes_and_the_direct_requirements_look_at() {
    let (graph, index) = graph_and_index();
    let tree = graph.marker_tree(&manifest(), &index, &env());
    assert_eq!(
        pinned(&tree),
        vec![
            ("MarkerEnvVersion(PythonVersion)".to_string(), "3.12".to_string()),
            ("MarkerEnvString(SysPlatform)".to_string(), "linux".to_string()),
            ("MarkerEnvString(OsName)".to_string(), "posix".to_string()),
        ]
    );
}

#[test]
fn overrides_stand_in_place_and_constraints_follow() {
    let (graph, index) = graph_and_index();
    let mut manifest = manifest();
    manifest.overrides = vec![
        requirement("qux", Some(expr(
            MarkerValue::MarkerEnvString(MarkerValueString::PlatformSystem),
            MarkerOperator::Equal,
            quoted("Linux"),
        ))),
        requirement("qux", None),
    ];
    manifest.constraints = vec![requirement("baz", Some(expr(
        MarkerValue::MarkerEnvVersion(MarkerValueVersion::ImplementationVersion),
        MarkerOperator::GreaterThan,
        quoted("3"),
    )))];
    manifest.editables = vec![ManifestEditable {
        editable: LocalEditable {
            url: resolver_core::dist::VerbatimUrl {
                scheme: "file".to_string(),
                path: "/e".to_string(),
                raw: "file:///e".to_string(),
            },
            path: "/e".to_string(),
            extras: vec![],
        },
        metadata: Metadata { name: name("e"), provides_extras: vec![], requires_dist: vec![] },
        dependencies: vec![requirement("dep", Some(on_platform("linux")))],
    }];
    let tree = graph.try_marker_tree(&manifest, &index, &env()).unwrap();
    let names: Vec<String> = pinned(&tree).into_iter().map(|(p, _)| p).collect();
    assert_eq!(
        names,
        vec![
            "MarkerEnvVersion(PythonVersion)",
            "MarkerEnvVersion(ImplementationVersion)",
            "MarkerEnvString(PlatformSystem)",
            "MarkerEnvString(OsName)",
            "MarkerEnvString(SysPlatform)",
        ]
    );
}

#[test]
fn without_metadata_for_a_node_there_is_no_marker_tree() {
    let (graph, mut index) = graph_and_index();
    index.distributions.entries[0].1 = MarkerResponseMissing::value();
    assert!(graph.try_marker_tree(&manifest(), &index, &env()).is_none());
    index.distributions.entries.clear();
    assert!(graph.try_marker_tree(&manifest(), &index, &env()).is_none());
}

struct MarkerResponseMissing;

impl MarkerResponseMissing {
    fn value() -> MetadataResponse {
        MetadataResponse::Missing
    }
}
