use resolver_core::dist::{HashAlgorithm, HashDigest, UrlKind, VerbatimUrl, VersionId};
use resolver_core::error::ResolveError;
use resolver_core::filename::{
    path_filename, path_names_wheel, sdist_package_name, wheel_package_name,
};
use resolver_core::index::{
    Archive, HashStrategy, InMemoryIndex, Metadata, MetadataResponse, Requirement, UnnamedRequirement,
    VersionOrUrl,
};
use resolver_core::name::{ExtraName, PackageName};
use resolver_core::table::Table;
use resolver_core::unnamed::{
    classify_scheme, name_in_pkg_info, name_in_pyproject, named, resolve_setup_cfg, Action, Event,
    NamedRequirementsResolver, Project, PyProjectToml, Question, SchemeClass, Tool, ToolPoetry,
    UnresolvedRequirement, UnresolvedRequirementSpecification,
};

fn name(s: &str) -> PackageName {
    PackageName::new(s).unwrap()
}

fn url(text: &str) -> VerbatimUrl {
    let (scheme, rest) = text.split_once("://").unwrap();
    let path = match rest.find('/') {
        Some(i) => &rest[i..],
        None => "",
    };
    VerbatimUrl { scheme: scheme.to_string(), path: path.to_string(), raw: text.to_string() }
}

fn unnamed(text: &str) -> UnnamedRequirement {
    UnnamedRequirement {
        url: url(text),
        extras: vec![ExtraName::new("cli").unwrap()],
        marker: None,
        origin: Some("requirements.in".to_string()),
    }
}

fn empty_index() -> InMemoryIndex {
    InMemoryIndex { packages: Table { entries: vec![] }, distributions: Table { entries: vec![] } }
}

fn step(requirement: &UnnamedRequirement, event: Event, index: &mut InMemoryIndex) -> Action {
    NamedRequirementsResolver::resolve_requirement(requirement, event, &HashStrategy::Off, index)
}

fn archive(n: &str) -> Archive {
    Archive {
        metadata: Metadata { name: name(n), provides_extras: vec![], requires_dist: vec![] },
        hashes: vec![],
    }
}

#[test]
fn wheel_file_names() {
    assert_eq!(wheel_package_name("anyio-4.3.0-py3-none-any.whl").unwrap().as_str(), "anyio");
    assert_eq!(wheel_package_name("Foo_Bar-1.0-1-py3-none-any.whl").unwrap().as_str(), "foo-bar");
    assert!(wheel_package_name("anyio-4.3.0-py3-none-any.WHL").is_none());
    assert!(wheel_package_name("anyio-4.3.0-py3-none.whl").is_none());
    assert!(wheel_package_name("anyio-4.3.0-1-2-py3-none-any.whl").is_none());
    assert!(wheel_package_name("anyio-four-py3-none-any.whl").is_none());
    assert!(wheel_package_name("anyio-1..2-py3-none-any.whl").is_none());
    assert_eq!(wheel_package_name("anyio-1!2.0rc1.post2.dev3+local-py3-none-any.whl").unwrap().as_str(), "anyio");
    assert!(wheel_package_name("-4.3.0-py3-none-any.whl").is_none());
    assert!(wheel_package_name(".whl").is_none());
}

#[test]
fn source_archive_file_names() {
    assert_eq!(sdist_package_name("anyio-4.3.0.tar.gz").unwrap().as_str(), "anyio");
    assert_eq!(sdist_package_name("typing-extensions-4.9.0.zip").unwrap().as_str(), "typing-extensions");
    assert_eq!(sdist_package_name("A.B-1.tar.bz2").unwrap().as_str(), "a-b");
    assert!(sdist_package_name("anyio-4.3.0.tgz").is_none());
    assert!(sdist_package_name("anyio.tar.gz").is_none());
    assert!(sdist_package_name("anyio-main.zip").is_none());
    assert!(sdist_package_name("anyio-.zip").is_none());
    assert_eq!(sdist_package_name("anyio-1.0.post1.tar.gz").unwrap().as_str(), "anyio");
    assert!(sdist_package_name("-1.0.zip").is_none());
}

#[test]
fn paths_and_extensions() {
    assert_eq!(path_filename("/a/b/c.whl").as_deref(), Some("c.whl"));
    assert_eq!(path_filename("/a/b/").as_deref(), Some(""));
    assert_eq!(path_filename("no-slash"), None);
    assert!(path_names_wheel("/a/b/c-1-py3-none-any.whl"));
    assert!(path_names_wheel("/a/b/c.WhL"));
    assert!(!path_names_wheel("/a/b.whl/c"));
    assert!(!path_names_wheel("/a/.whl"));
    assert!(!path_names_wheel("/a/whl"));
    assert!(!path_names_wheel("/a/c.whlx"));
}

#[test]
fn schemes() {
    assert_eq!(classify_scheme("file"), Some(SchemeClass::File));
    assert_eq!(classify_scheme("http"), Some(SchemeClass::Web));
    assert_eq!(classify_scheme("https"), Some(SchemeClass::Web));
    assert_eq!(classify_scheme("git+ssh"), Some(SchemeClass::Git));
    assert_eq!(classify_scheme("git+https"), Some(SchemeClass::Git));
    assert_eq!(classify_scheme("ftp"), None);
    assert_eq!(classify_scheme("FILE"), None);
    assert_eq!(classify_scheme(""), None);
}

#[test]
fn name_headers() {
    assert_eq!(name_in_pkg_info("Metadata-Version: 2.1\nName: Demo.Pkg\nVersion: 1\n").unwrap().as_str(), "demo-pkg");
    assert_eq!(name_in_pkg_info("NAME:   spaced  \r\nName: second\r\n").unwrap().as_str(), "spaced");
    assert!(name_in_pkg_info("Metadata-Version: 2.1\n\nName: body\n").is_none());
    assert!(name_in_pkg_info("Name: not valid!\n").is_none());
    assert!(name_in_pkg_info("Name:\n").is_none());
    assert!(name_in_pkg_info("").is_none());
    assert_eq!(name_in_pkg_info("Name:x").unwrap().as_str(), "x");
}

fn project_file(project: Option<&str>, poetry: Option<Option<&str>>) -> PyProjectToml {
    PyProjectToml {
        project: project.map(|n| Project { name: Some(n.to_string()) }),
        tool: poetry.map(|p| Tool { poetry: Some(ToolPoetry { name: p.map(|n| n.to_string()) }) }),
    }
}

#[test]
fn project_files() {
    assert_eq!(name_in_pyproject(&project_file(Some("Demo"), None)).unwrap().as_str(), "demo");
    assert_eq!(name_in_pyproject(&project_file(Some("demo"), Some(Some("other")))).unwrap().as_str(), "demo");
    assert_eq!(name_in_pyproject(&project_file(None, Some(Some("Po_etry")))).unwrap().as_str(), "po-etry");
    assert!(name_in_pyproject(&project_file(None, Some(None))).is_none());
    assert!(name_in_pyproject(&project_file(None, None)).is_none());
    assert!(name_in_pyproject(&project_file(Some("not valid"), Some(Some("fine")))).is_none());
    assert!(name_in_pyproject(&project_file(Some("fine"), Some(Some("not valid")))).is_none());
    assert!(name_in_pyproject(&PyProjectToml { project: None, tool: Some(Tool { poetry: None }) }).is_none());
}

#[test]
fn a_wheel_is_named_by_its_file_name_or_not_at_all() {
    let mut index = empty_index();
    let action = step(&unnamed("https://x.org/w/anyio-4.3.0-py3-none-any.whl"), Event::Begin, &mut index);
    assert!(matches!(action, Action::Named(n) if n.as_str() == "anyio"));
    let action = step(&unnamed("https://x.org/w/broken.whl"), Event::Begin, &mut index);
    assert!(matches!(action, Action::Failed(ResolveError::InvalidMetadata(f)) if f == "broken.whl"));
}

#[test]
fn a_source_archive_is_named_by_its_file_name_where_it_can_be() {
    let mut index = empty_index();
    let action = step(&unnamed("https://x.org/s/anyio-4.3.0.tar.gz"), Event::Begin, &mut index);
    assert!(matches!(action, Action::Named(n) if n.as_str() == "anyio"));
    let action = step(&unnamed("https://x.org/s/main.tar.gz"), Event::Begin, &mut index);
    assert!(matches!(action, Action::Ask(Question::Build(UrlKind::DirectArchive, _))));
    let action = step(&unnamed("git+https://github.com/a/b"), Event::Begin, &mut index);
    assert!(matches!(action, Action::Ask(Question::Build(UrlKind::Git, _))));
}

#[test]
fn an_unknown_scheme_is_an_error() {
    let mut index = empty_index();
    let action = step(&unnamed("ftp://x.org/pkg"), Event::Begin, &mut index);
    assert!(matches!(action, Action::Failed(ResolveError::UnsupportedUrlScheme(u)) if u == "ftp://x.org/pkg"));
}

#[test]
fn a_directory_is_asked_for_its_files_in_order() {
    let requirement = unnamed("file:///work/localpkg");
    let mut index = empty_index();
    assert!(matches!(step(&requirement, Event::Begin, &mut index), Action::Ask(Question::IsDirectory)));
    assert!(matches!(step(&requirement, Event::Directory(true), &mut index), Action::Ask(Question::PkgInfo)));
    assert!(matches!(step(&requirement, Event::PkgInfo(None), &mut index), Action::Ask(Question::PyProject)));
    let action = step(&requirement, Event::PyProject(Some(project_file(Some("demo"), None))), &mut index);
    let Action::Named(found) = action else { panic!("a name was expected") };
    assert_eq!(found.as_str(), "demo");
    let resolved = named(requirement, found);
    assert_eq!(resolved.name.as_str(), "demo");
    assert!(matches!(&resolved.version_or_url, Some(VersionOrUrl::Url(u)) if u.raw == "file:///work/localpkg"));
    assert_eq!(resolved.extras.len(), 1);
    assert_eq!(resolved.origin.as_deref(), Some("requirements.in"));
}

#[test]
fn the_first_file_that_names_the_project_wins() {
    let requirement = unnamed("file:///work/localpkg");
    let mut index = empty_index();
    let action = step(&requirement, Event::PkgInfo(Some("Name: from-pkg-info\n".to_string())), &mut index);
    assert!(matches!(action, Action::Named(n) if n.as_str() == "from-pkg-info"));
    let action = step(&requirement, Event::PkgInfo(Some("Version: 1\n".to_string())), &mut index);
    assert!(matches!(action, Action::Ask(Question::PyProject)));
    let action = step(&requirement, Event::PyProject(None), &mut index);
    assert!(matches!(action, Action::Ask(Question::SetupCfg)));
    let action = step(&requirement, Event::PyProject(Some(project_file(None, None))), &mut index);
    assert!(matches!(action, Action::Ask(Question::SetupCfg)));
}

#[test]
fn setup_cfg_is_read_as_a_configuration_file() {
    let requirement = unnamed("file:///work/localpkg");
    let mut index = empty_index();
    let text = "[options]\nname = wrong\n\n[metadata]\nName = capital\nname = From_Setup\nversion = 1\n";
    let action = step(&requirement, Event::SetupCfg(Some(text.to_string())), &mut index);
    assert!(matches!(action, Action::Named(n) if n.as_str() == "from-setup"));
    let action = step(&requirement, Event::SetupCfg(Some("[metadata]\nversion = 1\n".to_string())), &mut index);
    assert!(matches!(action, Action::Ask(Question::Build(UrlKind::LocalDirectory, _))));
    let action = step(&requirement, Event::SetupCfg(Some("[metadata\nname = x\n".to_string())), &mut index);
    assert!(matches!(action, Action::Ask(Question::Build(UrlKind::LocalDirectory, _))));
    let action = step(&requirement, Event::SetupCfg(None), &mut index);
    assert!(matches!(action, Action::Ask(Question::Build(UrlKind::LocalDirectory, _))));
    let action = resolve_setup_cfg(&requirement.url, Some("not valid".to_string()), &HashStrategy::Off, &index);
    assert!(matches!(action, Action::Ask(Question::Build(UrlKind::LocalDirectory, _))));
    let action = resolve_setup_cfg(&requirement.url, Some("Ok".to_string()), &HashStrategy::Off, &index);
    assert!(matches!(action, Action::Named(n) if n.as_str() == "ok"));
}

#[test]
fn a_file_that_is_no_directory_is_built() {
    let requirement = unnamed("file:///work/pkg.tar");
    let mut index = empty_index();
    let action = step(&requirement, Event::Directory(false), &mut index);
    assert!(matches!(action, Action::Ask(Question::Build(UrlKind::LocalPath, _))));
}

#[test]
fn a_build_is_kept_in_the_index_and_found_there() {
    let requirement = unnamed("git+https://github.com/a/b");
    let mut index = empty_index();
    let action = step(&requirement, Event::Built(Ok(archive("built"))), &mut index);
    assert!(matches!(action, Action::Named(n) if n.as_str() == "built"));
    assert_eq!(index.distributions.entries.len(), 1);
    assert!(index.distributions.entries[0].0.same(&VersionId::from_url(&requirement.url)));
    let action = step(&requirement, Event::Begin, &mut index);
    assert!(matches!(action, Action::Named(n) if n.as_str() == "built"));
    index.distributions.entries[0].1 = MetadataResponse::Offline;
    let action = step(&requirement, Event::Begin, &mut index);
    assert!(matches!(action, Action::Ask(Question::Build(UrlKind::Git, _))));
}

#[test]
fn a_failed_build_is_an_error() {
    let requirement = unnamed("git+https://github.com/a/b");
    let mut index = empty_index();
    let action = step(&requirement, Event::Built(Err("no backend".to_string())), &mut index);
    assert!(matches!(
        action,
        Action::Failed(ResolveError::MetadataBuildFailed(u, c)) if u == "git+https://github.com/a/b" && c == "no backend"
    ));
    assert!(index.distributions.entries.is_empty());
}

fn listed(requirement: UnresolvedRequirement) -> UnresolvedRequirementSpecification {
    UnresolvedRequirementSpecification { requirement, hashes: vec![] }
}

fn requirements() -> Vec<UnresolvedRequirementSpecification> {
    vec![
        listed(UnresolvedRequirement::Unnamed(unnamed("file:///a"))),
        listed(UnresolvedRequirement::Named(Requirement {
            name: name("given"),
            extras: vec![],
            version_or_url: None,
            marker: None,
            origin: None,
        })),
        listed(UnresolvedRequirement::Unnamed(unnamed("file:///b"))),
    ]
}

#[test]
fn resolve_keeps_the_order_of_the_requirements() {
    let resolver = NamedRequirementsResolver::new(requirements(), HashStrategy::Generate);
    assert_eq!(resolver.unnamed_count(), 2);
    assert!(resolver.unnamed_at(0).is_some());
    assert!(resolver.unnamed_at(1).is_none());
    assert!(resolver.unnamed_at(3).is_none());
    let resolved = resolver.resolve(vec![Ok(name("first")), Ok(name("second"))]).unwrap();
    let names: Vec<&str> = resolved.iter().map(|r| r.name.as_str()).collect();
    assert_eq!(names, vec!["first", "given", "second"]);
    assert!(matches!(&resolved[2].version_or_url, Some(VersionOrUrl::Url(u)) if u.raw == "file:///b"));
}

#[test]
fn resolve_fails_with_the_first_error() {
    let resolver = NamedRequirementsResolver::new(requirements(), HashStrategy::Generate);
    let result = resolver.resolve(vec![
        Err(ResolveError::UnsupportedUrlScheme("one".to_string())),
        Err(ResolveError::UnsupportedUrlScheme("two".to_string())),
    ]);
    assert!(matches!(result, Err(ResolveError::UnsupportedUrlScheme(u)) if u == "one"));
    let resolver = NamedRequirementsResolver::new(vec![], HashStrategy::Off);
    assert!(resolver.resolve(vec![]).unwrap().is_empty());
}

#[test]
fn a_project_table_without_a_name_leaves_the_name_to_the_tool_table() {
    let file = PyProjectToml {
        project: Some(Project { name: None }),
        tool: Some(Tool { poetry: Some(ToolPoetry { name: Some("From.Poetry".to_string()) }) }),
    };
    assert_eq!(name_in_pyproject(&file).unwrap().as_str(), "from-poetry");
    let file = PyProjectToml { project: Some(Project { name: None }), tool: None };
    assert!(name_in_pyproject(&file).is_none());
    let requirement = unnamed("file:///work/localpkg");
    let mut index = empty_index();
    let file = PyProjectToml {
        project: Some(Project { name: None }),
        tool: Some(Tool { poetry: Some(ToolPoetry { name: Some("poet".to_string()) }) }),
    };
    let action = step(&requirement, Event::PyProject(Some(file)), &mut index);
    assert!(matches!(action, Action::Named(n) if n.as_str() == "poet"));
}

#[test]
fn a_build_is_asked_for_with_the_digests_expected_of_the_artifact() {
    let requirement = unnamed("git+https://github.com/a/b");
    let other = unnamed("git+https://github.com/a/c");
    let digest = |d: &str| HashDigest { algorithm: HashAlgorithm::Sha256, digest: d.to_string() };
    let hasher = HashStrategy::Validate(Table {
        entries: vec![
            (VersionId::from_url(&other.url), vec![digest("cc")]),
            (VersionId::from_url(&requirement.url), vec![digest("bb"), digest("aa")]),
        ],
    });
    let mut index = empty_index();
    let action = NamedRequirementsResolver::resolve_requirement(&requirement, Event::Begin, &hasher, &mut index);
    let Action::Ask(Question::Build(UrlKind::Git, expected)) = action else { panic!("a build was expected") };
    let digests: Vec<&str> = expected.iter().map(|h| h.digest.as_str()).collect();
    assert_eq!(digests, vec!["bb", "aa"]);
    let unlisted = unnamed("https://x.org/s/main.tar.gz");
    let action = NamedRequirementsResolver::resolve_requirement(&unlisted, Event::Begin, &hasher, &mut index);
    assert!(matches!(action, Action::Ask(Question::Build(UrlKind::DirectArchive, d)) if d.is_empty()));
    let action =
        NamedRequirementsResolver::resolve_requirement(&requirement, Event::Begin, &HashStrategy::Generate, &mut index);
    assert!(matches!(action, Action::Ask(Question::Build(UrlKind::Git, d)) if d.is_empty()));
    let resolver = NamedRequirementsResolver::new(vec![], hasher);
    assert_eq!(resolver.hasher().get_url(&other.url).len(), 1);
}

#[test]
fn errors_have_messages() {
    assert_eq!(
        ResolveError::UnsupportedUrlScheme("ftp://x.org/pkg".to_string()).message(),
        "Unsupported scheme for unnamed requirement: ftp://x.org/pkg"
    );
    assert_eq!(ResolveError::NoSolution("x needs z<2".to_string()).message(), "No solution found: x needs z<2");
    assert_eq!(
        ResolveError::MetadataBuildFailed("file:///a".to_string(), "no backend".to_string()).message(),
        "Failed to build metadata for file:///a: no backend"
    );
    assert_eq!(ResolveError::IncompatibleMarkers.message(), "The selected packages cannot run in this environment");
    assert_eq!(ResolveError::InvalidUrl("file:a".to_string()).message(), "Invalid URL: file:a");
    assert_eq!(ResolveError::InvalidMetadata("broken.whl".to_string()).message(), "Invalid metadata: broken.whl");
    let mut index = empty_index();
    let Action::Failed(err) = step(&unnamed("ftp://x.org/pkg"), Event::Begin, &mut index) else {
        panic!("an error was expected")
    };
    assert_eq!(err.message(), "Unsupported scheme for unnamed requirement: ftp://x.org/pkg");
}
