//! Names for requirements that give only a URL: from the file name of an
//! artifact, from the static metadata of a source tree, or from a build.

use crate::dist::{
    HashDigest, HashDigestView, UrlKind, VerbatimUrl, VerbatimUrlView, VersionId, VersionIdView,
};
use crate::error::{ResolveError, ResolveErrorView};
use crate::filename::{
    last_segment, names_wheel, path_filename, path_names_wheel, sdist_name, sdist_package_name,
    wheel_name, wheel_package_name,
};
use crate::index::{
    Archive, HashStrategy, InMemoryIndex, MetadataResponse, Requirement, UnnamedRequirement,
    VersionOrUrl,
};
use crate::name::{is_valid_name, normalized, PackageName};
use crate::table::{lookup, put};
use crate::text::{chars_of, is_blank, line_end, string_of, text_same, trimmed_len};
use vstd::prelude::*;

verus! {

/// The place of the first character at or after `from`, and before `to`,
/// that is no white space; `to` where there is none.
pub open spec fn skip_blanks(s: Seq<char>, from: int, to: int) -> int
    decreases to - from,
{
    if from >= to || from < 0 || from >= s.len() || !is_blank(s[from]) {
        from
    } else {
        skip_blanks(s, from + 1, to)
    }
}

/// The line `s[from..to]` begins with `name:`, in any case of letters.
pub open spec fn is_name_header(s: Seq<char>, from: int, to: int) -> bool {
    &&& 0 <= from
    &&& from + 5 <= to <= s.len()
    &&& (s[from] == 'n' || s[from] == 'N')
    &&& (s[from + 1] == 'a' || s[from + 1] == 'A')
    &&& (s[from + 2] == 'm' || s[from + 2] == 'M')
    &&& (s[from + 3] == 'e' || s[from + 3] == 'E')
    &&& s[from + 4] == ':'
}

/// The value of the first `Name` header among the header lines from `from`
/// on: the lines up to the first empty one. White space around the value
/// does not count.
pub open spec fn header_name(s: Seq<char>, from: int) -> Option<Seq<char>>
    decreases s.len() - from,
{
    if from < 0 || from >= s.len() {
        None
    } else {
        let end = line_end(s, from);
        let stop = from + trimmed_len(s, from, end);
        if stop == from {
            None
        } else if is_name_header(s, from, stop) {
            Some(s.subrange(skip_blanks(s, from + 5, stop), stop))
        } else if from <= end && end + 1 < s.len() {
            header_name(s, end + 1)
        } else {
            None
        }
    }
}

/// The name in the text, where it is a valid name: in normal form.
pub open spec fn valid_name(text: Option<Seq<char>>) -> Option<Seq<char>> {
    match text {
        Some(t) => if is_valid_name(t) {
            Some(normalized(t))
        } else {
            None
        },
        None => None,
    }
}

/// The name that the metadata file of a source tree gives.
pub open spec fn pkg_info_name(contents: Seq<char>) -> Option<Seq<char>> {
    valid_name(header_name(contents, 0))
}

fn to_name(text: Option<String>) -> (r: Option<PackageName>)
    ensures
        r.deep_view() == valid_name(text.deep_view()),
{
    match text {
        Some(t) => match PackageName::new(t.as_str()) {
            Ok(n) => Some(n),
            Err(_) => None,
        },
        None => None,
    }
}

fn find_header_name(s: &Vec<char>) -> (r: Option<String>)
    ensures
        r.deep_view() == header_name(s@, 0),
{
    let n = s.len();
    let mut from: usize = 0;
    while from < n
        invariant
            from <= n,
            n == s.len(),
            header_name(s@, 0) == header_name(s@, from as int),
        decreases n - from,
    {
        let mut end: usize = from;
        while end < n && s[end] != '\n'
            invariant
                from <= end <= n,
                n == s.len(),
                line_end(s@, from as int) == line_end(s@, end as int),
            decreases n - end,
        {
            end += 1;
        }
        let mut stop: usize = end;
        while stop > from && blank_at(s, stop - 1)
            invariant
                from <= stop <= end <= n,
                n == s.len(),
                trimmed_len(s@, from as int, end as int) == trimmed_len(
                    s@,
                    from as int,
                    stop as int,
                ),
            decreases stop,
        {
            stop -= 1;
        }
        if stop == from {
            return None;
        }
        if stop - from >= 5 && (s[from] == 'n' || s[from] == 'N') && (s[from + 1] == 'a' || s[from
            + 1] == 'A') && (s[from + 2] == 'm' || s[from + 2] == 'M') && (s[from + 3] == 'e'
            || s[from + 3] == 'E') && s[from + 4] == ':' {
            let mut begin: usize = from + 5;
            while begin < stop && blank_at(s, begin)
                invariant
                    from + 5 <= begin <= stop <= n,
                    n == s.len(),
                    skip_blanks(s@, from + 5, stop as int) == skip_blanks(
                        s@,
                        begin as int,
                        stop as int,
                    ),
                decreases stop - begin,
            {
                begin += 1;
            }
            return Some(string_of(s, begin, stop));
        }
        if n - end <= 1 {
            return None;
        }
        from = end + 1;
    }
    None
}

fn blank_at(s: &Vec<char>, i: usize) -> (r: bool)
    requires
        i < s.len(),
    ensures
        r == is_blank(s@[i as int]),
{
    let n = s[i] as u32;
    (0x09 <= n && n <= 0x0d) || n == 0x20 || n == 0x85 || n == 0xa0 || n == 0x1680 || (0x2000 <= n
        && n <= 0x200a) || n == 0x2028 || n == 0x2029 || n == 0x202f || n == 0x205f || n == 0x3000
}

/// The name that the metadata file of a source tree gives.
pub fn name_in_pkg_info(contents: &str) -> (r: Option<PackageName>)
    ensures
        r.deep_view() == pkg_info_name(contents@),
{
    let s = chars_of(contents);
    to_name(find_header_name(&s))
}

/// The `project` table of a project file.
#[derive(Debug)]
pub struct Project {
    pub name: Option<String>,
}

/// The `tool.poetry` table of a project file.
#[derive(Debug)]
pub struct ToolPoetry {
    pub name: Option<String>,
}

/// The `tool` table of a project file.
#[derive(Debug)]
pub struct Tool {
    pub poetry: Option<ToolPoetry>,
}

/// A project file, as far as names go.
#[derive(Debug)]
pub struct PyProjectToml {
    pub project: Option<Project>,
    pub tool: Option<Tool>,
}

/// The name in the `tool.poetry` table, as it is written.
pub open spec fn poetry_name(file: PyProjectToml) -> Option<Seq<char>> {
    match file.tool {
        Some(Tool { poetry: Some(ToolPoetry { name: Some(n) }) }) => Some(n@),
        _ => None,
    }
}

/// The name in the `project` table, as it is written.
pub open spec fn project_name(file: PyProjectToml) -> Option<Seq<char>> {
    match file.project {
        Some(Project { name: Some(n) }) => Some(n@),
        _ => None,
    }
}

/// The name that a project file gives: that of the `project` table where
/// it holds one, else that of the `tool.poetry` table. A file in which one
/// of the two is written and is no valid name gives none.
pub open spec fn pyproject_name(file: PyProjectToml) -> Option<Seq<char>> {
    let project = project_name(file);
    let poetry = poetry_name(file);
    if (project is Some && valid_name(project) is None) || (poetry is Some && valid_name(poetry)
        is None) {
        None
    } else if project is Some {
        valid_name(project)
    } else {
        valid_name(poetry)
    }
}

/// The name that a project file gives.
pub fn name_in_pyproject(file: &PyProjectToml) -> (r: Option<PackageName>)
    ensures
        r.deep_view() == pyproject_name(*file),
{
    let poetry: Option<&String> = match &file.tool {
        Some(Tool { poetry: Some(ToolPoetry { name: Some(n) }) }) => Some(n),
        _ => None,
    };
    let from_poetry: Option<PackageName> = match poetry {
        Some(n) => match PackageName::new(n.as_str()) {
            Ok(name) => Some(name),
            Err(_) => {
                return None;
            },
        },
        None => None,
    };
    match &file.project {
        Some(Project { name: Some(n) }) => match PackageName::new(n.as_str()) {
            Ok(name) => Some(name),
            Err(_) => None,
        },
        _ => from_poetry,
    }
}

/// `configparser::ini::Ini::read`, told to tell the case of letters apart
/// and to join the lines of a value, parses the text of a configuration
/// file; of what it makes, the value under the key in the section is
/// taken. Nothing is claimed of it.
#[verifier::external_body]
fn ini_entry(contents: &str, section: &str, key: &str) -> (r: Option<String>) {
    let mut ini = configparser::ini::Ini::new_cs();
    ini.set_multiline(true);
    ini.read(contents.to_owned()).ok()?.get(section)?.get(key)?.clone()
}

/// The kinds of URL that an unnamed requirement may have, by scheme.
#[derive(Debug, Clone, Copy, PartialEq, Eq, Structural)]
pub enum SchemeClass {
    File,
    Web,
    Git,
}

/// The kind of a scheme: `file`; `http` or `https`; `git+ssh` or
/// `git+https`.
pub open spec fn scheme_class(scheme: Seq<char>) -> Option<SchemeClass> {
    if scheme == "file"@ {
        Some(SchemeClass::File)
    } else if scheme == "http"@ || scheme == "https"@ {
        Some(SchemeClass::Web)
    } else if scheme == "git+ssh"@ || scheme == "git+https"@ {
        Some(SchemeClass::Git)
    } else {
        None
    }
}

/// The kind of a scheme.
pub fn classify_scheme(scheme: &str) -> (r: Option<SchemeClass>)
    ensures
        r == scheme_class(scheme@),
{
    let s = chars_of(scheme);
    if text_same(&s, &chars_of("file")) {
        Some(SchemeClass::File)
    } else if text_same(&s, &chars_of("http")) || text_same(&s, &chars_of("https")) {
        Some(SchemeClass::Web)
    } else if text_same(&s, &chars_of("git+ssh")) || text_same(&s, &chars_of("git+https")) {
        Some(SchemeClass::Git)
    } else {
        None
    }
}

/// What the library needs to be told before it can go on.
#[derive(Debug)]
pub enum Question {
    /// Is the path of the URL a directory?
    IsDirectory,
    /// What does the file `PKG-INFO` in the directory hold?
    PkgInfo,
    /// What does the file `pyproject.toml` in the directory hold?
    PyProject,
    /// What does the file `setup.cfg` in the directory hold?
    SetupCfg,
    /// What is the metadata of the wheel built from the source, an artifact
    /// of the given kind of which the given digests are expected?
    Build(UrlKind, Vec<HashDigest>),
}

/// A question as a mathematical value.
pub enum QuestionView {
    IsDirectory,
    PkgInfo,
    PyProject,
    SetupCfg,
    Build(UrlKind, Seq<HashDigestView>),
}

impl View for Question {
    type V = QuestionView;

    open spec fn view(&self) -> QuestionView {
        match self {
            Question::IsDirectory => QuestionView::IsDirectory,
            Question::PkgInfo => QuestionView::PkgInfo,
            Question::PyProject => QuestionView::PyProject,
            Question::SetupCfg => QuestionView::SetupCfg,
            Question::Build(kind, hashes) => QuestionView::Build(*kind, hashes.deep_view()),
        }
    }
}

/// What the library is told.
#[derive(Debug)]
pub enum Event {
    /// Nothing yet.
    Begin,
    /// Whether the path is a directory.
    Directory(bool),
    /// The text of `PKG-INFO`, where it could be read.
    PkgInfo(Option<String>),
    /// The tables of `pyproject.toml`, where it could be read and parsed.
    PyProject(Option<PyProjectToml>),
    /// The text of `setup.cfg`, where it could be read.
    SetupCfg(Option<String>),
    /// The metadata of the built wheel, or why the build failed.
    Built(Result<Archive, String>),
}

/// What is to be done for a requirement.
#[derive(Debug)]
pub enum Action {
    /// The requirement has this name.
    Named(PackageName),
    /// The requirement cannot be named.
    Failed(ResolveError),
    /// The question is to be answered.
    Ask(Question),
}

/// An action as a mathematical value.
pub enum ActionView {
    Named(Seq<char>),
    Failed(ResolveErrorView),
    Ask(QuestionView),
}

impl View for Action {
    type V = ActionView;

    open spec fn view(&self) -> ActionView {
        match self {
            Action::Named(n) => ActionView::Named(n@),
            Action::Failed(e) => ActionView::Failed(e@),
            Action::Ask(q) => ActionView::Ask(q@),
        }
    }
}

/// The name under which the index holds the metadata of the source at the
/// URL; else the question for a build, with the digests that are expected
/// of the artifact at the URL.
pub open spec fn sourced(
    url: VerbatimUrlView,
    kind: UrlKind,
    hasher: HashStrategy,
    index: InMemoryIndex,
) -> ActionView {
    match lookup(index.distributions.deep_view(), VersionIdView::Url(url.raw)) {
        Some(MetadataResponse::Found(archive)) => ActionView::Named(archive.metadata.name@),
        _ => ActionView::Ask(QuestionView::Build(kind, hasher.digests_for(url))),
    }
}

/// What is done first: the name in the file name of a wheel, where the path
/// names one, and an error where that file name is malformed; else the name
/// in the file name of a source archive; else by the scheme of the URL.
pub open spec fn begun(url: VerbatimUrlView, hasher: HashStrategy, index: InMemoryIndex) -> ActionView {
    if names_wheel(url.path) {
        match last_segment(url.path) {
            None => ActionView::Failed(ResolveErrorView::InvalidUrl(url.raw)),
            Some(f) => match wheel_name(f) {
                Some(n) => ActionView::Named(n),
                None => ActionView::Failed(ResolveErrorView::InvalidMetadata(f)),
            },
        }
    } else {
        let archive = match last_segment(url.path) {
            Some(f) => sdist_name(f),
            None => None,
        };
        match archive {
            Some(n) => ActionView::Named(n),
            None => match scheme_class(url.scheme) {
                None => ActionView::Failed(ResolveErrorView::UnsupportedUrlScheme(url.raw)),
                Some(SchemeClass::File) => ActionView::Ask(QuestionView::IsDirectory),
                Some(SchemeClass::Web) => sourced(url, UrlKind::DirectArchive, hasher, index),
                Some(SchemeClass::Git) => sourced(url, UrlKind::Git, hasher, index),
            },
        }
    }
}

/// What is done once the value that `setup.cfg` gives for the name is
/// known: the name, where it is a valid one; else the source tree is looked
/// up or built.
pub open spec fn after_setup_cfg(
    url: VerbatimUrlView,
    value: Option<Seq<char>>,
    hasher: HashStrategy,
    index: InMemoryIndex,
) -> ActionView {
    match valid_name(value) {
        Some(n) => ActionView::Named(n),
        None => sourced(url, UrlKind::LocalDirectory, hasher, index),
    }
}

/// What is done on an event. `value` is what `setup.cfg` gives for the
/// name; it counts on that event alone.
pub open spec fn decided(
    url: VerbatimUrlView,
    event: Event,
    value: Option<Seq<char>>,
    hasher: HashStrategy,
    index: InMemoryIndex,
) -> ActionView {
    match event {
        Event::Begin => begun(url, hasher, index),
        Event::Directory(true) => ActionView::Ask(QuestionView::PkgInfo),
        Event::Directory(false) => sourced(url, UrlKind::LocalPath, hasher, index),
        Event::PkgInfo(contents) => match contents {
            Some(c) => match pkg_info_name(c@) {
                Some(n) => ActionView::Named(n),
                None => ActionView::Ask(QuestionView::PyProject),
            },
            None => ActionView::Ask(QuestionView::PyProject),
        },
        Event::PyProject(file) => match file {
            Some(f) => match pyproject_name(f) {
                Some(n) => ActionView::Named(n),
                None => ActionView::Ask(QuestionView::SetupCfg),
            },
            None => ActionView::Ask(QuestionView::SetupCfg),
        },
        Event::SetupCfg(_) => after_setup_cfg(url, value, hasher, index),
        Event::Built(Ok(archive)) => ActionView::Named(archive.metadata.name@),
        Event::Built(Err(cause)) => ActionView::Failed(
            ResolveErrorView::MetadataBuildFailed(url.raw, cause@),
        ),
    }
}

/// The index after an event: the metadata of a built wheel is kept under
/// the URL of its source; nothing else changes it.
pub open spec fn remembered(url: VerbatimUrlView, event: Event, index: InMemoryIndex) -> Seq<
    (VersionIdView, MetadataResponse),
> {
    match event {
        Event::Built(Ok(archive)) => put(
            index.distributions.deep_view(),
            VersionIdView::Url(url.raw),
            MetadataResponse::Found(archive),
        ),
        _ => index.distributions.deep_view(),
    }
}

fn find_source(url: &VerbatimUrl, kind: UrlKind, hasher: &HashStrategy, index: &InMemoryIndex) -> (r:
    Action)
    ensures
        r@ == sourced(url@, kind, *hasher, *index),
{
    let id = VersionId::from_url(url);
    match index.distributions.get(&id) {
        Some(MetadataResponse::Found(archive)) => Action::Named(archive.metadata.name.clone()),
        _ => Action::Ask(Question::Build(kind, hasher.get_url(url))),
    }
}

fn begin(url: &VerbatimUrl, hasher: &HashStrategy, index: &InMemoryIndex) -> (r: Action)
    ensures
        r@ == begun(url@, *hasher, *index),
{
    if path_names_wheel(url.path.as_str()) {
        return match path_filename(url.path.as_str()) {
            None => Action::Failed(ResolveError::InvalidUrl(url.raw.clone())),
            Some(f) => match wheel_package_name(f.as_str()) {
                Some(n) => Action::Named(n),
                None => Action::Failed(ResolveError::InvalidMetadata(f)),
            },
        };
    }
    let archive = match path_filename(url.path.as_str()) {
        Some(f) => sdist_package_name(f.as_str()),
        None => None,
    };
    match archive {
        Some(n) => Action::Named(n),
        None => match classify_scheme(url.scheme.as_str()) {
            None => Action::Failed(ResolveError::UnsupportedUrlScheme(url.raw.clone())),
            Some(SchemeClass::File) => Action::Ask(Question::IsDirectory),
            Some(SchemeClass::Web) => find_source(url, UrlKind::DirectArchive, hasher, index),
            Some(SchemeClass::Git) => find_source(url, UrlKind::Git, hasher, index),
        },
    }
}

/// What is done once the value that `setup.cfg` gives for the name is
/// known.
pub fn resolve_setup_cfg(
    url: &VerbatimUrl,
    value: Option<String>,
    hasher: &HashStrategy,
    index: &InMemoryIndex,
) -> (r: Action)
    ensures
        r@ == after_setup_cfg(url@, value.deep_view(), *hasher, *index),
{
    match to_name(value) {
        Some(n) => Action::Named(n),
        None => find_source(url, UrlKind::LocalDirectory, hasher, index),
    }
}

/// A requirement on the package `name` at the URL of the unnamed
/// requirement, with its extras, marker and origin.
pub open spec fn with_name(requirement: UnnamedRequirement, name: PackageName) -> Requirement {
    Requirement {
        name,
        extras: requirement.extras,
        version_or_url: Some(VersionOrUrl::Url(requirement.url)),
        marker: requirement.marker,
        origin: requirement.origin,
    }
}

/// The requirement on the package `name` at the URL of the unnamed
/// requirement.
pub fn named(requirement: UnnamedRequirement, name: PackageName) -> (r: Requirement)
    ensures
        r == with_name(requirement, name),
{
    Requirement {
        name,
        extras: requirement.extras,
        version_or_url: Some(VersionOrUrl::Url(requirement.url)),
        marker: requirement.marker,
        origin: requirement.origin,
    }
}

/// A requirement, named or not.
#[derive(Debug)]
pub enum UnresolvedRequirement {
    Named(Requirement),
    Unnamed(UnnamedRequirement),
}

/// A requirement, named or not, with the digests asked of its artifact.
#[derive(Debug)]
pub struct UnresolvedRequirementSpecification {
    pub requirement: UnresolvedRequirement,
    pub hashes: Vec<String>,
}

/// How many of the first `n` requirements have no name.
pub open spec fn unnamed_among(reqs: Seq<UnresolvedRequirementSpecification>, n: nat) -> nat
    decreases n,
{
    if n == 0 || n > reqs.len() {
        0
    } else {
        unnamed_among(reqs, (n - 1) as nat) + if reqs[n - 1].requirement is Unnamed {
            1nat
        } else {
            0nat
        }
    }
}

/// The first `n` requirements with their names: each named requirement as
/// it is, each unnamed one with the next of the names that were found. The
/// first name that was not found ends it with its error.
pub open spec fn resolved(
    reqs: Seq<UnresolvedRequirementSpecification>,
    names: Seq<Result<PackageName, ResolveError>>,
    n: nat,
) -> Result<Seq<Requirement>, ResolveError>
    decreases n,
{
    if n == 0 || n > reqs.len() {
        Ok(Seq::empty())
    } else {
        match resolved(reqs, names, (n - 1) as nat) {
            Err(e) => Err(e),
            Ok(before) => match reqs[n - 1].requirement {
                UnresolvedRequirement::Named(r) => Ok(before.push(r)),
                UnresolvedRequirement::Unnamed(u) => match names[unnamed_among(
                    reqs,
                    (n - 1) as nat,
                ) as int] {
                    Ok(name) => Ok(before.push(with_name(u, name))),
                    Err(e) => Err(e),
                },
            },
        }
    }
}

proof fn lemma_resolved_sticks(
    reqs: Seq<UnresolvedRequirementSpecification>,
    names: Seq<Result<PackageName, ResolveError>>,
    k: nat,
    n: nat,
)
    requires
        k <= n <= reqs.len(),
        resolved(reqs, names, k) is Err,
    ensures
        resolved(reqs, names, n) == resolved(reqs, names, k),
    decreases n,
{
    if n > k {
        lemma_resolved_sticks(reqs, names, k, (n - 1) as nat);
    }
}

/// The requirements of a project, some of them without a name.
#[derive(Debug)]
pub struct NamedRequirementsResolver {
    /// The requirements for the project.
    requirements: Vec<UnresolvedRequirementSpecification>,
    /// The digests that are expected of distributions.
    hasher: HashStrategy,
}

impl NamedRequirementsResolver {
    /// The requirements that are to be named.
    pub closed spec fn requirements(&self) -> Seq<UnresolvedRequirementSpecification> {
        self.requirements@
    }

    /// The digests that are expected of distributions.
    pub closed spec fn hash_strategy(&self) -> HashStrategy {
        self.hasher
    }

    /// A resolver for the given requirements.
    pub fn new(requirements: Vec<UnresolvedRequirementSpecification>, hasher: HashStrategy) -> (r:
        Self)
        ensures
            r.requirements() == requirements@,
            r.hash_strategy() == hasher,
    {
        NamedRequirementsResolver { requirements, hasher }
    }

    /// The digests that are expected of distributions.
    pub fn hasher(&self) -> (r: &HashStrategy)
        ensures
            *r == self.hash_strategy(),
    {
        &self.hasher
    }

    /// How many of the requirements have no name.
    pub fn unnamed_count(&self) -> (n: usize)
        ensures
            n == unnamed_among(self.requirements(), self.requirements().len()),
    {
        let mut i: usize = 0;
        let mut n: usize = 0;
        while i < self.requirements.len()
            invariant
                i <= self.requirements.len(),
                n <= i,
                n == unnamed_among(self.requirements@, i as nat),
            decreases self.requirements.len() - i,
        {
            match &self.requirements[i].requirement {
                UnresolvedRequirement::Unnamed(_) => {
                    n += 1;
                },
                UnresolvedRequirement::Named(_) => {},
            }
            i += 1;
        }
        n
    }

    /// The URL of the unnamed requirement at place `i`, if it is one.
    pub fn unnamed_at(&self, i: usize) -> (r: Option<&UnnamedRequirement>)
        ensures
            match r {
                Some(u) => i < self.requirements().len() && self.requirements()[i as int].requirement
                    == UnresolvedRequirement::Unnamed(*u),
                None => i >= self.requirements().len() || self.requirements()[i as int].requirement
                    is Named,
            },
    {
        if i >= self.requirements.len() {
            return None;
        }
        match &self.requirements[i].requirement {
            UnresolvedRequirement::Unnamed(u) => Some(u),
            UnresolvedRequirement::Named(_) => None,
        }
    }

    /// What is to be done for an unnamed requirement on an event. The
    /// recognizers are tried in their order, and the first that gives a name
    /// wins: the file name of a wheel, the file name of a source archive,
    /// then for a directory the files `PKG-INFO`, `pyproject.toml` and
    /// `setup.cfg`, and last the metadata that the index holds or that a
    /// build gives. A build is asked for with the digests that are expected
    /// of the artifact, and its metadata is kept in the index under the URL.
    /// Of a `setup.cfg` that could be read, the value for the name is what
    /// the parser of configuration files makes of the text.
    pub fn resolve_requirement(
        requirement: &UnnamedRequirement,
        event: Event,
        hasher: &HashStrategy,
        index: &mut InMemoryIndex,
    ) -> (action: Action)
        ensures
            !(event matches Event::SetupCfg(Some(_))) ==> action@ == decided(
                requirement.url@,
                event,
                None,
                *hasher,
                *old(index),
            ),
            event matches Event::SetupCfg(Some(_)) ==> exists|value: Option<Seq<char>>|
                action@ == #[trigger] decided(requirement.url@, event, value, *hasher, *old(index)),
            final(index).distributions.deep_view() == remembered(
                requirement.url@,
                event,
                *old(index),
            ),
            final(index).packages == old(index).packages,
    {
        let url = &requirement.url;
        match event {
            Event::Begin => begin(url, hasher, index),
            Event::Directory(is_dir) => if is_dir {
                Action::Ask(Question::PkgInfo)
            } else {
                find_source(url, UrlKind::LocalPath, hasher, index)
            },
            Event::PkgInfo(contents) => {
                let name = match &contents {
                    Some(c) => name_in_pkg_info(c.as_str()),
                    None => None,
                };
                match name {
                    Some(n) => Action::Named(n),
                    None => Action::Ask(Question::PyProject),
                }
            },
            Event::PyProject(file) => {
                let name = match &file {
                    Some(f) => name_in_pyproject(f),
                    None => None,
                };
                match name {
                    Some(n) => Action::Named(n),
                    None => Action::Ask(Question::SetupCfg),
                }
            },
            Event::SetupCfg(contents) => {
                let value = match &contents {
                    Some(c) => ini_entry(c.as_str(), "metadata", "name"),
                    None => None,
                };
                let ghost v = value.deep_view();
                let action = resolve_setup_cfg(url, value, hasher, index);
                assert(action@ == decided(requirement.url@, event, v, *hasher, *index));
                action
            },
            Event::Built(result) => match result {
                Ok(archive) => {
                    let name = archive.metadata.name.clone();
                    index.distributions.insert(
                        VersionId::from_url(url),
                        MetadataResponse::Found(archive),
                    );
                    Action::Named(name)
                },
                Err(cause) => Action::Failed(
                    ResolveError::MetadataBuildFailed(url.raw.clone(), cause),
                ),
            },
        }
    }

    /// The requirements with their names, in their order: `names` holds, for
    /// each unnamed requirement in turn, the name that was found for it or
    /// the error that ended the search. The first error fails the whole.
    pub fn resolve(self, names: Vec<Result<PackageName, ResolveError>>) -> (r: Result<
        Vec<Requirement>,
        ResolveError,
    >)
        requires
            names@.len() == unnamed_among(self.requirements(), self.requirements().len()),
        ensures
            match resolved(self.requirements(), names@, self.requirements().len()) {
                Ok(s) => r matches Ok(v) && v@ == s,
                Err(e) => r matches Err(x) && x == e,
            },
    {
        let ghost reqs = self.requirements@;
        let ghost all = names@;
        let n = self.requirements.len();
        let mut rest = self.requirements;
        let mut pending = names;
        let mut out: Vec<Requirement> = Vec::new();
        let mut i: usize = 0;
        while i < n
            invariant
                i <= n,
                n == reqs.len(),
                reqs == self.requirements(),
                all == names@,
                all.len() == unnamed_among(reqs, n as nat),
                rest@ == reqs.subrange(i as int, n as int),
                pending@ == all.subrange(unnamed_among(reqs, i as nat) as int, all.len() as int),
                unnamed_among(reqs, i as nat) <= all.len(),
                resolved(reqs, all, i as nat) == Ok::<Seq<Requirement>, ResolveError>(out@),
            decreases n - i,
        {
            proof {
                lemma_unnamed_monotone(reqs, (i + 1) as nat, n as nat);
            }
            let entry = rest.remove(0);
            assert(entry == reqs[i as int]);
            assert(rest@ =~= reqs.subrange(i + 1, n as int));
            match entry.requirement {
                UnresolvedRequirement::Named(r) => {
                    out.push(r);
                },
                UnresolvedRequirement::Unnamed(u) => {
                    let ghost k = unnamed_among(reqs, i as nat) as int;
                    let found = pending.remove(0);
                    assert(found == all[k]);
                    assert(pending@ =~= all.subrange(k + 1, all.len() as int));
                    match found {
                        Ok(name) => {
                            out.push(named(u, name));
                        },
                        Err(e) => {
                            proof {
                                assert(resolved(reqs, all, (i + 1) as nat) == Err::<
                                    Seq<Requirement>,
                                    ResolveError,
                                >(e));
                                lemma_resolved_sticks(reqs, all, (i + 1) as nat, n as nat);
                            }
                            return Err(e);
                        },
                    }
                },
            }
            i += 1;
        }
        Ok(out)
    }
}

/// There are no more unnamed requirements among fewer of them.
proof fn lemma_unnamed_monotone(reqs: Seq<UnresolvedRequirementSpecification>, k: nat, n: nat)
    requires
        k <= n <= reqs.len(),
    ensures
        unnamed_among(reqs, k) <= unnamed_among(reqs, n),
    decreases n,
{
    if n > k {
        lemma_unnamed_monotone(reqs, k, (n - 1) as nat);
    }
}

} // verus!
