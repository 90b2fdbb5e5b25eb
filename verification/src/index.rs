//! What is known of packages and distributions when a graph is assembled:
//! requirements, metadata, registry answers, pins, preferences, editables.

use crate::dist::{HashDigest, ResolvedDist, VerbatimUrl, VersionId};
use crate::marker::MarkerTree;
use crate::name::{ExtraName, PackageName};
use crate::range::VersionRange;
use crate::table::Table;
use crate::version::Version;
use vstd::prelude::*;

verus! {

/// What a requirement admits: a set of versions, or the artifact at a URL.
#[derive(Debug)]
pub enum VersionOrUrl {
    VersionSpecifier(VersionRange),
    Url(VerbatimUrl),
}

/// A requirement on a named package.
#[derive(Debug)]
pub struct Requirement {
    pub name: PackageName,
    pub extras: Vec<ExtraName>,
    pub version_or_url: Option<VersionOrUrl>,
    pub marker: Option<MarkerTree>,
    pub origin: Option<String>,
}

/// A requirement that gives a URL and no name.
#[derive(Debug)]
pub struct UnnamedRequirement {
    pub url: VerbatimUrl,
    pub extras: Vec<ExtraName>,
    pub marker: Option<MarkerTree>,
    pub origin: Option<String>,
}

/// The metadata of a distribution.
#[derive(Debug)]
pub struct Metadata {
    pub name: PackageName,
    pub provides_extras: Vec<ExtraName>,
    pub requires_dist: Vec<Requirement>,
}

impl Metadata {
    /// The metadata declares the extra `extra`.
    pub open spec fn declares(&self, extra: Seq<char>) -> bool {
        exists|i: int| 0 <= i < self.provides_extras@.len() && (#[trigger] self.provides_extras@[i])@ == extra
    }

    /// Whether the metadata declares the extra `extra`.
    pub fn provides(&self, extra: &ExtraName) -> (r: bool)
        ensures
            r == self.declares(extra@),
    {
        let mut i: usize = 0;
        while i < self.provides_extras.len()
            invariant
                i <= self.provides_extras.len(),
                forall|j: int| 0 <= j < i ==> (#[trigger] self.provides_extras@[j])@ != extra@,
            decreases self.provides_extras.len() - i,
        {
            if self.provides_extras[i] == *extra {
                return true;
            }
            i += 1;
        }
        false
    }
}

/// The metadata of a distribution with the digests of its artifact.
#[derive(Debug)]
pub struct Archive {
    pub metadata: Metadata,
    pub hashes: Vec<HashDigest>,
}

/// The answer of the metadata provider for one distribution.
#[derive(Debug)]
pub enum MetadataResponse {
    Found(Archive),
    Missing,
    Offline,
}

impl DeepView for MetadataResponse {
    type V = MetadataResponse;

    open spec fn deep_view(&self) -> MetadataResponse {
        *self
    }
}

/// The digests that one source of versions publishes, by version.
#[derive(Debug)]
pub struct VersionMap {
    pub digests: Table<Version, Vec<HashDigest>>,
}

/// The answer of the versions provider for one package.
#[derive(Debug)]
pub enum VersionsResponse {
    Found(Vec<VersionMap>),
    NotFound,
    Offline,
}

impl DeepView for VersionsResponse {
    type V = VersionsResponse;

    open spec fn deep_view(&self) -> VersionsResponse {
        *self
    }
}

/// The answers of the providers, each kept under its key.
#[derive(Debug)]
pub struct InMemoryIndex {
    pub packages: Table<PackageName, VersionsResponse>,
    pub distributions: Table<VersionId, MetadataResponse>,
}

/// A version of a package, as a key.
#[derive(Debug)]
pub struct NameVersion {
    pub name: PackageName,
    pub version: Version,
}

impl DeepView for NameVersion {
    type V = (Seq<char>, crate::version::VersionView);

    open spec fn deep_view(&self) -> (Seq<char>, crate::version::VersionView) {
        (self.name@, self.version@)
    }
}

impl crate::table::Key for NameVersion {
    fn same_key(&self, other: &Self) -> (r: bool) {
        self.name == other.name && self.version.same(&other.version)
    }
}

/// The artifact to which each selected version of a package is pinned.
#[derive(Debug)]
pub struct FilePins {
    pub pins: Table<NameVersion, ResolvedDist>,
}

/// A version of a package that an earlier resolution chose, with the digests
/// that it recorded.
#[derive(Debug)]
pub struct Pin {
    pub version: Version,
    pub hashes: Vec<HashDigest>,
}

impl DeepView for Pin {
    type V = (crate::version::VersionView, Seq<crate::dist::HashDigestView>);

    open spec fn deep_view(&self) -> (
        crate::version::VersionView,
        Seq<crate::dist::HashDigestView>,
    ) {
        (self.version@, self.hashes.deep_view())
    }
}

/// The choices of an earlier resolution, by package.
#[derive(Debug)]
pub struct Preferences {
    pub pins: Table<PackageName, Pin>,
}

/// What `match_hashes` returns: the digests recorded for the package, where
/// the earlier resolution chose this very version.
pub open spec fn preferred_hashes(
    prefs: Seq<(Seq<char>, (crate::version::VersionView, Seq<crate::dist::HashDigestView>))>,
    name: Seq<char>,
    version: crate::version::VersionView,
) -> Option<Seq<crate::dist::HashDigestView>> {
    match crate::table::lookup(prefs, name) {
        Some((v, hashes)) => if v == version {
            Some(hashes)
        } else {
            None
        },
        None => None,
    }
}

impl Preferences {
    /// The digests recorded for `name`, where the earlier resolution chose
    /// `version` for it.
    pub fn match_hashes(&self, name: &PackageName, version: &Version) -> (r: Option<
        &Vec<HashDigest>,
    >)
        ensures
            r.deep_view() == preferred_hashes(self.pins.deep_view(), name@, version@),
    {
        match self.pins.get(name) {
            Some(pin) => if pin.version.same(version) {
                Some(&pin.hashes)
            } else {
                None
            },
            None => None,
        }
    }
}

/// A project that is installed by reference to its source tree.
#[derive(Debug)]
pub struct LocalEditable {
    pub url: VerbatimUrl,
    pub path: String,
    pub extras: Vec<ExtraName>,
}

/// An editable project with its metadata and the requirements it declares.
#[derive(Debug)]
pub struct Editable {
    pub editable: LocalEditable,
    pub metadata: Metadata,
}

impl DeepView for Editable {
    type V = Editable;

    open spec fn deep_view(&self) -> Editable {
        *self
    }
}

/// The editable projects of a resolution, by package.
#[derive(Debug)]
pub struct Editables {
    pub projects: Table<PackageName, Editable>,
}

/// Which digests are expected of distributions.
#[derive(Debug)]
pub enum HashStrategy {
    /// No digests are expected.
    Off,
    /// No digests are expected; they are recorded as they are found.
    Generate,
    /// Those of the table are expected, each distribution under its key.
    Validate(Table<VersionId, Vec<HashDigest>>),
}

impl HashStrategy {
    /// The digests that are expected of the artifact at the URL: those that
    /// the table holds under the URL, where digests are validated; else none.
    pub open spec fn digests_for(&self, url: crate::dist::VerbatimUrlView) -> Seq<
        crate::dist::HashDigestView,
    > {
        match self {
            HashStrategy::Validate(table) => match crate::table::lookup(
                table.deep_view(),
                crate::dist::VersionIdView::Url(url.raw),
            ) {
                Some(digests) => digests,
                None => Seq::empty(),
            },
            _ => Seq::empty(),
        }
    }

    /// The digests that are expected of the artifact at the URL.
    pub fn get_url(&self, url: &VerbatimUrl) -> (r: Vec<HashDigest>)
        ensures
            r.deep_view() == self.digests_for(url@),
    {
        match self {
            HashStrategy::Validate(table) => match table.get(&VersionId::from_url(url)) {
                Some(digests) => crate::dist::copy_digests(digests),
                None => {
                    let r: Vec<HashDigest> = Vec::new();
                    assert(r.deep_view() =~= Seq::<crate::dist::HashDigestView>::empty());
                    r
                },
            },
            _ => {
                let r: Vec<HashDigest> = Vec::new();
                assert(r.deep_view() =~= Seq::<crate::dist::HashDigestView>::empty());
                r
            },
        }
    }
}

} // verus!
