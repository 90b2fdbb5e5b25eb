//! The lock: the resolved graph as a list of distributions, each with its
//! source, its digests and the distributions it depends on.

use crate::dist::{HashDigest, HashDigestView, ResolvedDist, ResolvedDistView, UrlKind};
use crate::name::PackageName;
use crate::order::{arranged, is_sorted_order, sort_order, sorted_order, texts};
use crate::text::chars_of;
use crate::version::{Version, VersionView};
use vstd::prelude::*;

verus! {

/// Where a locked distribution comes from.
#[derive(Debug, Clone, Copy, PartialEq, Eq, Structural)]
pub enum SourceKind {
    Registry,
    Direct,
    Git,
    Path,
    Directory,
    Editable,
}

/// Why a graph has no lock.
#[derive(Debug, Clone, Copy, PartialEq, Eq, Structural)]
pub enum LockError {
    /// The dependencies form a cycle.
    Cycle,
}

/// A reference to a locked distribution: its name, and its URL where it is
/// pinned by one.
#[derive(Debug)]
pub struct Dependency {
    pub name: PackageName,
    pub url: Option<String>,
}

/// A dependency as a mathematical value.
pub struct DependencyView {
    pub name: Seq<char>,
    pub url: Option<Seq<char>>,
}

impl View for Dependency {
    type V = DependencyView;

    open spec fn view(&self) -> DependencyView {
        DependencyView { name: self.name@, url: self.url.deep_view() }
    }
}

impl DeepView for Dependency {
    type V = DependencyView;

    open spec fn deep_view(&self) -> DependencyView {
        self@
    }
}

impl Clone for Dependency {
    fn clone(&self) -> (r: Self)
        ensures
            r@ == self@,
    {
        Dependency {
            name: self.name.clone(),
            url: match &self.url {
                Some(u) => Some(u.clone()),
                None => None,
            },
        }
    }
}

/// The reference to a distribution.
pub open spec fn dependency_of(d: ResolvedDistView) -> DependencyView {
    DependencyView {
        name: d.name(),
        url: match d.url() {
            Some(u) => Some(u.raw),
            None => None,
        },
    }
}

/// The text by which dependencies are ordered: the name, and after a space
/// the URL where there is one.
pub open spec fn dependency_key(d: DependencyView) -> Seq<char> {
    match d.url {
        Some(u) => d.name.push(' ') + u,
        None => d.name,
    }
}

/// The keys of the dependencies, in their order.
pub open spec fn dependency_keys(s: Seq<DependencyView>) -> Seq<Seq<char>> {
    Seq::new(s.len(), |i: int| dependency_key(s[i]))
}

/// The dependencies in ascending order of their keys; those with the same
/// key keep their order.
pub open spec fn sorted_dependencies(s: Seq<DependencyView>) -> Seq<DependencyView> {
    arranged(s, sort_order(dependency_keys(s)))
}

impl Dependency {
    /// The reference to a distribution.
    pub fn from_resolved_dist(dist: &ResolvedDist) -> (r: Dependency)
        ensures
            r@ == dependency_of(dist@),
    {
        match dist {
            ResolvedDist::Registry { name, .. } => Dependency { name: name.clone(), url: None },
            ResolvedDist::Url { name, url, .. } => Dependency {
                name: name.clone(),
                url: Some(url.raw.clone()),
            },
            ResolvedDist::Editable { name, url, .. } => Dependency {
                name: name.clone(),
                url: Some(url.raw.clone()),
            },
        }
    }

    /// The text by which dependencies are ordered.
    pub fn key(&self) -> (k: Vec<char>)
        ensures
            k@ == dependency_key(self@),
    {
        let mut k = chars_of(self.name.as_str());
        match &self.url {
            Some(u) => {
                k.push(' ');
                let mut rest = chars_of(u.as_str());
                k.append(&mut rest);
            },
            None => {},
        }
        k
    }
}

/// The dependencies in ascending order of their keys.
pub fn sort_dependencies(deps: &Vec<Dependency>) -> (r: Vec<Dependency>)
    ensures
        r.deep_view() == sorted_dependencies(deps.deep_view()),
{
    let ghost views = deps.deep_view();
    let mut keys: Vec<Vec<char>> = Vec::new();
    let mut i: usize = 0;
    while i < deps.len()
        invariant
            i <= deps.len(),
            views == deps.deep_view(),
            keys.len() == i,
            forall|j: int| 0 <= j < i ==> (#[trigger] keys@[j])@ == dependency_key(views[j]),
        decreases deps.len() - i,
    {
        keys.push(deps[i].key());
        i += 1;
    }
    assert(texts(keys@) =~= dependency_keys(views));
    let order = sorted_order(&keys);
    let mut r: Vec<Dependency> = Vec::new();
    let mut k: usize = 0;
    while k < order.len()
        invariant
            k <= order.len(),
            order.len() == deps.len(),
            views == deps.deep_view(),
            is_sorted_order(dependency_keys(views), order@),
            r.len() == k,
            forall|j: int| 0 <= j < k ==> (#[trigger] r@[j])@ == views[order@[j] as int],
        decreases order.len() - k,
    {
        assert(order@[k as int] < deps.len());
        r.push(deps[order[k]].clone());
        k += 1;
    }
    assert(r.deep_view() =~= sorted_dependencies(views));
    r
}

/// A distribution of the lock.
#[derive(Debug)]
pub struct LockedDistribution {
    pub name: PackageName,
    pub version: Option<Version>,
    pub source: SourceKind,
    pub url: Option<String>,
    pub hashes: Vec<HashDigest>,
    pub dependencies: Vec<Dependency>,
}

/// A locked distribution as a mathematical value.
pub struct LockedDistributionView {
    pub name: Seq<char>,
    pub version: Option<VersionView>,
    pub source: SourceKind,
    pub url: Option<Seq<char>>,
    pub hashes: Seq<HashDigestView>,
    pub dependencies: Seq<DependencyView>,
}

impl View for LockedDistribution {
    type V = LockedDistributionView;

    open spec fn view(&self) -> LockedDistributionView {
        LockedDistributionView {
            name: self.name@,
            version: self.version.deep_view(),
            source: self.source,
            url: self.url.deep_view(),
            hashes: self.hashes.deep_view(),
            dependencies: self.dependencies.deep_view(),
        }
    }
}

impl DeepView for LockedDistribution {
    type V = LockedDistributionView;

    open spec fn deep_view(&self) -> LockedDistributionView {
        self@
    }
}

/// The source of a distribution.
pub open spec fn source_of(d: ResolvedDistView) -> SourceKind {
    match d {
        ResolvedDistView::Registry { .. } => SourceKind::Registry,
        ResolvedDistView::Url { kind, .. } => match kind {
            UrlKind::DirectArchive => SourceKind::Direct,
            UrlKind::Git => SourceKind::Git,
            UrlKind::LocalPath => SourceKind::Path,
            UrlKind::LocalDirectory => SourceKind::Directory,
        },
        ResolvedDistView::Editable { .. } => SourceKind::Editable,
    }
}

/// The locked form of a distribution with the given digests and
/// dependencies: its name; its version, if a registry holds it; its source;
/// the index or the URL it comes from.
pub open spec fn locked(
    d: ResolvedDistView,
    hashes: Seq<HashDigestView>,
    dependencies: Seq<DependencyView>,
) -> LockedDistributionView {
    LockedDistributionView {
        name: d.name(),
        version: match d {
            ResolvedDistView::Registry { version, .. } => Some(version),
            _ => None,
        },
        source: source_of(d),
        url: match d {
            ResolvedDistView::Registry { index, .. } => index,
            ResolvedDistView::Url { url, .. } => Some(url.raw),
            ResolvedDistView::Editable { url, .. } => Some(url.raw),
        },
        hashes,
        dependencies,
    }
}

impl LockedDistribution {
    /// The locked form of a distribution with the given digests, without
    /// dependencies yet.
    pub fn from_resolved_dist(dist: &ResolvedDist, hashes: Vec<HashDigest>) -> (r: LockedDistribution)
        ensures
            r@ == locked(dist@, hashes.deep_view(), Seq::empty()),
    {
        let r = match dist {
            ResolvedDist::Registry { name, version, index } => LockedDistribution {
                name: name.clone(),
                version: Some(version.clone()),
                source: SourceKind::Registry,
                url: match index {
                    Some(i) => Some(i.clone()),
                    None => None,
                },
                hashes,
                dependencies: Vec::new(),
            },
            ResolvedDist::Url { name, url, kind } => LockedDistribution {
                name: name.clone(),
                version: None,
                source: match kind {
                    UrlKind::DirectArchive => SourceKind::Direct,
                    UrlKind::Git => SourceKind::Git,
                    UrlKind::LocalPath => SourceKind::Path,
                    UrlKind::LocalDirectory => SourceKind::Directory,
                },
                url: Some(url.raw.clone()),
                hashes,
                dependencies: Vec::new(),
            },
            ResolvedDist::Editable { name, url, .. } => LockedDistribution {
                name: name.clone(),
                version: None,
                source: SourceKind::Editable,
                url: Some(url.raw.clone()),
                hashes,
                dependencies: Vec::new(),
            },
        };
        assert(r@.dependencies =~= Seq::<DependencyView>::empty());
        r
    }

    /// Adds a reference to `dist` to the dependencies.
    pub fn add_dependency(&mut self, dist: &ResolvedDist)
        ensures
            final(self)@ == (LockedDistributionView {
                dependencies: old(self)@.dependencies.push(dependency_of(dist@)),
                ..old(self)@
            }),
    {
        let ghost before = self.dependencies.deep_view();
        self.dependencies.push(Dependency::from_resolved_dist(dist));
        assert(self.dependencies.deep_view() =~= before.push(dependency_of(dist@)));
    }
}

/// The lock: the distributions in the order of the graph, the dependencies
/// of each in ascending order.
#[derive(Debug)]
pub struct Lock {
    pub distributions: Vec<LockedDistribution>,
}

impl DeepView for Lock {
    type V = Seq<LockedDistributionView>;

    open spec fn deep_view(&self) -> Seq<LockedDistributionView> {
        self.distributions.deep_view()
    }
}

/// The distributions, each with its dependencies in ascending order.
pub open spec fn normalized_lock(s: Seq<LockedDistributionView>) -> Seq<LockedDistributionView> {
    Seq::new(
        s.len(),
        |i: int|
            LockedDistributionView { dependencies: sorted_dependencies(s[i].dependencies), ..s[i] },
    )
}

impl Lock {
    /// The lock of the given distributions: the dependencies of each are put
    /// in ascending order.
    pub fn new(distributions: Vec<LockedDistribution>) -> (lock: Lock)
        ensures
            lock.deep_view() == normalized_lock(distributions.deep_view()),
    {
        let ghost views = distributions.deep_view();
        let ghost goal = normalized_lock(views);
        let n = distributions.len();
        let mut rest = distributions;
        let mut reversed: Vec<LockedDistribution> = Vec::new();
        while rest.len() > 0
            invariant
                rest.len() + reversed.len() == n,
                n == views.len(),
                goal == normalized_lock(views),
                forall|j: int| 0 <= j < rest.len() ==> (#[trigger] rest@[j])@ == views[j],
                forall|j: int|
                    0 <= j < reversed.len() ==> (#[trigger] reversed@[j])@ == goal[n - 1 - j],
            decreases rest.len(),
        {
            let ghost k = rest.len() - 1;
            let d = rest.pop().unwrap();
            assert(d@ == views[k]);
            let LockedDistribution { name, version, source, url, hashes, dependencies } = d;
            let dependencies = sort_dependencies(&dependencies);
            reversed.push(LockedDistribution { name, version, source, url, hashes, dependencies });
        }
        let mut out: Vec<LockedDistribution> = Vec::new();
        while reversed.len() > 0
            invariant
                out.len() + reversed.len() == n,
                n == goal.len(),
                forall|j: int| 0 <= j < out.len() ==> (#[trigger] out@[j])@ == goal[j],
                forall|j: int|
                    0 <= j < reversed.len() ==> (#[trigger] reversed@[j])@ == goal[n - 1 - j],
            decreases reversed.len(),
        {
            let d = reversed.pop().unwrap();
            out.push(d);
        }
        let lock = Lock { distributions: out };
        assert(lock.deep_view() =~= goal);
        lock
    }
}

} // verus!
