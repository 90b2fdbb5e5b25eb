//! The resolution graph: every node a pinned package, every edge a
//! dependency between two pinned packages.

use crate::dist::{
    copy_digests, dist_at_url, sort_digests, sorted_digests, HashDigest, HashDigestView, ResolvedDist,
    ResolvedDistView, VerbatimUrl, VerbatimUrlView, VersionId, VersionIdView,
};
use crate::error::{ResolveError, ResolveErrorView};
use crate::cycle::{adjacent, closed, cyclic, has_cycle, in_range, steps_into};
use crate::graph::{
    graph_incoming, graph_neighbors, has_edge, lemma_same_members, lemma_sources_into,
    lemma_targets_from, sources_into, targets_from,
    graph_add_node, graph_edge_count, graph_edges, graph_into_nodes, graph_node, graph_node_count, graph_nodes,
    graph_update_edge, graph_with_capacity, joins,
};
use crate::index::{
    preferred_hashes, Editable, Editables, FilePins, InMemoryIndex, MetadataResponse, NameVersion, Preferences,
    VersionMap, VersionsResponse,
};
use crate::lock::{
    dependency_of, locked, sorted_dependencies, DependencyView, Lock, LockError,
    LockedDistribution, LockedDistributionView,
};
use crate::manifest::{with_direct, with_requirements, Manifest};
use crate::marker::{holds, is_projection, project, MarkerEnvironment, MarkerParam, MarkerTree};
use crate::name::{ExtraName, PackageName};
use crate::range::{range_contains, IntervalView, VersionRange};
use crate::solver::{Incompatibility, Kind, PackageView, PubGrubPackage, SelectedPackage, State};
use crate::table::{find, lemma_find_from, lookup, put, Table};
use crate::version::{Version, VersionView};
use vstd::prelude::*;
use vstd::string::StringExecFns;

verus! {

/// The style of the comments that say which packages asked for a package.
#[derive(Debug, Clone, Copy, PartialEq, Eq, Structural)]
pub enum AnnotationStyle {
    /// All of them on one line, separated by commas.
    Line,
    /// Each of them on a line of its own.
    Split,
}

impl Default for AnnotationStyle {
    fn default() -> (style: Self)
        ensures
            style == AnnotationStyle::Split,
    {
        AnnotationStyle::Split
    }
}

/// Something worth telling the user that does not end the resolution.
#[derive(Debug)]
pub enum Diagnostic {
    MissingExtra {
        /// The distribution that was asked for with an extra it does not have.
        dist: ResolvedDist,
        /// The extra that was asked for.
        extra: ExtraName,
    },
}

/// A diagnostic as a mathematical value.
pub enum DiagnosticView {
    MissingExtra { dist: ResolvedDistView, extra: Seq<char> },
}

impl View for Diagnostic {
    type V = DiagnosticView;

    open spec fn view(&self) -> DiagnosticView {
        match self {
            Diagnostic::MissingExtra { dist, extra } => DiagnosticView::MissingExtra {
                dist: dist@,
                extra: extra@,
            },
        }
    }
}

impl DeepView for Diagnostic {
    type V = DiagnosticView;

    open spec fn deep_view(&self) -> DiagnosticView {
        self@
    }
}

/// An edge of the graph: the places of its two nodes, and the versions of
/// the target that the source admits.
pub struct EdgeView {
    pub source: int,
    pub target: int,
    pub range: Seq<IntervalView>,
}

/// What there is to know when the graph is assembled.
pub struct Inputs {
    pub selection: Seq<SelectedPackage>,
    pub pins: FilePins,
    pub packages: Table<PackageName, VersionsResponse>,
    pub distributions: Table<VersionId, MetadataResponse>,
    pub state: State,
    pub preferences: Preferences,
    pub editables: Editables,
    pub redirects: Table<VerbatimUrl, VerbatimUrl>,
}

/// The nodes and side tables of a graph under assembly.
pub struct Assembly {
    pub nodes: Seq<ResolvedDistView>,
    pub inverse: Seq<(Seq<char>, usize)>,
    pub hashes: Seq<(Seq<char>, Seq<HashDigestView>)>,
    pub extras: Seq<(Seq<char>, Seq<Seq<char>>)>,
    pub diagnostics: Seq<DiagnosticView>,
}

/// How a step of the assembly ends: with a result, with an error, or at an
/// entry that one of the tables should hold and does not.
pub enum Outcome<T> {
    Done(T),
    Failed(ResolveErrorView),
    Unmet,
}

/// The most nodes, and the most edges, that the graph can hold.
pub open spec fn capacity() -> int {
    u32::MAX as int
}

/// The distribution of an editable project.
pub open spec fn editable_dist(name: Seq<char>, e: Editable) -> ResolvedDistView {
    ResolvedDistView::Editable { name, path: e.editable.path@, url: e.editable.url@ }
}

/// The URL that stands for `url` once the provider has resolved it; `url`
/// itself where nothing is recorded for it.
pub open spec fn precise(
    redirects: Seq<(VerbatimUrlView, VerbatimUrlView)>,
    url: VerbatimUrlView,
) -> VerbatimUrlView {
    match lookup(redirects, url) {
        Some(p) => p,
        None => url,
    }
}

/// The digests that the first of the maps at or after `from` that knows the
/// version publishes for it.
pub open spec fn first_digests(maps: Seq<VersionMap>, version: VersionView, from: int) -> Option<
    Seq<HashDigestView>,
>
    decreases maps.len() - from,
{
    if from < 0 || from >= maps.len() {
        None
    } else {
        match lookup(maps[from].digests.deep_view(), version) {
            Some(d) => Some(d),
            None => first_digests(maps, version, from + 1),
        }
    }
}

/// The digests that the registry publishes for the version, in order.
pub open spec fn registry_digests(response: Option<VersionsResponse>, version: VersionView) -> Option<
    Seq<HashDigestView>,
> {
    match response {
        Some(VersionsResponse::Found(maps)) => match first_digests(maps@, version, 0) {
            Some(d) => Some(sorted_digests(d)),
            None => None,
        },
        _ => None,
    }
}

/// The digests that came with the metadata of a distribution, in order.
pub open spec fn archive_digests(response: Option<MetadataResponse>) -> Option<
    Seq<HashDigestView>,
> {
    match response {
        Some(MetadataResponse::Found(archive)) => Some(sorted_digests(archive.hashes.deep_view())),
        _ => None,
    }
}

/// The digests to record for a package: those of the preferences where they
/// name this version and are not empty, else those that were published.
pub open spec fn chosen_digests(
    preferred: Option<Seq<HashDigestView>>,
    published: Option<Seq<HashDigestView>>,
) -> Option<Seq<HashDigestView>> {
    match preferred {
        Some(d) => if d.len() > 0 {
            Some(d)
        } else {
            published
        },
        None => published,
    }
}

/// The table of digests with those chosen for `name`, if any were.
pub open spec fn with_digests(
    hashes: Seq<(Seq<char>, Seq<HashDigestView>)>,
    name: Seq<char>,
    chosen: Option<Seq<HashDigestView>>,
) -> Seq<(Seq<char>, Seq<HashDigestView>)> {
    match chosen {
        Some(d) => put(hashes, name, d),
        None => hashes,
    }
}

/// The table of extras with `extra` added to those of `name`.
pub open spec fn with_extra(
    extras: Seq<(Seq<char>, Seq<Seq<char>>)>,
    name: Seq<char>,
    extra: Seq<char>,
) -> Seq<(Seq<char>, Seq<Seq<char>>)> {
    match lookup(extras, name) {
        Some(list) => put(extras, name, list.push(extra)),
        None => put(extras, name, seq![extra]),
    }
}

/// The assembly with one more node, recorded under its name.
pub open spec fn with_node(
    st: Assembly,
    name: Seq<char>,
    dist: ResolvedDistView,
    chosen: Option<Seq<HashDigestView>>,
) -> Outcome<Assembly> {
    if st.nodes.len() >= capacity() {
        Outcome::Unmet
    } else {
        Outcome::Done(
            Assembly {
                nodes: st.nodes.push(dist),
                inverse: put(st.inverse, name, st.nodes.len() as usize),
                hashes: with_digests(st.hashes, name, chosen),
                ..st
            },
        )
    }
}

/// The distribution that a selected package without extra is pinned to: the
/// editable project of that name, else the pin of a registry package or the
/// artifact at the resolved URL.
pub open spec fn pinned(
    inp: Inputs,
    name: Seq<char>,
    url: Option<VerbatimUrlView>,
    version: VersionView,
) -> Outcome<ResolvedDistView> {
    match lookup(inp.editables.projects.deep_view(), name) {
        Some(e) => Outcome::Done(editable_dist(name, e)),
        None => match url {
            None => match lookup(inp.pins.pins.deep_view(), (name, version)) {
                Some(d) => Outcome::Done(d),
                None => Outcome::Unmet,
            },
            Some(u) => match dist_at_url(name, precise(inp.redirects.deep_view(), u)) {
                Ok(d) => Outcome::Done(d),
                Err(e) => Outcome::Failed(e),
            },
        },
    }
}

/// The digests that are published for a selected package without extra.
pub open spec fn published(
    inp: Inputs,
    name: Seq<char>,
    url: Option<VerbatimUrlView>,
    version: VersionView,
    dist: ResolvedDistView,
) -> Option<Seq<HashDigestView>> {
    match url {
        None => registry_digests(lookup(inp.packages.deep_view(), name), version),
        Some(_) => archive_digests(lookup(inp.distributions.deep_view(), dist.version_id())),
    }
}

/// The key of the metadata of a selected package.
pub open spec fn metadata_key(name: Seq<char>, url: Option<VerbatimUrlView>, version: VersionView) -> VersionIdView {
    match url {
        None => VersionIdView::NameVersion(name, version),
        Some(u) => VersionIdView::Url(u.raw),
    }
}

/// Whether the distribution of a selected package declares the extra:
/// going by the metadata of the editable project of that name, else by the
/// metadata that the index holds. `None` where the index holds none.
pub open spec fn declared(
    inp: Inputs,
    name: Seq<char>,
    url: Option<VerbatimUrlView>,
    version: VersionView,
    extra: Seq<char>,
) -> Option<bool> {
    match lookup(inp.editables.projects.deep_view(), name) {
        Some(e) => Some(e.metadata.declares(extra)),
        None => match lookup(inp.distributions.deep_view(), metadata_key(name, url, version)) {
            Some(MetadataResponse::Found(archive)) => Some(archive.metadata.declares(extra)),
            _ => None,
        },
    }
}

/// The assembly after one entry of the selection. A package without extra
/// becomes a node; a package with an extra adds the extra to those of its
/// name, or a diagnostic where the distribution does not declare it; the
/// root changes nothing.
pub open spec fn place(inp: Inputs, st: Assembly, package: PackageView, version: VersionView) -> Outcome<Assembly> {
    match package {
        PackageView::Root(_) => Outcome::Done(st),
        PackageView::Package(name, None, url) => match pinned(inp, name, url, version) {
            Outcome::Done(dist) => with_node(
                st,
                name,
                dist,
                chosen_digests(
                    preferred_hashes(inp.preferences.pins.deep_view(), name, version),
                    published(inp, name, url, version, dist),
                ),
            ),
            Outcome::Failed(e) => Outcome::Failed(e),
            Outcome::Unmet => Outcome::Unmet,
        },
        PackageView::Package(name, Some(extra), url) => match declared(
            inp,
            name,
            url,
            version,
            extra,
        ) {
            None => Outcome::Unmet,
            Some(true) => Outcome::Done(
                Assembly { extras: with_extra(st.extras, name, extra), ..st },
            ),
            Some(false) => match pinned(inp, name, url, version) {
                Outcome::Done(dist) => Outcome::Done(
                    Assembly {
                        diagnostics: st.diagnostics.push(
                            DiagnosticView::MissingExtra { dist, extra },
                        ),
                        ..st
                    },
                ),
                Outcome::Failed(e) => Outcome::Failed(e),
                Outcome::Unmet => Outcome::Unmet,
            },
        },
    }
}

/// The assembly without nodes.
pub open spec fn empty_assembly() -> Assembly {
    Assembly {
        nodes: Seq::empty(),
        inverse: Seq::empty(),
        hashes: Seq::empty(),
        extras: Seq::empty(),
        diagnostics: Seq::empty(),
    }
}

/// The assembly after the first `k` entries of the selection.
pub open spec fn placed(inp: Inputs, k: nat) -> Outcome<Assembly>
    decreases k,
{
    if k == 0 || k > inp.selection.len() {
        Outcome::Done(empty_assembly())
    } else {
        match placed(inp, (k - 1) as nat) {
            Outcome::Done(st) => place(
                inp,
                st,
                inp.selection[k - 1].package@,
                inp.selection[k - 1].version@,
            ),
            other => other,
        }
    }
}


/// The edges as mathematical values.
pub open spec fn edge_views(edges: Seq<(int, int, VersionRange)>) -> Seq<EdgeView> {
    Seq::new(
        edges.len(),
        |i: int| EdgeView { source: edges[i].0, target: edges[i].1, range: edges[i].2@ },
    )
}

/// The distributions as mathematical values.
pub open spec fn dist_views(nodes: Seq<ResolvedDist>) -> Seq<ResolvedDistView> {
    Seq::new(nodes.len(), |i: int| nodes[i]@)
}

/// The place of the first edge from `a` to `b` at or after `from`.
pub open spec fn find_edge(edges: Seq<EdgeView>, a: int, b: int, from: int) -> Option<int>
    decreases edges.len() - from,
{
    if from < 0 || from >= edges.len() {
        None
    } else if edges[from].source == a && edges[from].target == b {
        Some(from)
    } else {
        find_edge(edges, a, b, from + 1)
    }
}

/// The edges with the range `r` on the edge from `a` to `b`: on the one
/// that is there, or else on a new edge at the end.
pub open spec fn with_edge(edges: Seq<EdgeView>, a: int, b: int, r: Seq<IntervalView>) -> Seq<
    EdgeView,
> {
    match find_edge(edges, a, b, 0) {
        Some(i) => edges.update(i, EdgeView { source: a, target: b, range: r }),
        None => edges.push(EdgeView { source: a, target: b, range: r }),
    }
}

/// The edges after one incompatibility of a selected package. Only a
/// dependency of this very package counts, on a package of another name,
/// and only where the selected version is one of those that depend.
pub open spec fn link(
    inp: Inputs,
    inverse: Seq<(Seq<char>, usize)>,
    edges: Seq<EdgeView>,
    package: PackageView,
    version: VersionView,
    id: usize,
) -> Outcome<Seq<EdgeView>> {
    if id >= inp.state.incompatibility_store@.len() {
        Outcome::Unmet
    } else {
        match inp.state.incompatibility_store@[id as int].kind {
            Kind::FromDependencyOf(sp, sr, dp, dr) => if sp@ != package {
                Outcome::Done(edges)
            } else {
                match (sp@, dp@) {
                    (PackageView::Package(sn, _, _), PackageView::Package(dn, _, _)) => if sn
                        == dn || !range_contains(sr@, version) {
                        Outcome::Done(edges)
                    } else {
                        match (lookup(inverse, sn), lookup(inverse, dn)) {
                            (Some(a), Some(b)) => if edges.len() >= capacity() {
                                Outcome::Unmet
                            } else {
                                Outcome::Done(with_edge(edges, a as int, b as int, dr@))
                            },
                            _ => Outcome::Unmet,
                        }
                    },
                    _ => Outcome::Done(edges),
                }
            },
            Kind::Other => Outcome::Done(edges),
        }
    }
}

/// The edges after the first `j` of the incompatibilities `ids` of a
/// selected package.
pub open spec fn linked_ids(
    inp: Inputs,
    inverse: Seq<(Seq<char>, usize)>,
    edges: Seq<EdgeView>,
    package: PackageView,
    version: VersionView,
    ids: Seq<usize>,
    j: nat,
) -> Outcome<Seq<EdgeView>>
    decreases j,
{
    if j == 0 || j > ids.len() {
        Outcome::Done(edges)
    } else {
        match linked_ids(inp, inverse, edges, package, version, ids, (j - 1) as nat) {
            Outcome::Done(e) => link(inp, inverse, e, package, version, ids[j - 1]),
            other => other,
        }
    }
}

/// The edges after every incompatibility of the first `k` entries of the
/// selection.
pub open spec fn linked(inp: Inputs, inverse: Seq<(Seq<char>, usize)>, k: nat) -> Outcome<
    Seq<EdgeView>,
>
    decreases k,
{
    if k == 0 || k > inp.selection.len() {
        Outcome::Done(Seq::empty())
    } else {
        match linked(inp, inverse, (k - 1) as nat) {
            Outcome::Done(e) => {
                let entry = inp.selection[k - 1];
                match lookup(inp.state.incompatibilities.deep_view(), entry.package@) {
                    Some(ids) => linked_ids(
                        inp,
                        inverse,
                        e,
                        entry.package@,
                        entry.version@,
                        ids,
                        ids.len(),
                    ),
                    None => Outcome::Unmet,
                }
            },
            other => other,
        }
    }
}

/// A resolution graph as a mathematical value.
pub struct GraphView {
    pub nodes: Seq<ResolvedDistView>,
    pub edges: Seq<EdgeView>,
    pub hashes: Seq<(Seq<char>, Seq<HashDigestView>)>,
    pub extras: Seq<(Seq<char>, Seq<Seq<char>>)>,
    pub diagnostics: Seq<DiagnosticView>,
}

/// The graph of a selection: its nodes and side tables from the entries of
/// the selection in their order, then its edges from the incompatibilities
/// of each entry.
pub open spec fn assembled(inp: Inputs) -> Outcome<GraphView> {
    match placed(inp, inp.selection.len()) {
        Outcome::Done(st) => match linked(inp, st.inverse, inp.selection.len()) {
            Outcome::Done(edges) => Outcome::Done(
                GraphView {
                    nodes: st.nodes,
                    edges,
                    hashes: st.hashes,
                    extras: st.extras,
                    diagnostics: st.diagnostics,
                },
            ),
            Outcome::Failed(e) => Outcome::Failed(e),
            Outcome::Unmet => Outcome::Unmet,
        },
        Outcome::Failed(e) => Outcome::Failed(e),
        Outcome::Unmet => Outcome::Unmet,
    }
}

/// How an executable step ends.
enum Tried<T> {
    Done(T),
    Failed(ResolveError),
    Unmet,
}

/// The graph and tables under assembly.
struct Builder {
    petgraph: petgraph::graph::Graph<ResolvedDist, VersionRange, petgraph::Directed, u32>,
    inverse: Table<PackageName, usize>,
    hashes: Table<PackageName, Vec<HashDigest>>,
    extras: Table<PackageName, Vec<ExtraName>>,
    diagnostics: Vec<Diagnostic>,
}

impl Builder {
    spec fn assembly(&self) -> Assembly {
        Assembly {
            nodes: dist_views(graph_nodes(self.petgraph)),
            inverse: self.inverse.deep_view(),
            hashes: self.hashes.deep_view(),
            extras: self.extras.deep_view(),
            diagnostics: self.diagnostics.deep_view(),
        }
    }

    spec fn edges(&self) -> Seq<EdgeView> {
        edge_views(graph_edges(self.petgraph))
    }
}

/// The nodes are within capacity and every recorded place is that of a node.
pub open spec fn places_in_range(nodes: int, inverse: Seq<(Seq<char>, usize)>) -> bool {
    &&& nodes <= capacity()
    &&& forall|i: int| 0 <= i < inverse.len() ==> (#[trigger] inverse[i]).1 < nodes
}

/// The edges join nodes, no two of them the same pair in the same direction.
pub open spec fn edges_in_range(nodes: int, edges: Seq<EdgeView>) -> bool {
    &&& forall|i: int|
        0 <= i < edges.len() ==> 0 <= (#[trigger] edges[i]).source < nodes && 0
            <= edges[i].target < nodes
    &&& forall|i: int, j: int|
        0 <= i < j < edges.len() ==> !((#[trigger] edges[i]).source == (#[trigger] edges[j]).source
            && edges[i].target == edges[j].target)
}

/// A recorded place stays that of a node when a node is added.
proof fn lemma_put_in_range(nodes: int, inverse: Seq<(Seq<char>, usize)>, name: Seq<char>)
    requires
        places_in_range(nodes, inverse),
        0 <= nodes < capacity(),
    ensures
        places_in_range(nodes + 1, put(inverse, name, nodes as usize)),
{
    let t = put(inverse, name, nodes as usize);
    lemma_find_from(inverse, name, 0);
    assert forall|i: int| 0 <= i < t.len() implies (#[trigger] t[i]).1 < nodes + 1 by {
        match find(inverse, name) {
            Some(k) => {
                if i != k {
                    assert(t[i] == inverse[i]);
                    assert(inverse[i].1 < nodes);
                }
            },
            None => {
                if i < inverse.len() {
                    assert(t[i] == inverse[i]);
                    assert(inverse[i].1 < nodes);
                }
            },
        }
    }
}

/// What is looked up in a table of places is the place of a node.
proof fn lemma_lookup_in_range(nodes: int, inverse: Seq<(Seq<char>, usize)>, name: Seq<char>)
    requires
        places_in_range(nodes, inverse),
    ensures
        lookup(inverse, name) matches Some(a) ==> a < nodes,
{
    lemma_find_from(inverse, name, 0);
}

/// The first edge from `a` to `b` is such an edge, and the only one where no
/// two edges join the same pair.
proof fn lemma_find_edge(edges: Seq<EdgeView>, a: int, b: int, from: int)
    requires
        0 <= from,
    ensures
        match find_edge(edges, a, b, from) {
            Some(i) => from <= i < edges.len() && edges[i].source == a && edges[i].target == b,
            None => forall|j: int|
                from <= j < edges.len() ==> !((#[trigger] edges[j]).source == a && edges[j].target
                    == b),
        },
    decreases edges.len() - from,
{
    if from < edges.len() && !(edges[from].source == a && edges[from].target == b) {
        lemma_find_edge(edges, a, b, from + 1);
    }
}

/// After a range is put on an edge, every edge is the new one or stands as
/// it stood.
pub proof fn lemma_with_edge_holds(edges: Seq<EdgeView>, a: int, b: int, r: Seq<IntervalView>)
    ensures
        forall|i: int|
            0 <= i < with_edge(edges, a, b, r).len() ==> (#[trigger] with_edge(edges, a, b, r)[i])
                == (EdgeView { source: a, target: b, range: r }) || (i < edges.len() && with_edge(
                edges,
                a,
                b,
                r,
            )[i] == edges[i]),
{
    lemma_find_edge(edges, a, b, 0);
}

/// Putting a range on an edge keeps the edges within range and apart.
proof fn lemma_with_edge_in_range(
    nodes: int,
    edges: Seq<EdgeView>,
    a: int,
    b: int,
    r: Seq<IntervalView>,
)
    requires
        edges_in_range(nodes, edges),
        0 <= a < nodes,
        0 <= b < nodes,
    ensures
        edges_in_range(nodes, with_edge(edges, a, b, r)),
        with_edge(edges, a, b, r).len() <= edges.len() + 1,
{
    lemma_find_edge(edges, a, b, 0);
    let t = with_edge(edges, a, b, r);
    assert forall|i: int, j: int| 0 <= i < j < t.len() implies !((#[trigger] t[i]).source == (
    #[trigger] t[j]).source && t[i].target == t[j].target) by {
        match find_edge(edges, a, b, 0) {
            Some(k) => {
                assert(edges[i].source == t[i].source && edges[i].target == t[i].target);
                assert(edges[j].source == t[j].source && edges[j].target == t[j].target);
            },
            None => {
                if j < edges.len() {
                    assert(t[i] == edges[i] && t[j] == edges[j]);
                } else {
                    assert(t[i] == edges[i]);
                }
            },
        }
    }
    assert forall|i: int| 0 <= i < t.len() implies 0 <= (#[trigger] t[i]).source < nodes && 0
        <= t[i].target < nodes by {
        if i < edges.len() {
            assert(0 <= edges[i].source < nodes);
        }
    }
}


/// The executable result says what the outcome says.
spec fn agrees<T: DeepView>(t: Tried<T>, o: Outcome<T::V>) -> bool {
    match o {
        Outcome::Done(d) => t matches Tried::Done(x) && x.deep_view() == d,
        Outcome::Failed(e) => t matches Tried::Failed(x) && x@ == e,
        Outcome::Unmet => t is Unmet,
    }
}

fn copy_extras(v: &Vec<ExtraName>) -> (r: Vec<ExtraName>)
    ensures
        r.deep_view() == v.deep_view(),
{
    let r = v.clone();
    proof {
        assert forall|i: int| 0 <= i < r@.len() implies r@[i]@ == v@[i]@ by {
            assert(cloned(v@[i], r@[i]));
        }
        assert(r.deep_view() =~= v.deep_view());
    }
    r
}

fn find_pinned(
    name: &PackageName,
    url: &Option<VerbatimUrl>,
    version: &Version,
    pins: &FilePins,
    editables: &Editables,
    redirects: &Table<VerbatimUrl, VerbatimUrl>,
    Ghost(inp): Ghost<Inputs>,
) -> (r: Tried<ResolvedDist>)
    requires
        inp.pins == *pins,
        inp.editables == *editables,
        inp.redirects == *redirects,
    ensures
        agrees(r, pinned(inp, name@, url.deep_view(), version@)),
{
    match editables.projects.get(name) {
        Some(e) => Tried::Done(
            ResolvedDist::Editable {
                name: name.clone(),
                path: e.editable.path.clone(),
                url: e.editable.url.clone(),
            },
        ),
        None => match url {
            None => {
                let key = NameVersion { name: name.clone(), version: version.clone() };
                match pins.pins.get(&key) {
                    Some(d) => Tried::Done(d.clone()),
                    None => Tried::Unmet,
                }
            },
            Some(u) => {
                let target = match redirects.get(u) {
                    Some(p) => p.clone(),
                    None => u.clone(),
                };
                match ResolvedDist::from_url(name.clone(), target) {
                    Ok(d) => Tried::Done(d),
                    Err(e) => Tried::Failed(e),
                }
            },
        },
    }
}

fn find_first_digests<'a>(maps: &'a Vec<VersionMap>, version: &Version) -> (r: Option<
    &'a Vec<HashDigest>,
>)
    ensures
        r.deep_view() == first_digests(maps@, version@, 0),
{
    let mut i: usize = 0;
    while i < maps.len()
        invariant
            i <= maps.len(),
            first_digests(maps@, version@, 0) == first_digests(maps@, version@, i as int),
        decreases maps.len() - i,
    {
        match maps[i].digests.get(version) {
            Some(d) => {
                return Some(d);
            },
            None => {},
        }
        i += 1;
    }
    None
}

fn find_published(
    name: &PackageName,
    url: &Option<VerbatimUrl>,
    version: &Version,
    dist: &ResolvedDist,
    packages: &Table<PackageName, VersionsResponse>,
    distributions: &Table<VersionId, MetadataResponse>,
    Ghost(inp): Ghost<Inputs>,
) -> (r: Option<Vec<HashDigest>>)
    requires
        inp.packages == *packages,
        inp.distributions == *distributions,
    ensures
        r.deep_view() == published(inp, name@, url.deep_view(), version@, dist@),
{
    match url {
        None => match packages.get(name) {
            Some(VersionsResponse::Found(maps)) => match find_first_digests(maps, version) {
                Some(d) => Some(sort_digests(d)),
                None => None,
            },
            _ => None,
        },
        Some(_) => {
            let id = dist.version_id();
            match distributions.get(&id) {
                Some(MetadataResponse::Found(archive)) => Some(sort_digests(&archive.hashes)),
                _ => None,
            }
        },
    }
}

fn choose_digests(
    name: &PackageName,
    version: &Version,
    preferences: &Preferences,
    published: Option<Vec<HashDigest>>,
) -> (r: Option<Vec<HashDigest>>)
    ensures
        r.deep_view() == chosen_digests(
            preferred_hashes(preferences.pins.deep_view(), name@, version@),
            published.deep_view(),
        ),
{
    match preferences.match_hashes(name, version) {
        Some(d) => if d.len() > 0 {
            Some(copy_digests(d))
        } else {
            published
        },
        None => published,
    }
}

fn find_declared(
    name: &PackageName,
    url: &Option<VerbatimUrl>,
    version: &Version,
    extra: &ExtraName,
    distributions: &Table<VersionId, MetadataResponse>,
    editables: &Editables,
    Ghost(inp): Ghost<Inputs>,
) -> (r: Option<bool>)
    requires
        inp.distributions == *distributions,
        inp.editables == *editables,
    ensures
        r == declared(inp, name@, url.deep_view(), version@, extra@),
{
    match editables.projects.get(name) {
        Some(e) => Some(e.metadata.provides(extra)),
        None => {
            let id = match url {
                None => VersionId::from_registry(name.clone(), version.clone()),
                Some(u) => VersionId::from_url(u),
            };
            match distributions.get(&id) {
                Some(MetadataResponse::Found(archive)) => Some(archive.metadata.provides(extra)),
                _ => None,
            }
        },
    }
}

fn add_extra(extras: &mut Table<PackageName, Vec<ExtraName>>, name: &PackageName, extra: &ExtraName)
    ensures
        final(extras).deep_view() == with_extra(old(extras).deep_view(), name@, extra@),
{
    let mut list = match extras.get(name) {
        Some(l) => copy_extras(l),
        None => Vec::new(),
    };
    let ghost before = list.deep_view();
    list.push(extra.clone());
    proof {
        assert(list.deep_view() =~= before.push(extra@));
        if lookup(old(extras).deep_view(), name@) is None {
            assert(before =~= Seq::<Seq<char>>::empty());
            assert(list.deep_view() =~= seq![extra@]);
        }
    }
    extras.insert(name.clone(), list);
}

fn place_entry(
    entry: &SelectedPackage,
    pins: &FilePins,
    packages: &Table<PackageName, VersionsResponse>,
    distributions: &Table<VersionId, MetadataResponse>,
    preferences: &Preferences,
    editables: &Editables,
    redirects: &Table<VerbatimUrl, VerbatimUrl>,
    b: &mut Builder,
    Ghost(inp): Ghost<Inputs>,
) -> (r: Tried<()>)
    requires
        inp.pins == *pins,
        inp.packages == *packages,
        inp.distributions == *distributions,
        inp.preferences == *preferences,
        inp.editables == *editables,
        inp.redirects == *redirects,
        places_in_range(old(b).assembly().nodes.len() as int, old(b).assembly().inverse),
    ensures
        match place(inp, old(b).assembly(), entry.package@, entry.version@) {
            Outcome::Done(st) => r is Done && final(b).assembly() == st && final(b).edges() == old(
                b,
            ).edges() && places_in_range(st.nodes.len() as int, st.inverse),
            Outcome::Failed(e) => r matches Tried::Failed(x) && x@ == e,
            Outcome::Unmet => r is Unmet,
        },
{
    let ghost st = b.assembly();
    match &entry.package {
        PubGrubPackage::Root(_) => Tried::Done(()),
        PubGrubPackage::Package(name, None, url) => {
            match find_pinned(name, url, &entry.version, pins, editables, redirects, Ghost(inp)) {
                Tried::Done(dist) => {
                    let published = find_published(
                        name,
                        url,
                        &entry.version,
                        &dist,
                        packages,
                        distributions,
                        Ghost(inp),
                    );
                    let chosen = choose_digests(name, &entry.version, preferences, published);
                    let count = graph_node_count(&b.petgraph);
                    if count >= u32::MAX as usize {
                        return Tried::Unmet;
                    }
                    match chosen {
                        Some(d) => {
                            b.hashes.insert(name.clone(), d);
                        },
                        None => {},
                    }
                    let ghost dv = dist@;
                    let index = graph_add_node(&mut b.petgraph, dist);
                    b.inverse.insert(name.clone(), index);
                    proof {
                        assert(b.assembly().nodes =~= st.nodes.push(dv));
                        lemma_put_in_range(st.nodes.len() as int, st.inverse, name@);
                    }
                    Tried::Done(())
                },
                Tried::Failed(e) => Tried::Failed(e),
                Tried::Unmet => Tried::Unmet,
            }
        },
        PubGrubPackage::Package(name, Some(extra), url) => {
            match find_declared(
                name,
                url,
                &entry.version,
                extra,
                distributions,
                editables,
                Ghost(inp),
            ) {
                None => Tried::Unmet,
                Some(true) => {
                    add_extra(&mut b.extras, name, extra);
                    Tried::Done(())
                },
                Some(false) => match find_pinned(
                    name,
                    url,
                    &entry.version,
                    pins,
                    editables,
                    redirects,
                    Ghost(inp),
                ) {
                    Tried::Done(dist) => {
                        let ghost dv = dist@;
                        let ghost before = b.diagnostics.deep_view();
                        b.diagnostics.push(Diagnostic::MissingExtra { dist, extra: extra.clone() });
                        proof {
                            assert(b.diagnostics.deep_view() =~= before.push(
                                DiagnosticView::MissingExtra { dist: dv, extra: extra@ },
                            ));
                        }
                        Tried::Done(())
                    },
                    Tried::Failed(e) => Tried::Failed(e),
                    Tried::Unmet => Tried::Unmet,
                },
            }
        },
    }
}


/// Once the node pass has ended without a result, it stays so.
proof fn lemma_placed_sticks(inp: Inputs, k: nat, m: nat)
    requires
        k <= m <= inp.selection.len(),
        !(placed(inp, k) is Done),
    ensures
        placed(inp, m) == placed(inp, k),
    decreases m,
{
    if m > k {
        lemma_placed_sticks(inp, k, (m - 1) as nat);
    }
}

/// Once the edge pass has ended without a result, it stays so.
proof fn lemma_linked_sticks(inp: Inputs, inverse: Seq<(Seq<char>, usize)>, k: nat, m: nat)
    requires
        k <= m <= inp.selection.len(),
        !(linked(inp, inverse, k) is Done),
    ensures
        linked(inp, inverse, m) == linked(inp, inverse, k),
    decreases m,
{
    if m > k {
        lemma_linked_sticks(inp, inverse, k, (m - 1) as nat);
    }
}

/// Once the incompatibilities of an entry have ended without a result, it
/// stays so.
proof fn lemma_linked_ids_sticks(
    inp: Inputs,
    inverse: Seq<(Seq<char>, usize)>,
    edges: Seq<EdgeView>,
    package: PackageView,
    version: VersionView,
    ids: Seq<usize>,
    j: nat,
    m: nat,
)
    requires
        j <= m <= ids.len(),
        !(linked_ids(inp, inverse, edges, package, version, ids, j) is Done),
    ensures
        linked_ids(inp, inverse, edges, package, version, ids, m) == linked_ids(
            inp,
            inverse,
            edges,
            package,
            version,
            ids,
            j,
        ),
    decreases m,
{
    if m > j {
        lemma_linked_ids_sticks(inp, inverse, edges, package, version, ids, j, (m - 1) as nat);
    }
}

fn link_one(entry: &SelectedPackage, id: usize, state: &State, b: &mut Builder, Ghost(inp): Ghost<
    Inputs,
>) -> (r: Tried<()>)
    requires
        inp.state == *state,
        places_in_range(old(b).assembly().nodes.len() as int, old(b).assembly().inverse),
        edges_in_range(old(b).assembly().nodes.len() as int, old(b).edges()),
    ensures
        match link(
            inp,
            old(b).assembly().inverse,
            old(b).edges(),
            entry.package@,
            entry.version@,
            id,
        ) {
            Outcome::Done(e) => r is Done && final(b).edges() == e && final(b).assembly() == old(
                b,
            ).assembly() && edges_in_range(old(b).assembly().nodes.len() as int, e),
            Outcome::Failed(e) => r matches Tried::Failed(x) && x@ == e,
            Outcome::Unmet => r is Unmet,
        },
{
    if id >= state.incompatibility_store.len() {
        return Tried::Unmet;
    }
    match &state.incompatibility_store[id].kind {
        Kind::FromDependencyOf(sp, sr, dp, dr) => {
            if !crate::table::Key::same_key(sp, &entry.package) {
                return Tried::Done(());
            }
            match (sp, dp) {
                (PubGrubPackage::Package(sn, _, _), PubGrubPackage::Package(dn, _, _)) => {
                    if *sn == *dn {
                        return Tried::Done(());
                    }
                    if !sr.contains(&entry.version) {
                        return Tried::Done(());
                    }
                    let ghost nodes = b.assembly().nodes.len() as int;
                    let ghost inverse = b.assembly().inverse;
                    let ghost raw = graph_edges(b.petgraph);
                    let ghost views = b.edges();
                    let source = match b.inverse.get(sn) {
                        Some(a) => *a,
                        None => {
                            return Tried::Unmet;
                        },
                    };
                    let target = match b.inverse.get(dn) {
                        Some(a) => *a,
                        None => {
                            return Tried::Unmet;
                        },
                    };
                    if graph_edge_count(&b.petgraph) >= u32::MAX as usize {
                        return Tried::Unmet;
                    }
                    proof {
                        lemma_lookup_in_range(nodes, inverse, sn@);
                        lemma_lookup_in_range(nodes, inverse, dn@);
                        lemma_find_edge(views, source as int, target as int, 0);
                        lemma_with_edge_in_range(nodes, views, source as int, target as int, dr@);
                    }
                    let weight = dr.clone();
                    graph_update_edge(&mut b.petgraph, source, target, weight);
                    proof {
                        let after = graph_edges(b.petgraph);
                        let a = source as int;
                        let c = target as int;
                        match find_edge(views, a, c, 0) {
                            Some(k) => {
                                assert(joins(raw, a, c, k));
                                let i = choose|i: int|
                                    joins(raw, a, c, i) && after == raw.update(i, (a, c, weight));
                                if i != k {
                                    if i < k {
                                        assert(views[i].source == views[k].source);
                                    } else {
                                        assert(views[k].source == views[i].source);
                                    }
                                }
                                assert(edge_views(after) =~= with_edge(views, a, c, dr@));
                            },
                            None => {
                                assert forall|i: int| !joins(raw, a, c, i) by {
                                    if 0 <= i < raw.len() {
                                        assert(views[i].source == raw[i].0);
                                    }
                                }
                                assert(edge_views(after) =~= with_edge(views, a, c, dr@));
                            },
                        }
                    }
                    Tried::Done(())
                },
                _ => Tried::Done(()),
            }
        },
        Kind::Other => Tried::Done(()),
    }
}

/// The graph holds an edge from `a` to `b`.
pub open spec fn edge_between(edges: Seq<EdgeView>, a: int, b: int) -> bool {
    exists|i: int| 0 <= i < edges.len() && (#[trigger] edges[i]).source == a && edges[i].target == b
}

/// Those of the first `n` nodes that `a` has an edge to, in ascending
/// order.
pub open spec fn successors(edges: Seq<EdgeView>, a: int, n: nat) -> Seq<usize>
    decreases n,
{
    if n == 0 {
        Seq::empty()
    } else {
        let rest = successors(edges, a, (n - 1) as nat);
        if edge_between(edges, a, n - 1) {
            rest.push((n - 1) as usize)
        } else {
            rest
        }
    }
}

/// Those of the first `n` nodes that have an edge to `b`, in ascending
/// order.
pub open spec fn predecessors(edges: Seq<EdgeView>, b: int, n: nat) -> Seq<usize>
    decreases n,
{
    if n == 0 {
        Seq::empty()
    } else {
        let rest = predecessors(edges, b, (n - 1) as nat);
        if edge_between(edges, n - 1, b) {
            rest.push((n - 1) as usize)
        } else {
            rest
        }
    }
}

/// The successors of `a` among the first `n` nodes are the nodes below `n`
/// that `a` has an edge to.
pub proof fn lemma_successors(edges: Seq<EdgeView>, a: int, n: nat)
    requires
        n <= usize::MAX,
    ensures
        forall|j: int|
            0 <= j < successors(edges, a, n).len() ==> (#[trigger] successors(edges, a, n)[j]) < n
                && edge_between(edges, a, successors(edges, a, n)[j] as int),
        forall|b: int|
            0 <= b < n && edge_between(edges, a, b) ==> exists|j: int|
                0 <= j < successors(edges, a, n).len() && #[trigger] successors(edges, a, n)[j]
                    == b,
    decreases n,
{
    if n > 0 {
        lemma_successors(edges, a, (n - 1) as nat);
        let rest = successors(edges, a, (n - 1) as nat);
        let now = successors(edges, a, n);
        assert forall|b: int| 0 <= b < n && edge_between(edges, a, b) implies exists|j: int|
            0 <= j < now.len() && #[trigger] now[j] == b by {
            if b < n - 1 {
                let j = choose|j: int| 0 <= j < rest.len() && #[trigger] rest[j] == b;
                assert(now[j] == b);
            } else {
                assert(now[now.len() - 1] == b);
            }
        }
    }
}

/// The predecessors of `b` among the first `n` nodes are nodes below `n`.
pub proof fn lemma_predecessors(edges: Seq<EdgeView>, b: int, n: nat)
    requires
        n <= usize::MAX,
    ensures
        forall|j: int|
            0 <= j < predecessors(edges, b, n).len() ==> (#[trigger] predecessors(edges, b, n)[j])
                < n && edge_between(edges, predecessors(edges, b, n)[j] as int, b),
    decreases n,
{
    if n > 0 {
        lemma_predecessors(edges, b, (n - 1) as nat);
        let rest = predecessors(edges, b, (n - 1) as nat);
        let now = predecessors(edges, b, n);
        assert forall|j: int| 0 <= j < now.len() implies (#[trigger] now[j]) < n && edge_between(
            edges,
            now[j] as int,
            b,
        ) by {
            if j < rest.len() {
                assert(now[j] == rest[j]);
            }
        }
    }
}

/// `a` has an edge to a node of `s`.
pub open spec fn walks_on(g: GraphView, s: Set<int>, a: int) -> bool {
    exists|b: int| s.contains(b) && #[trigger] edge_between(g.edges, a, b)
}

/// `s` is a set of nodes, not empty, each of which has an edge to a node of
/// `s`.
pub open spec fn closed_set(g: GraphView, s: Set<int>) -> bool {
    &&& exists|a: int| s.contains(a)
    &&& forall|a: int| s.contains(a) ==> 0 <= a < g.nodes.len() && #[trigger] walks_on(g, s, a)
}

/// The dependencies form a cycle: there are nodes from each of which an
/// edge leads to one of them.
pub open spec fn has_dependency_cycle(g: GraphView) -> bool {
    exists|s: Set<int>| #[trigger] closed_set(g, s)
}

/// The references to the nodes that `a` has an edge to, in the order of the
/// nodes.
pub open spec fn raw_dependencies(g: GraphView, a: int) -> Seq<DependencyView> {
    let succ = successors(g.edges, a, g.nodes.len());
    Seq::new(succ.len(), |j: int| dependency_of(g.nodes[succ[j] as int]))
}

/// The digests recorded for the package of the node `a`, in ascending
/// order; none where none are recorded.
pub open spec fn node_hashes(g: GraphView, a: int) -> Seq<HashDigestView> {
    match lookup(g.hashes, g.nodes[a].name()) {
        Some(h) => sorted_digests(h),
        None => Seq::empty(),
    }
}

/// The lock of a graph: its nodes in their order, each with its digests and
/// the references to the nodes it has an edge to, both in ascending order.
pub open spec fn lock_of(g: GraphView) -> Seq<LockedDistributionView> {
    Seq::new(
        g.nodes.len(),
        |a: int|
            locked(g.nodes[a], node_hashes(g, a), sorted_dependencies(raw_dependencies(g, a))),
    )
}

/// A list of successors for each node tells of a cycle exactly where the
/// graph has one.
proof fn lemma_cycle_by_adjacency(g: GraphView, adj: Seq<Vec<usize>>)
    requires
        well_formed(g),
        adj.len() == g.nodes.len(),
        forall|a: int|
            0 <= a < adj.len() ==> (#[trigger] adj[a])@ == successors(g.edges, a, g.nodes.len()),
    ensures
        cyclic(adj) == has_dependency_cycle(g),
        in_range(adj),
{
    let n = g.nodes.len();
    assert forall|a: int, b: int|
        #![trigger adjacent(adj, a, b)]
        #![trigger edge_between(g.edges, a, b)]
        0 <= a < n implies (adjacent(adj, a, b) <==> edge_between(g.edges, a, b)) by {
        lemma_successors(g.edges, a, n);
        if adjacent(adj, a, b) {
            let j = choose|j: int| 0 <= j < adj[a]@.len() && #[trigger] adj[a]@[j] == b;
            assert(successors(g.edges, a, n)[j] == b);
        }
        if edge_between(g.edges, a, b) {
            let i = choose|i: int|
                0 <= i < g.edges.len() && (#[trigger] g.edges[i]).source == a && g.edges[i].target
                    == b;
            assert(0 <= b < n);
            let j = choose|j: int|
                0 <= j < successors(g.edges, a, n).len() && #[trigger] successors(g.edges, a, n)[j]
                    == b;
            assert(adj[a]@[j] == b);
        }
    }
    assert forall|a: int, j: int| 0 <= a < adj.len() && 0 <= j < adj[a]@.len() implies (
    #[trigger] adj[a]@[j]) < adj.len() by {
        lemma_successors(g.edges, a, n);
        assert(successors(g.edges, a, n)[j] < n);
    }
    if cyclic(adj) {
        let s = choose|s: Set<int>| #[trigger] closed(adj, s);
        assert forall|a: int| #[trigger] s.contains(a) implies 0 <= a < g.nodes.len() by {
            assert(steps_into(adj, s, a));
        }
        assert forall|a: int| s.contains(a) implies #[trigger] walks_on(g, s, a) by {
            assert(steps_into(adj, s, a));
            let b = choose|b: int| s.contains(b) && #[trigger] adjacent(adj, a, b);
            assert(edge_between(g.edges, a, b));
        }
        let w = choose|a: int| s.contains(a);
        assert(s.contains(w));
        assert(closed_set(g, s));
    }
    if has_dependency_cycle(g) {
        let s = choose|s: Set<int>| #[trigger] closed_set(g, s);
        assert forall|a: int| #[trigger] s.contains(a) implies 0 <= a < adj.len() by {
            assert(walks_on(g, s, a));
        }
        assert forall|a: int| s.contains(a) implies #[trigger] steps_into(adj, s, a) by {
            assert(walks_on(g, s, a));
            let b = choose|b: int| s.contains(b) && #[trigger] edge_between(g.edges, a, b);
            assert(adjacent(adj, a, b));
        }
        let w = choose|a: int| s.contains(a);
        assert(s.contains(w));
        assert(closed(adj, s));
    }
}

/// What the graph hands out as the neighbours of a node are the nodes that
/// the node has an edge to.
proof fn lemma_neighbors_are_edges(
    raw: Seq<(int, int, VersionRange)>,
    a: int,
    targets: Seq<usize>,
    b: int,
)
    requires
        targets.map_values(|t: usize| t as int).to_multiset() == targets_from(
            raw,
            a,
            raw.len(),
        ).to_multiset(),
    ensures
        (exists|j: int| 0 <= j < targets.len() && targets[j] == b) <==> edge_between(
            edge_views(raw),
            a,
            b,
        ),
{
    lemma_same_members(targets, targets_from(raw, a, raw.len()), b);
    lemma_targets_from(raw, a, raw.len());
    let views = edge_views(raw);
    if edge_between(views, a, b) {
        let i = choose|i: int|
            0 <= i < views.len() && (#[trigger] views[i]).source == a && views[i].target == b;
        assert(joins(raw, a, b, i));
    }
    if targets_from(raw, a, raw.len()).contains(b) {
        let i = choose|i: int| i < raw.len() && joins(raw, a, b, i);
        assert(views[i].source == a && views[i].target == b);
    }
}

/// What the graph hands out as the sources of the edges into a node are the
/// nodes that have an edge to the node.
proof fn lemma_incoming_are_edges(
    raw: Seq<(int, int, VersionRange)>,
    b: int,
    sources: Seq<usize>,
    a: int,
)
    requires
        sources.map_values(|t: usize| t as int).to_multiset() == sources_into(
            raw,
            b,
            raw.len(),
        ).to_multiset(),
    ensures
        (exists|j: int| 0 <= j < sources.len() && sources[j] == a) <==> edge_between(
            edge_views(raw),
            a,
            b,
        ),
{
    lemma_same_members(sources, sources_into(raw, b, raw.len()), a);
    lemma_sources_into(raw, b, raw.len());
    let views = edge_views(raw);
    if edge_between(views, a, b) {
        let i = choose|i: int|
            0 <= i < views.len() && (#[trigger] views[i]).source == a && views[i].target == b;
        assert(joins(raw, a, b, i));
    }
    if sources_into(raw, b, raw.len()).contains(a) {
        let i = choose|i: int| i < raw.len() && joins(raw, a, b, i);
        assert(views[i].source == a && views[i].target == b);
    }
}

fn list_holds(list: &Vec<usize>, x: usize) -> (r: bool)
    ensures
        r == exists|j: int| 0 <= j < list@.len() && list@[j] == x,
{
    let mut j: usize = 0;
    while j < list.len()
        invariant
            j <= list.len(),
            forall|i: int| 0 <= i < j ==> list@[i] != x,
        decreases list.len() - j,
    {
        if list[j] == x {
            return true;
        }
        j += 1;
    }
    false
}

/// `set` with the parameters that stand on the requirements of the first
/// `n` nodes, going by the metadata that the index holds for each; `None`
/// where the index holds no metadata for one of them.
pub open spec fn with_nodes(
    set: Seq<MarkerParam>,
    nodes: Seq<ResolvedDistView>,
    m: Manifest,
    index: InMemoryIndex,
    n: nat,
) -> Option<Seq<MarkerParam>>
    decreases n,
{
    if n == 0 || n > nodes.len() {
        Some(set)
    } else {
        match with_nodes(set, nodes, m, index, (n - 1) as nat) {
            Some(before) => match lookup(
                index.distributions.deep_view(),
                nodes[n - 1].version_id(),
            ) {
                Some(MetadataResponse::Found(archive)) => Some(
                    with_requirements(
                        before,
                        m,
                        archive.metadata.requires_dist@,
                        archive.metadata.requires_dist@.len(),
                    ),
                ),
                _ => None,
            },
            None => None,
        }
    }
}

/// The parameters of the environment that the resolution looked at, in the
/// order in which they first occur: in the markers on the requirements of
/// every node, then in those on the direct requirements and on the
/// requirements of the editable projects.
pub open spec fn marker_params(g: GraphView, m: Manifest, index: InMemoryIndex) -> Option<
    Seq<MarkerParam>,
> {
    match with_nodes(Seq::empty(), g.nodes, m, index, g.nodes.len()) {
        Some(set) => Some(with_direct(set, m)),
        None => None,
    }
}

proof fn lemma_with_nodes_sticks(
    set: Seq<MarkerParam>,
    nodes: Seq<ResolvedDistView>,
    m: Manifest,
    index: InMemoryIndex,
    k: nat,
    n: nat,
)
    requires
        k <= n <= nodes.len(),
        with_nodes(set, nodes, m, index, k) is None,
    ensures
        with_nodes(set, nodes, m, index, n) is None,
    decreases n,
{
    if n > k {
        lemma_with_nodes_sticks(set, nodes, m, index, k, (n - 1) as nat);
    }
}

/// A complete resolution graph: every node a pinned package, every edge a
/// dependency between two pinned packages.
#[derive(Debug)]
pub struct ResolutionGraph {
    /// The underlying graph.
    petgraph: petgraph::graph::Graph<ResolvedDist, VersionRange, petgraph::Directed, u32>,
    /// The digests of every distribution in this resolution.
    hashes: Table<PackageName, Vec<HashDigest>>,
    /// The enabled extras of every distribution in this resolution.
    extras: Table<PackageName, Vec<ExtraName>>,
    /// The editable projects of this resolution.
    editables: Editables,
    /// What was found worth telling while the graph was built.
    diagnostics: Vec<Diagnostic>,
}

impl View for ResolutionGraph {
    type V = GraphView;

    closed spec fn view(&self) -> GraphView {
        GraphView {
            nodes: dist_views(graph_nodes(self.petgraph)),
            edges: edge_views(graph_edges(self.petgraph)),
            hashes: self.hashes.deep_view(),
            extras: self.extras.deep_view(),
            diagnostics: self.diagnostics.deep_view(),
        }
    }
}

/// The graph is well formed: its nodes are within capacity, its edges join
/// nodes, and no two edges join the same pair in the same direction.
pub open spec fn well_formed(g: GraphView) -> bool {
    &&& g.nodes.len() <= capacity()
    &&& edges_in_range(g.nodes.len() as int, g.edges)
}

/// What is handed to `from_state`, as one value.
pub open spec fn inputs(
    selection: Seq<SelectedPackage>,
    pins: FilePins,
    packages: Table<PackageName, VersionsResponse>,
    distributions: Table<VersionId, MetadataResponse>,
    state: State,
    preferences: Preferences,
    editables: Editables,
    redirects: Table<VerbatimUrl, VerbatimUrl>,
) -> Inputs {
    Inputs { selection, pins, packages, distributions, state, preferences, editables, redirects }
}

impl ResolutionGraph {
    #[verifier::type_invariant]
    spec fn inv(self) -> bool {
        well_formed(self@)
    }

    /// The editable projects of the resolution.
    pub closed spec fn editable_projects(&self) -> Editables {
        self.editables
    }

    /// Builds the graph of a selection, or tells that a table lacks an entry
    /// that the selection calls for (`None`): the pin of a registry package,
    /// the metadata of a package selected with an extra, the incompatibilities
    /// of a selected package or one of them, the node of an end of a
    /// dependency; or that the graph would outgrow its index type.
    pub fn assemble(
        selection: &Vec<SelectedPackage>,
        pins: &FilePins,
        packages: &Table<PackageName, VersionsResponse>,
        distributions: &Table<VersionId, MetadataResponse>,
        state: &State,
        preferences: &Preferences,
        editables: Editables,
        redirects: &Table<VerbatimUrl, VerbatimUrl>,
    ) -> (r: Option<Result<ResolutionGraph, ResolveError>>)
        ensures
            match assembled(
                inputs(
                    selection@,
                    *pins,
                    *packages,
                    *distributions,
                    *state,
                    *preferences,
                    editables,
                    *redirects,
                ),
            ) {
                Outcome::Done(g) => r matches Some(Ok(x)) && x@ == g && well_formed(g)
                    && x.editable_projects() == editables,
                Outcome::Failed(e) => r matches Some(Err(x)) && x@ == e,
                Outcome::Unmet => r is None,
            },
    {
        let ghost inp = inputs(
            selection@,
            *pins,
            *packages,
            *distributions,
            *state,
            *preferences,
            editables,
            *redirects,
        );
        let n = selection.len();
        let mut b = Builder {
            petgraph: graph_with_capacity(n, n),
            inverse: Table::new(),
            hashes: Table::new(),
            extras: Table::new(),
            diagnostics: Vec::new(),
        };
        proof {
            assert(b.assembly().nodes =~= Seq::<ResolvedDistView>::empty());
            assert(b.assembly().diagnostics =~= Seq::<DiagnosticView>::empty());
            assert(b.assembly() == empty_assembly());
            assert(b.edges() =~= Seq::<EdgeView>::empty());
        }
        let mut i: usize = 0;
        while i < n
            invariant
                i <= n,
                n == selection.len(),
                inp == inputs(
                    selection@,
                    *pins,
                    *packages,
                    *distributions,
                    *state,
                    *preferences,
                    editables,
                    *redirects,
                ),
                placed(inp, i as nat) == Outcome::Done(b.assembly()),
                b.edges() == Seq::<EdgeView>::empty(),
                places_in_range(b.assembly().nodes.len() as int, b.assembly().inverse),
            decreases n - i,
        {
            match place_entry(
                &selection[i],
                pins,
                packages,
                distributions,
                preferences,
                &editables,
                redirects,
                &mut b,
                Ghost(inp),
            ) {
                Tried::Done(_) => {},
                Tried::Failed(e) => {
                    proof {
                        lemma_placed_sticks(inp, (i + 1) as nat, n as nat);
                    }
                    return Some(Err(e));
                },
                Tried::Unmet => {
                    proof {
                        lemma_placed_sticks(inp, (i + 1) as nat, n as nat);
                    }
                    return None;
                },
            }
            i += 1;
        }
        let ghost st = b.assembly();
        let mut k: usize = 0;
        while k < n
            invariant
                k <= n,
                n == selection.len(),
                inp == inputs(
                    selection@,
                    *pins,
                    *packages,
                    *distributions,
                    *state,
                    *preferences,
                    editables,
                    *redirects,
                ),
                b.assembly() == st,
                placed(inp, n as nat) == Outcome::Done(st),
                linked(inp, st.inverse, k as nat) == Outcome::Done(b.edges()),
                places_in_range(st.nodes.len() as int, st.inverse),
                edges_in_range(st.nodes.len() as int, b.edges()),
            decreases n - k,
        {
            let entry = &selection[k];
            let ids = match state.incompatibilities.get(&entry.package) {
                Some(ids) => ids,
                None => {
                    proof {
                        lemma_linked_sticks(inp, st.inverse, (k + 1) as nat, n as nat);
                    }
                    return None;
                },
            };
            let ghost e0 = b.edges();
            proof {
                assert(ids.deep_view() =~= ids@);
            }
            let mut j: usize = 0;
            while j < ids.len()
                invariant
                    j <= ids.len(),
                    k < n,
                    n == selection.len(),
                    inp == inputs(
                        selection@,
                        *pins,
                        *packages,
                        *distributions,
                        *state,
                        *preferences,
                        editables,
                        *redirects,
                    ),
                    *entry == selection@[k as int],
                    placed(inp, n as nat) == Outcome::Done(st),
                    linked(inp, st.inverse, k as nat) == Outcome::Done(e0),
                    lookup(inp.state.incompatibilities.deep_view(), entry.package@) == Some(ids@),
                    inp.state == *state,
                    b.assembly() == st,
                    linked_ids(inp, st.inverse, e0, entry.package@, entry.version@, ids@, j as nat)
                        == Outcome::Done(b.edges()),
                    places_in_range(st.nodes.len() as int, st.inverse),
                    edges_in_range(st.nodes.len() as int, b.edges()),
                decreases ids.len() - j,
            {
                match link_one(entry, ids[j], state, &mut b, Ghost(inp)) {
                    Tried::Done(_) => {},
                    Tried::Failed(e) => {
                        proof {
                            lemma_linked_ids_sticks(
                                inp,
                                st.inverse,
                                e0,
                                entry.package@,
                                entry.version@,
                                ids@,
                                (j + 1) as nat,
                                ids@.len(),
                            );
                            lemma_linked_sticks(inp, st.inverse, (k + 1) as nat, n as nat);
                        }
                        return Some(Err(e));
                    },
                    Tried::Unmet => {
                        proof {
                            assert(linked_ids(
                                inp,
                                st.inverse,
                                e0,
                                entry.package@,
                                entry.version@,
                                ids@,
                                (j + 1) as nat,
                            ) is Unmet);
                            lemma_linked_ids_sticks(
                                inp,
                                st.inverse,
                                e0,
                                entry.package@,
                                entry.version@,
                                ids@,
                                (j + 1) as nat,
                                ids@.len(),
                            );
                            assert(linked(inp, st.inverse, (k + 1) as nat) is Unmet);
                            lemma_linked_sticks(inp, st.inverse, (k + 1) as nat, n as nat);
                        }
                        return None;
                    },
                }
                j += 1;
            }
            k += 1;
        }
        let graph = ResolutionGraph {
            petgraph: b.petgraph,
            hashes: b.hashes,
            extras: b.extras,
            editables,
            diagnostics: b.diagnostics,
        };
        Some(Ok(graph))
    }

    /// Builds the graph of a selection whose tables hold every entry that it
    /// calls for.
    pub fn from_state(
        selection: &Vec<SelectedPackage>,
        pins: &FilePins,
        packages: &Table<PackageName, VersionsResponse>,
        distributions: &Table<VersionId, MetadataResponse>,
        state: &State,
        preferences: &Preferences,
        editables: Editables,
        redirects: &Table<VerbatimUrl, VerbatimUrl>,
    ) -> (r: Result<ResolutionGraph, ResolveError>)
        requires
            !(assembled(
                inputs(
                    selection@,
                    *pins,
                    *packages,
                    *distributions,
                    *state,
                    *preferences,
                    editables,
                    *redirects,
                ),
            ) is Unmet),
        ensures
            match assembled(
                inputs(
                    selection@,
                    *pins,
                    *packages,
                    *distributions,
                    *state,
                    *preferences,
                    editables,
                    *redirects,
                ),
            ) {
                Outcome::Done(g) => r matches Ok(x) && x@ == g && well_formed(g)
                    && x.editable_projects() == editables,
                Outcome::Failed(e) => r matches Err(x) && x@ == e,
                Outcome::Unmet => false,
            },
    {
        match ResolutionGraph::assemble(
            selection,
            pins,
            packages,
            distributions,
            state,
            preferences,
            editables,
            redirects,
        ) {
            Some(r) => r,
            None => vstd::pervasive::unreached(),
        }
    }

    /// The number of packages in the graph.
    pub fn len(&self) -> (n: usize)
        ensures
            n == self@.nodes.len(),
    {
        graph_node_count(&self.petgraph)
    }

    /// Whether the graph is without packages.
    pub fn is_empty(&self) -> (r: bool)
        ensures
            r == (self@.nodes.len() == 0),
    {
        graph_node_count(&self.petgraph) == 0
    }

    /// Whether a node of the graph is a distribution of the package `name`.
    pub fn contains(&self, name: &PackageName) -> (r: bool)
        ensures
            r == exists|i: int| 0 <= i < self@.nodes.len() && (#[trigger] self@.nodes[i]).name() == name@,
    {
        proof {
            use_type_invariant(self);
        }
        let n = graph_node_count(&self.petgraph);
        let mut i: usize = 0;
        while i < n
            invariant
                i <= n,
                n == self@.nodes.len(),
                n <= capacity(),
                forall|j: int| 0 <= j < i ==> (#[trigger] self@.nodes[j]).name() != name@,
            decreases n - i,
        {
            if *graph_node(&self.petgraph, i).name() == *name {
                assert(self@.nodes[i as int].name() == name@);
                return true;
            }
            i += 1;
        }
        false
    }

    /// The distributions of the graph, in the order of its nodes.
    pub fn into_distributions(self) -> (r: Vec<ResolvedDist>)
        ensures
            r.deep_view() == self@.nodes,
    {
        let ghost nodes = self@.nodes;
        let r = graph_into_nodes(self.petgraph);
        proof {
            assert(r.deep_view() =~= nodes);
        }
        r
    }

    /// What was found worth telling while the graph was built.
    pub fn diagnostics(&self) -> (r: &[Diagnostic])
        ensures
            r.deep_view() == self@.diagnostics,
    {
        let r = self.diagnostics.as_slice();
        assert(r.deep_view() =~= self@.diagnostics);
        r
    }

    /// The marker tree of this resolution: the conjunction that pins every
    /// parameter of the environment that the resolution looked at to the
    /// value it has in `marker_env`. Where the tree holds in an environment,
    /// the resolution is right for it; it holds in `marker_env`. `None` where
    /// the index holds no metadata for one of the nodes.
    pub fn try_marker_tree(
        &self,
        manifest: &Manifest,
        index: &InMemoryIndex,
        marker_env: &MarkerEnvironment,
    ) -> (r: Option<MarkerTree>)
        ensures
            match marker_params(self@, *manifest, *index) {
                Some(params) => r matches Some(tree) && is_projection(tree, params, *marker_env)
                    && holds(tree, *marker_env),
                None => r is None,
            },
    {
        proof {
            use_type_invariant(self);
        }
        let mut seen: Vec<MarkerParam> = Vec::new();
        let n = graph_node_count(&self.petgraph);
        let mut i: usize = 0;
        while i < n
            invariant
                i <= n,
                n == self@.nodes.len(),
                n <= capacity(),
                with_nodes(Seq::empty(), self@.nodes, *manifest, *index, i as nat) == Some(seen@),
            decreases n - i,
        {
            let dist = graph_node(&self.petgraph, i);
            assert(dist@ == self@.nodes[i as int]);
            let id = dist.version_id();
            match index.distributions.get(&id) {
                Some(MetadataResponse::Found(archive)) => {
                    manifest.add_requirements(&archive.metadata.requires_dist, &mut seen);
                },
                _ => {
                    proof {
                        lemma_with_nodes_sticks(
                            Seq::empty(),
                            self@.nodes,
                            *manifest,
                            *index,
                            (i + 1) as nat,
                            n as nat,
                        );
                    }
                    return None;
                },
            }
            i += 1;
        }
        manifest.add_direct(&mut seen);
        Some(project(&seen, marker_env))
    }

    /// The marker tree of this resolution, where the index holds the metadata
    /// of every node.
    pub fn marker_tree(
        &self,
        manifest: &Manifest,
        index: &InMemoryIndex,
        marker_env: &MarkerEnvironment,
    ) -> (tree: MarkerTree)
        requires
            marker_params(self@, *manifest, *index) is Some,
        ensures
            is_projection(tree, marker_params(self@, *manifest, *index)->Some_0, *marker_env),
            holds(tree, *marker_env),
    {
        match self.try_marker_tree(manifest, index, marker_env) {
            Some(tree) => tree,
            None => vstd::pervasive::unreached(),
        }
    }

    /// The distribution of the node `i`.
    pub(crate) fn node(&self, i: usize) -> (dist: &ResolvedDist)
        requires
            i < self@.nodes.len(),
        ensures
            dist@ == self@.nodes[i as int],
    {
        proof {
            use_type_invariant(self);
        }
        graph_node(&self.petgraph, i)
    }

    /// The digests recorded for the package `name`.
    pub(crate) fn hashes_of(&self, name: &PackageName) -> (r: Option<&Vec<HashDigest>>)
        ensures
            r.deep_view() == lookup(self@.hashes, name@),
    {
        self.hashes.get(name)
    }

    /// The extras recorded for the package `name`.
    pub(crate) fn extras_of(&self, name: &PackageName) -> (r: Option<&Vec<ExtraName>>)
        ensures
            r.deep_view() == lookup(self@.extras, name@),
    {
        self.extras.get(name)
    }

    /// The editable project of the name `name`.
    pub(crate) fn editable_of(&self, name: &PackageName) -> (r: Option<&Editable>)
        ensures
            r.deep_view() == lookup(self.editable_projects().projects.deep_view(), name@),
    {
        self.editables.projects.get(name)
    }

    /// The nodes that the node `a` has an edge to, in ascending order.
    pub(crate) fn successors_of(&self, a: usize) -> (r: Vec<usize>)
        requires
            a < self@.nodes.len(),
        ensures
            r@ == successors(self@.edges, a as int, self@.nodes.len()),
    {
        proof {
            use_type_invariant(self);
        }
        let n = graph_node_count(&self.petgraph);
        let targets = graph_neighbors(&self.petgraph, a);
        let mut r: Vec<usize> = Vec::new();
        let mut b: usize = 0;
        while b < n
            invariant
                b <= n,
                n == self@.nodes.len(),
                targets@.map_values(|t: usize| t as int).to_multiset() == targets_from(
                    graph_edges(self.petgraph),
                    a as int,
                    graph_edges(self.petgraph).len(),
                ).to_multiset(),
                r@ == successors(self@.edges, a as int, b as nat),
            decreases n - b,
        {
            proof {
                lemma_neighbors_are_edges(
                    graph_edges(self.petgraph),
                    a as int,
                    targets@,
                    b as int,
                );
            }
            if list_holds(&targets, b) {
                r.push(b);
            }
            b += 1;
        }
        r
    }

    /// The nodes that have an edge to the node `b`, in ascending order.
    pub(crate) fn predecessors_of(&self, b: usize) -> (r: Vec<usize>)
        requires
            b < self@.nodes.len(),
        ensures
            r@ == predecessors(self@.edges, b as int, self@.nodes.len()),
    {
        proof {
            use_type_invariant(self);
        }
        let n = graph_node_count(&self.petgraph);
        let sources = graph_incoming(&self.petgraph, b);
        let mut r: Vec<usize> = Vec::new();
        let mut a: usize = 0;
        while a < n
            invariant
                a <= n,
                n == self@.nodes.len(),
                sources@.map_values(|t: usize| t as int).to_multiset() == sources_into(
                    graph_edges(self.petgraph),
                    b as int,
                    graph_edges(self.petgraph).len(),
                ).to_multiset(),
                r@ == predecessors(self@.edges, b as int, a as nat),
            decreases n - a,
        {
            proof {
                lemma_incoming_are_edges(
                    graph_edges(self.petgraph),
                    b as int,
                    sources@,
                    a as int,
                );
            }
            if list_holds(&sources, a) {
                r.push(a);
            }
            a += 1;
        }
        r
    }

    /// The lock of the graph: its nodes in their order, each with its
    /// source, its digests in ascending order, and the references to the
    /// nodes it depends on in ascending order. A graph whose dependencies
    /// form a cycle has no lock.
    pub fn lock(&self) -> (r: Result<Lock, LockError>)
        ensures
            match r {
                Ok(lock) => !has_dependency_cycle(self@) && lock.deep_view() == lock_of(self@),
                Err(e) => has_dependency_cycle(self@) && e == LockError::Cycle,
            },
    {
        proof {
            use_type_invariant(self);
        }
        let n = graph_node_count(&self.petgraph);
        let mut adj: Vec<Vec<usize>> = Vec::new();
        let mut a: usize = 0;
        while a < n
            invariant
                a <= n,
                n == self@.nodes.len(),
                adj.len() == a,
                forall|x: int|
                    0 <= x < a ==> (#[trigger] adj@[x])@ == successors(
                        self@.edges,
                        x,
                        self@.nodes.len(),
                    ),
            decreases n - a,
        {
            adj.push(self.successors_of(a));
            a += 1;
        }
        proof {
            lemma_cycle_by_adjacency(self@, adj@);
        }
        if has_cycle(&adj) {
            return Err(LockError::Cycle);
        }
        let mut locked_dists: Vec<LockedDistribution> = Vec::new();
        let mut i: usize = 0;
        while i < n
            invariant
                i <= n,
                n == self@.nodes.len(),
                n <= capacity(),
                adj.len() == n,
                in_range(adj@),
                forall|x: int|
                    0 <= x < n ==> (#[trigger] adj@[x])@ == successors(
                        self@.edges,
                        x,
                        self@.nodes.len(),
                    ),
                locked_dists.len() == i,
                forall|x: int|
                    0 <= x < i ==> (#[trigger] locked_dists@[x])@ == locked(
                        self@.nodes[x],
                        node_hashes(self@, x),
                        raw_dependencies(self@, x),
                    ),
            decreases n - i,
        {
            let dist = graph_node(&self.petgraph, i);
            assert(dist@ == self@.nodes[i as int]);
            let hashes = match self.hashes.get(dist.name()) {
                Some(h) => sort_digests(h),
                None => Vec::new(),
            };
            assert(hashes.deep_view() =~= node_hashes(self@, i as int));
            let mut locked_dist = LockedDistribution::from_resolved_dist(dist, hashes);
            let succ = &adj[i];
            proof {
                assert(raw_dependencies(self@, i as int).take(0) =~= Seq::<
                    DependencyView,
                >::empty());
                assert forall|k: int| 0 <= k < succ@.len() implies (#[trigger] succ@[k]) < n by {
                    assert(adj@[i as int]@[k] < adj@.len());
                }
            }
            let mut j: usize = 0;
            while j < succ.len()
                invariant
                    j <= succ.len(),
                    i < n,
                    n == self@.nodes.len(),
                    n <= capacity(),
                    succ@ == successors(self@.edges, i as int, self@.nodes.len()),
                    forall|k: int| 0 <= k < succ@.len() ==> (#[trigger] succ@[k]) < n,
                    locked_dist@ == locked(
                        self@.nodes[i as int],
                        node_hashes(self@, i as int),
                        raw_dependencies(self@, i as int).take(j as int),
                    ),
                decreases succ.len() - j,
            {
                let dependency_dist = graph_node(&self.petgraph, succ[j]);
                assert(dependency_dist@ == self@.nodes[succ@[j as int] as int]);
                locked_dist.add_dependency(dependency_dist);
                proof {
                    let raw = raw_dependencies(self@, i as int);
                    assert(raw.take(j + 1) =~= raw.take(j as int).push(raw[j as int]));
                }
                j += 1;
            }
            proof {
                let raw = raw_dependencies(self@, i as int);
                assert(raw.take(raw.len() as int) =~= raw);
            }
            locked_dists.push(locked_dist);
            i += 1;
        }
        let lock = Lock::new(locked_dists);
        proof {
            assert(lock.deep_view() =~= lock_of(self@));
        }
        Ok(lock)
    }

    /// The underlying graph.
    pub fn petgraph(&self) -> (g: &petgraph::graph::Graph<
        ResolvedDist,
        VersionRange,
        petgraph::Directed,
        u32,
    >)
        ensures
            dist_views(graph_nodes(*g)) == self@.nodes,
            edge_views(graph_edges(*g)) == self@.edges,
    {
        &self.petgraph
    }
}

/// The text of a diagnostic.
pub open spec fn message_text(d: DiagnosticView) -> Seq<char> {
    match d {
        DiagnosticView::MissingExtra { dist, extra } => "The package `"@ + dist.verbatim()
            + "` does not have an extra named `"@ + extra + "`."@,
    }
}

impl Diagnostic {
    /// The diagnostic as a message for the user.
    pub fn message(&self) -> (text: String)
        ensures
            text@ == message_text(self@),
    {
        match self {
            Diagnostic::MissingExtra { dist, extra } => {
                let mut text = String::new();
                text.append("The package `");
                text.append(dist.verbatim().as_str());
                text.append("` does not have an extra named `");
                text.append(extra.as_str());
                text.append("`.");
                assert(text@ =~= message_text(self@));
                text
            },
        }
    }

    /// Whether the diagnostic is about the package `name`.
    pub fn includes(&self, name: &PackageName) -> (r: bool)
        ensures
            r == match self@ {
                DiagnosticView::MissingExtra { dist, .. } => dist.name() == name@,
            },
    {
        match self {
            Diagnostic::MissingExtra { dist, .. } => *name == *dist.name(),
        }
    }
}

/// The distributions of a resolution, by package.
#[derive(Debug)]
pub struct Resolution {
    pub distributions: Table<PackageName, ResolvedDist>,
}

/// The table that holds the first `n` of the distributions, each under its
/// name; of two with the same name, the later one in the place of the
/// earlier.
pub open spec fn by_name(nodes: Seq<ResolvedDistView>, n: nat) -> Seq<(Seq<char>, ResolvedDistView)>
    decreases n,
{
    if n == 0 || n > nodes.len() {
        Seq::empty()
    } else {
        put(by_name(nodes, (n - 1) as nat), nodes[n - 1].name(), nodes[n - 1])
    }
}

impl Resolution {
    /// The distributions of the graph, each under its name.
    pub fn from(graph: ResolutionGraph) -> (r: Resolution)
        ensures
            r.distributions.deep_view() == by_name(graph@.nodes, graph@.nodes.len()),
    {
        let n = graph.len();
        let mut distributions: Table<PackageName, ResolvedDist> = Table::new();
        let mut i: usize = 0;
        while i < n
            invariant
                i <= n,
                n == graph@.nodes.len(),
                distributions.deep_view() == by_name(graph@.nodes, i as nat),
            decreases n - i,
        {
            let dist = graph.node(i);
            distributions.insert(dist.name().clone(), dist.clone());
            i += 1;
        }
        Resolution { distributions }
    }
}

} // verus!
