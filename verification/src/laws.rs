//! What holds of every assembled graph.

use crate::index::MetadataResponse;
use crate::range::range_contains;
use crate::dist::HashDigestView;
use crate::index::{preferred_hashes, InMemoryIndex};
use crate::manifest::{lemma_with_direct_distinct, lemma_with_requirements_distinct, Manifest};
use crate::marker::{distinct, MarkerParam};
use crate::resolution::{
    assembled, chosen_digests, declared, has_dependency_cycle, link, linked, linked_ids, lock_of,
    marker_params, pinned, place, placed, published, with_edge, with_extra, with_nodes, Assembly,
    EdgeView, GraphView, Inputs, Outcome,
};
use crate::solver::{Kind, PackageView, SelectedPackage};
use crate::table::{find, lemma_find_from, lemma_put_lookup, lookup, put};
use crate::version::VersionView;
use vstd::prelude::*;

verus! {

/// The package is a named package without extra.
pub open spec fn is_base(p: PackageView) -> bool {
    p matches PackageView::Package(_, None, _)
}

/// The places, among the first `k` entries of the selection, of the packages
/// without extra, in their order.
pub open spec fn origins(sel: Seq<SelectedPackage>, k: nat) -> Seq<int>
    decreases k,
{
    if k == 0 || k > sel.len() {
        Seq::empty()
    } else {
        let rest = origins(sel, (k - 1) as nat);
        if is_base(sel[k - 1].package@) {
            rest.push(k - 1)
        } else {
            rest
        }
    }
}

/// The place, among the first `k` entries of the selection, of the last
/// package without extra that has the name `name`.
pub open spec fn last_base(sel: Seq<SelectedPackage>, k: nat, name: Seq<char>) -> Option<int>
    decreases k,
{
    if k == 0 || k > sel.len() {
        None
    } else if is_base(sel[k - 1].package@) && sel[k - 1].package@.name() == Some(name) {
        Some(k - 1)
    } else {
        last_base(sel, (k - 1) as nat, name)
    }
}

/// The node at place `i` is what the entry at place `org[i]` of the
/// selection, a package without extra, is pinned to.
pub open spec fn node_source(
    inp: Inputs,
    nodes: Seq<crate::dist::ResolvedDistView>,
    org: Seq<int>,
    i: int,
) -> bool {
    let m = org[i];
    &&& 0 <= m < inp.selection.len()
    &&& inp.selection[m].package@ matches PackageView::Package(name, None, url)
    &&& pinned(inp, name, url, inp.selection[m].version@) == Outcome::Done(nodes[i])
}

/// The table of places records under `name` the node of the last package
/// without extra of that name, and nothing under a name without one.
pub open spec fn records(
    sel: Seq<SelectedPackage>,
    k: nat,
    inverse: Seq<(Seq<char>, usize)>,
    org: Seq<int>,
    name: Seq<char>,
) -> bool {
    match last_base(sel, k, name) {
        Some(m) => lookup(inverse, name) matches Some(p) && 0 <= p < org.len() && org[p as int]
            == m,
        None => lookup(inverse, name) is None,
    }
}

/// The entry at place `m` of the selection is the package `name` with the
/// extra `extra`, and the metadata of its distribution declares the extra.
pub open spec fn witnesses(inp: Inputs, m: int, name: Seq<char>, extra: Seq<char>) -> bool {
    &&& 0 <= m < inp.selection.len()
    &&& inp.selection[m].package@ matches PackageView::Package(n, Some(e), url)
    &&& n == name
    &&& e == extra
    &&& declared(inp, n, url, inp.selection[m].version@, e) == Some(true)
}

/// The package was selected with the extra, and the metadata of its
/// distribution declares it.
pub open spec fn extra_witnessed(inp: Inputs, name: Seq<char>, extra: Seq<char>) -> bool {
    exists|m: int| #[trigger] witnesses(inp, m, name, extra)
}

/// Every extra in the table is witnessed.
pub open spec fn extras_closed(inp: Inputs, extras: Seq<(Seq<char>, Seq<Seq<char>>)>) -> bool {
    forall|i: int, j: int|
        0 <= i < extras.len() && 0 <= j < extras[i].1.len() ==> extra_witnessed(
            inp,
            (#[trigger] extras[i]).0,
            #[trigger] extras[i].1[j],
        )
}

/// The places of the packages without extra are places of the selection, in
/// ascending order.
pub proof fn lemma_origins(sel: Seq<SelectedPackage>, k: nat)
    requires
        k <= sel.len(),
    ensures
        forall|i: int|
            0 <= i < origins(sel, k).len() ==> 0 <= (#[trigger] origins(sel, k)[i]) < k && is_base(
                sel[origins(sel, k)[i]].package@,
            ),
        forall|i: int, j: int|
            0 <= i < j < origins(sel, k).len() ==> (#[trigger] origins(sel, k)[i]) < (
            #[trigger] origins(sel, k)[j]),
        forall|m: int|
            0 <= m < k && is_base(sel[m].package@) ==> exists|i: int|
                0 <= i < origins(sel, k).len() && #[trigger] origins(sel, k)[i] == m,
    decreases k,
{
    if k > 0 {
        lemma_origins(sel, (k - 1) as nat);
        let rest = origins(sel, (k - 1) as nat);
        let org = origins(sel, k);
        assert forall|m: int| 0 <= m < k && is_base(sel[m].package@) implies exists|i: int|
            0 <= i < org.len() && #[trigger] org[i] == m by {
            if m == k - 1 {
                assert(org[rest.len() as int] == m);
            } else {
                let i = choose|i: int| 0 <= i < rest.len() && #[trigger] rest[i] == m;
                assert(org[i] == m);
            }
        }
    }
}

/// What `last_base` returns is the last package without extra of that name.
pub proof fn lemma_last_base(sel: Seq<SelectedPackage>, k: nat, name: Seq<char>)
    requires
        k <= sel.len(),
    ensures
        match last_base(sel, k, name) {
            Some(m) => 0 <= m < k && is_base(sel[m].package@) && sel[m].package@.name() == Some(
                name,
            ) && forall|t: int|
                m < t < k ==> !(is_base((#[trigger] sel[t]).package@) && sel[t].package@.name()
                    == Some(name)),
            None => forall|t: int|
                0 <= t < k ==> !(is_base((#[trigger] sel[t]).package@) && sel[t].package@.name()
                    == Some(name)),
        },
    decreases k,
{
    if k > 0 {
        lemma_last_base(sel, (k - 1) as nat, name);
    }
}

/// After the first `k` entries of the selection, the nodes are what the
/// packages without extra are pinned to, one node for each and in their
/// order; the table of places records the node of each name; and every
/// extra in the table of extras was selected and is declared.
pub proof fn lemma_placed(inp: Inputs, k: nat)
    requires
        k <= inp.selection.len(),
        placed(inp, k) is Done,
    ensures
        placed(inp, k)->Done_0.nodes.len() == origins(inp.selection, k).len(),
        forall|i: int|
            0 <= i < origins(inp.selection, k).len() ==> #[trigger] node_source(
                inp,
                placed(inp, k)->Done_0.nodes,
                origins(inp.selection, k),
                i,
            ),
        forall|name: Seq<char>| #[trigger]
            records(
                inp.selection,
                k,
                placed(inp, k)->Done_0.inverse,
                origins(inp.selection, k),
                name,
            ),
        extras_closed(inp, placed(inp, k)->Done_0.extras),
    decreases k,
{
    let sel = inp.selection;
    if k == 0 {
    } else {
        let prev = placed(inp, (k - 1) as nat);
        lemma_placed(inp, (k - 1) as nat);
        let st = prev->Done_0;
        let now = placed(inp, k)->Done_0;
        let rest = origins(sel, (k - 1) as nat);
        let org = origins(sel, k);
        let entry = sel[k - 1];
        match entry.package@ {
            PackageView::Root(_) => {
                assert forall|name: Seq<char>| #[trigger]
                    records(sel, k, now.inverse, org, name) by {
                    assert(records(sel, (k - 1) as nat, st.inverse, rest, name));
                }
            },
            PackageView::Package(nm, None, url) => {
                let dist = pinned(inp, nm, url, entry.version@)->Done_0;
                assert(now.nodes == st.nodes.push(dist));
                assert(org == rest.push(k - 1));
                assert forall|i: int| 0 <= i < org.len() implies #[trigger] node_source(
                    inp,
                    now.nodes,
                    org,
                    i,
                ) by {
                    if i < rest.len() {
                        assert(node_source(inp, st.nodes, rest, i));
                    }
                }
                assert forall|name: Seq<char>| #[trigger]
                    records(sel, k, now.inverse, org, name) by {
                    assert(records(sel, (k - 1) as nat, st.inverse, rest, name));
                    lemma_put_lookup(st.inverse, nm, st.nodes.len() as usize, name);
                }
            },
            PackageView::Package(nm, Some(extra), url) => {
                assert forall|name: Seq<char>| #[trigger]
                    records(sel, k, now.inverse, org, name) by {
                    assert(records(sel, (k - 1) as nat, st.inverse, rest, name));
                }
                if declared(inp, nm, url, entry.version@, extra) == Some(true) {
                    assert(now.extras == with_extra(st.extras, nm, extra));
                    lemma_with_extra_closed(inp, st.extras, nm, extra, k - 1);
                }
            },
        }
    }
}

/// Adding a selected and declared extra keeps the table of extras closed.
proof fn lemma_with_extra_closed(
    inp: Inputs,
    extras: Seq<(Seq<char>, Seq<Seq<char>>)>,
    name: Seq<char>,
    extra: Seq<char>,
    m: int,
)
    requires
        extras_closed(inp, extras),
        witnesses(inp, m, name, extra),
    ensures
        extras_closed(inp, with_extra(extras, name, extra)),
{
    let t = with_extra(extras, name, extra);
    lemma_find_from(extras, name, 0);
    assert(extra_witnessed(inp, name, extra));
    assert forall|i: int, j: int| 0 <= i < t.len() && 0 <= j < t[i].1.len() implies extra_witnessed(
        inp,
        (#[trigger] t[i]).0,
        #[trigger] t[i].1[j],
    ) by {
        match find(extras, name) {
            Some(p) => {
                if i == p {
                    if j < extras[p].1.len() {
                        assert(t[i].1[j] == extras[p].1[j]);
                        assert(extra_witnessed(inp, extras[p].0, extras[p].1[j]));
                    }
                } else {
                    assert(t[i] == extras[i]);
                    assert(extra_witnessed(inp, extras[i].0, extras[i].1[j]));
                }
            },
            None => {
                if i < extras.len() {
                    assert(t[i] == extras[i]);
                    assert(extra_witnessed(inp, extras[i].0, extras[i].1[j]));
                }
            },
        }
    }
}

/// Every node of an assembled graph is what one package without extra of the
/// selection is pinned to: the editable project of its name, else the pin of
/// the selected version of a registry package, or the artifact at the
/// resolved URL. The packages without extra and the nodes match one to one,
/// in the order of the selection.
pub proof fn lemma_pin_coverage(inp: Inputs, g: GraphView)
    requires
        assembled(inp) == Outcome::Done(g),
    ensures
        g.nodes.len() == origins(inp.selection, inp.selection.len()).len(),
        forall|i: int|
            0 <= i < g.nodes.len() ==> #[trigger] node_source(
                inp,
                g.nodes,
                origins(inp.selection, inp.selection.len()),
                i,
            ),
        forall|m: int|
            0 <= m < inp.selection.len() && is_base(inp.selection[m].package@) ==> exists|i: int|
                0 <= i < g.nodes.len() && #[trigger] origins(
                    inp.selection,
                    inp.selection.len(),
                )[i] == m,
{
    lemma_placed(inp, inp.selection.len());
    lemma_origins(inp.selection, inp.selection.len());
}

/// No two entries of the selection are the same package.
pub open spec fn distinct_packages(sel: Seq<SelectedPackage>) -> bool {
    forall|s: int, t: int|
        0 <= s < t < sel.len() ==> (#[trigger] sel[s]).package@ != (#[trigger] sel[t]).package@
}

/// Where no package is selected twice, no two nodes of an assembled graph
/// come from the same pair of name and URL.
pub proof fn lemma_uniqueness(inp: Inputs, g: GraphView)
    requires
        assembled(inp) == Outcome::Done(g),
        distinct_packages(inp.selection),
    ensures
        forall|i: int, j: int|
            0 <= i < j < g.nodes.len() ==> inp.selection[(#[trigger] origins(
                inp.selection,
                inp.selection.len(),
            )[i])].package@ != inp.selection[(#[trigger] origins(
                inp.selection,
                inp.selection.len(),
            )[j])].package@,
{
    lemma_placed(inp, inp.selection.len());
    lemma_origins(inp.selection, inp.selection.len());
}

/// For every entry in the table of extras of an assembled graph, the
/// selection holds the package with that extra, and the metadata of its
/// distribution declares the extra.
pub proof fn lemma_extra_closure(inp: Inputs, g: GraphView)
    requires
        assembled(inp) == Outcome::Done(g),
    ensures
        extras_closed(inp, g.extras),
{
    lemma_placed(inp, inp.selection.len());
}


/// The incompatibilities that the solver recorded for the entry at place
/// `m` of the selection.
pub open spec fn ids_of(inp: Inputs, m: int) -> Seq<usize> {
    match lookup(inp.state.incompatibilities.deep_view(), inp.selection[m].package@) {
        Some(ids) => ids,
        None => Seq::empty(),
    }
}

/// The entry at place `t` of the selection is `package`, at a version within
/// `range`.
pub open spec fn selects(
    inp: Inputs,
    t: int,
    package: PackageView,
    range: Seq<crate::range::IntervalView>,
) -> bool {
    &&& 0 <= t < inp.selection.len()
    &&& inp.selection[t].package@ == package
    &&& range_contains(range, inp.selection[t].version@)
}

/// Where the incompatibility `id` is a dependency of the entry at place `m`
/// that its selected version has, the package depended on is selected at a
/// version within the range of the dependency.
pub open spec fn dependency_met(inp: Inputs, m: int, id: usize) -> bool {
    if id >= inp.state.incompatibility_store@.len() {
        true
    } else {
        match inp.state.incompatibility_store@[id as int].kind {
            Kind::FromDependencyOf(sp, sr, dp, dr) => if sp@ == inp.selection[m].package@
                && range_contains(sr@, inp.selection[m].version@) && dp@ is Package {
                exists|t: int| #[trigger] selects(inp, t, dp@, dr@)
            } else {
                true
            },
            Kind::Other => true,
        }
    }
}

/// The entry at place `s` is the package `name` at `url` without extra, at
/// the version `version`.
pub open spec fn base_twin(
    sel: Seq<SelectedPackage>,
    s: int,
    name: Seq<char>,
    url: Option<crate::dist::VerbatimUrlView>,
    version: VersionView,
) -> bool {
    &&& 0 <= s < sel.len()
    &&& sel[s].package@ == PackageView::Package(name, None, url)
    &&& sel[s].version@ == version
}

/// Where the entry at place `t` is a package with an extra, the selection
/// holds the same package without extra at the same version.
pub open spec fn accompanied(sel: Seq<SelectedPackage>, t: int) -> bool {
    match sel[t].package@ {
        PackageView::Package(n, Some(_), u) => exists|s: int| #[trigger]
            base_twin(sel, s, n, u, sel[t].version@),
        _ => true,
    }
}

/// A selection as the solver leaves it: every dependency that a selected
/// version has is met within its range; each package with an extra comes
/// with the package itself at the same version; and where a name is
/// selected without extra more than once, it is at one version.
pub open spec fn valid_selection(inp: Inputs) -> bool {
    &&& forall|m: int, q: int|
        0 <= m < inp.selection.len() && 0 <= q < ids_of(inp, m).len() ==> #[trigger] dependency_met(
            inp,
            m,
            ids_of(inp, m)[q],
        )
    &&& forall|t: int| 0 <= t < inp.selection.len() ==> #[trigger] accompanied(inp.selection, t)
    &&& forall|s: int, t: int|
        0 <= s < t < inp.selection.len() && is_base((#[trigger] inp.selection[s]).package@)
            && is_base((#[trigger] inp.selection[t]).package@) && inp.selection[s].package@.name()
            == inp.selection[t].package@.name() ==> inp.selection[s].version@
            == inp.selection[t].version@
}

/// The version that the selection gives to the package of the node at place
/// `b`.
pub open spec fn selected_version(inp: Inputs, b: int) -> VersionView {
    inp.selection[origins(inp.selection, inp.selection.len())[b]].version@
}

/// The target of the edge is a node, and the version selected for it lies
/// within the range of the edge.
pub open spec fn sound_edge(inp: Inputs, e: EdgeView) -> bool {
    &&& 0 <= e.target < origins(inp.selection, inp.selection.len()).len()
    &&& range_contains(e.range, selected_version(inp, e.target))
}

/// The edge joins two different nodes, and is sound where the selection is
/// valid.
pub open spec fn good_edge(inp: Inputs, e: EdgeView) -> bool {
    &&& e.source != e.target
    &&& valid_selection(inp) ==> sound_edge(inp, e)
}

/// Each of the edges is good.
pub open spec fn good_edges(inp: Inputs, edges: Seq<EdgeView>) -> bool {
    forall|i: int| 0 <= i < edges.len() ==> good_edge(inp, #[trigger] edges[i])
}

/// One incompatibility of a selected package keeps the edges good.
proof fn lemma_link_good(inp: Inputs, st: Assembly, edges: Seq<EdgeView>, m: int, q: int)
    requires
        placed(inp, inp.selection.len()) == Outcome::Done(st),
        0 <= m < inp.selection.len(),
        0 <= q < ids_of(inp, m).len(),
        good_edges(inp, edges),
        link(
            inp,
            st.inverse,
            edges,
            inp.selection[m].package@,
            inp.selection[m].version@,
            ids_of(inp, m)[q],
        ) is Done,
    ensures
        good_edges(
            inp,
            link(
                inp,
                st.inverse,
                edges,
                inp.selection[m].package@,
                inp.selection[m].version@,
                ids_of(inp, m)[q],
            )->Done_0,
        ),
{
    let sel = inp.selection;
    let n = sel.len();
    let id = ids_of(inp, m)[q];
    let org = origins(sel, n);
    let out = link(inp, st.inverse, edges, sel[m].package@, sel[m].version@, id)->Done_0;
    if out != edges {
        match inp.state.incompatibility_store@[id as int].kind {
            Kind::FromDependencyOf(sp, sr, dp, dr) => {
                match (sp@, dp@) {
                    (PackageView::Package(sn, _, _), PackageView::Package(dn, de, du)) => {
                        let a = lookup(st.inverse, sn)->Some_0 as int;
                        let b = lookup(st.inverse, dn)->Some_0 as int;
                        let e = EdgeView { source: a, target: b, range: dr@ };
                        lemma_placed(inp, n);
                        lemma_origins(sel, n);
                        assert(records(sel, n, st.inverse, org, sn));
                        assert(records(sel, n, st.inverse, org, dn));
                        lemma_last_base(sel, n, sn);
                        lemma_last_base(sel, n, dn);
                        assert(a != b);
                        if valid_selection(inp) {
                            assert(dependency_met(inp, m, id));
                            let t = choose|t: int| #[trigger] selects(inp, t, dp@, dr@);
                            assert(accompanied(sel, t));
                            let s = if de is Some {
                                choose|s: int| #[trigger] base_twin(sel, s, dn, du, sel[t].version@)
                            } else {
                                t
                            };
                            assert(base_twin(sel, s, dn, du, sel[t].version@));
                            let l = last_base(sel, n, dn)->Some_0;
                            assert(is_base(sel[s].package@));
                            assert(is_base(sel[l].package@));
                            assert(sel[l].version@ == sel[s].version@) by {
                                if l < s {
                                    assert(sel[l].package@.name() == sel[s].package@.name());
                                } else if s < l {
                                    assert(sel[s].package@.name() == sel[l].package@.name());
                                }
                            }
                            assert(sound_edge(inp, e));
                        }
                        assert(good_edge(inp, e));
                        crate::resolution::lemma_with_edge_holds(edges, a, b, dr@);
                        assert forall|i: int| 0 <= i < out.len() implies good_edge(
                            inp,
                            #[trigger] out[i],
                        ) by {
                            if out[i] != e {
                                assert(out[i] == edges[i]);
                            }
                        }
                    },
                    _ => {},
                }
            },
            Kind::Other => {},
        }
    }
}

/// The incompatibilities of one selected package keep the edges good.
proof fn lemma_linked_ids_good(inp: Inputs, st: Assembly, edges: Seq<EdgeView>, m: int, j: nat)
    requires
        placed(inp, inp.selection.len()) == Outcome::Done(st),
        0 <= m < inp.selection.len(),
        j <= ids_of(inp, m).len(),
        good_edges(inp, edges),
        linked_ids(
            inp,
            st.inverse,
            edges,
            inp.selection[m].package@,
            inp.selection[m].version@,
            ids_of(inp, m),
            j,
        ) is Done,
    ensures
        good_edges(
            inp,
            linked_ids(
                inp,
                st.inverse,
                edges,
                inp.selection[m].package@,
                inp.selection[m].version@,
                ids_of(inp, m),
                j,
            )->Done_0,
        ),
    decreases j,
{
    if j > 0 {
        lemma_linked_ids_good(inp, st, edges, m, (j - 1) as nat);
        let before = linked_ids(
            inp,
            st.inverse,
            edges,
            inp.selection[m].package@,
            inp.selection[m].version@,
            ids_of(inp, m),
            (j - 1) as nat,
        )->Done_0;
        lemma_link_good(inp, st, before, m, j - 1);
    }
}

/// The incompatibilities of the first `k` entries leave good edges.
proof fn lemma_linked_good(inp: Inputs, st: Assembly, k: nat)
    requires
        placed(inp, inp.selection.len()) == Outcome::Done(st),
        k <= inp.selection.len(),
        linked(inp, st.inverse, k) is Done,
    ensures
        good_edges(inp, linked(inp, st.inverse, k)->Done_0),
    decreases k,
{
    if k > 0 {
        lemma_linked_good(inp, st, (k - 1) as nat);
        let before = linked(inp, st.inverse, (k - 1) as nat)->Done_0;
        lemma_linked_ids_good(inp, st, before, k - 1, ids_of(inp, k - 1).len());
    }
}

/// In the graph of a valid selection, the version selected for the target
/// of every edge lies within the range of the edge.
pub proof fn lemma_constraint_soundness(inp: Inputs, g: GraphView)
    requires
        assembled(inp) == Outcome::Done(g),
        valid_selection(inp),
    ensures
        forall|i: int| 0 <= i < g.edges.len() ==> sound_edge(inp, #[trigger] g.edges[i]),
        g.nodes.len() == origins(inp.selection, inp.selection.len()).len(),
{
    let st = placed(inp, inp.selection.len())->Done_0;
    lemma_linked_good(inp, st, inp.selection.len());
    lemma_placed(inp, inp.selection.len());
    assert forall|i: int| 0 <= i < g.edges.len() implies sound_edge(inp, #[trigger] g.edges[i]) by {
        assert(good_edge(inp, g.edges[i]));
    }
}

/// No edge of an assembled graph joins a node to itself.
pub proof fn lemma_no_self_edges(inp: Inputs, g: GraphView)
    requires
        assembled(inp) == Outcome::Done(g),
    ensures
        forall|i: int| 0 <= i < g.edges.len() ==> (#[trigger] g.edges[i]).source != g.edges[i].target,
{
    let st = placed(inp, inp.selection.len())->Done_0;
    lemma_linked_good(inp, st, inp.selection.len());
    assert forall|i: int| 0 <= i < g.edges.len() implies (#[trigger] g.edges[i]).source
        != g.edges[i].target by {
        assert(good_edge(inp, g.edges[i]));
    }
}


/// The digests that are chosen for the entry at place `m` of the selection,
/// a package without extra: those that the preferences record for its
/// version, where they record any; else those that are published for it.
pub open spec fn chosen_for(inp: Inputs, m: int) -> Option<Seq<HashDigestView>> {
    match inp.selection[m].package@ {
        PackageView::Package(name, None, url) => match pinned(
            inp,
            name,
            url,
            inp.selection[m].version@,
        ) {
            Outcome::Done(dist) => chosen_digests(
                preferred_hashes(inp.preferences.pins.deep_view(), name, inp.selection[m].version@),
                published(inp, name, url, inp.selection[m].version@, dist),
            ),
            _ => None,
        },
        _ => None,
    }
}

/// The digests chosen for the last of the first `k` entries of the
/// selection that is the package `name` without extra and has any.
pub open spec fn last_chosen(inp: Inputs, k: nat, name: Seq<char>) -> Option<Seq<HashDigestView>>
    decreases k,
{
    if k == 0 || k > inp.selection.len() {
        None
    } else if is_base(inp.selection[k - 1].package@) && inp.selection[k - 1].package@.name()
        == Some(name) && chosen_for(inp, k - 1) is Some {
        chosen_for(inp, k - 1)
    } else {
        last_chosen(inp, (k - 1) as nat, name)
    }
}

proof fn lemma_placed_digests(inp: Inputs, k: nat, name: Seq<char>)
    requires
        k <= inp.selection.len(),
        placed(inp, k) is Done,
    ensures
        lookup(placed(inp, k)->Done_0.hashes, name) == last_chosen(inp, k, name),
    decreases k,
{
    if k > 0 {
        lemma_placed_digests(inp, (k - 1) as nat, name);
        let st = placed(inp, (k - 1) as nat)->Done_0;
        match inp.selection[k - 1].package@ {
            PackageView::Package(nm, None, url) => {
                match chosen_for(inp, k - 1) {
                    Some(d) => {
                        lemma_put_lookup(st.hashes, nm, d, name);
                    },
                    None => {},
                }
            },
            _ => {},
        }
    }
}

/// The digests that an assembled graph records under a name are those
/// chosen for the package of that name: the digests of the preferences for
/// the selected version where they hold any, else the digests that are
/// published, in ascending order. Where the name is selected more than
/// once, the last selection with digests counts.
pub proof fn lemma_digests_recorded(inp: Inputs, g: GraphView, name: Seq<char>)
    requires
        assembled(inp) == Outcome::Done(g),
    ensures
        lookup(g.hashes, name) == last_chosen(inp, inp.selection.len(), name),
{
    lemma_placed_digests(inp, inp.selection.len(), name);
}

/// The same inputs give the same graph, and the same graph the same lock:
/// nothing but what is handed in decides the outcome.
pub proof fn lemma_determinism(inp: Inputs, first: GraphView, second: GraphView)
    requires
        assembled(inp) == Outcome::Done(first),
        assembled(inp) == Outcome::Done(second),
    ensures
        first == second,
        has_dependency_cycle(first) == has_dependency_cycle(second),
        lock_of(first) == lock_of(second),
{
}


/// The two inputs differ in nothing but the preferences.
pub open spec fn same_but_preferences(a: Inputs, b: Inputs) -> bool {
    b == (Inputs { preferences: b.preferences, ..a })
}

/// No name is selected without extra twice.
pub open spec fn one_base_per_name(sel: Seq<SelectedPackage>) -> bool {
    forall|s: int, t: int|
        0 <= s < t < sel.len() && is_base((#[trigger] sel[s]).package@) && is_base(
            (#[trigger] sel[t]).package@,
        ) ==> sel[s].package@.name() != sel[t].package@.name()
}

/// For every selected package without extra, the preferences of `b` record
/// for its version the digests that the graph `g` holds under its name.
pub open spec fn feeds_back(b: Inputs, g: GraphView) -> bool {
    forall|m: int|
        0 <= m < b.selection.len() && is_base((#[trigger] b.selection[m]).package@)
            ==> preferred_hashes(
            b.preferences.pins.deep_view(),
            b.selection[m].package@.name()->Some_0,
            b.selection[m].version@,
        ) == lookup(g.hashes, b.selection[m].package@.name()->Some_0)
}

/// The preferences decide nothing of the node pass but the digests.
proof fn lemma_placed_same(a: Inputs, b: Inputs, k: nat)
    requires
        same_but_preferences(a, b),
        k <= a.selection.len(),
    ensures
        match placed(a, k) {
            Outcome::Done(st) => placed(b, k) matches Outcome::Done(st2) && st2.nodes == st.nodes
                && st2.inverse == st.inverse && st2.extras == st.extras && st2.diagnostics
                == st.diagnostics,
            other => placed(b, k) == other,
        },
    decreases k,
{
    if k > 0 {
        lemma_placed_same(a, b, (k - 1) as nat);
        match placed(a, (k - 1) as nat) {
            Outcome::Done(st) => {
                let st2 = placed(b, (k - 1) as nat)->Done_0;
                let package = a.selection[k - 1].package@;
                let version = a.selection[k - 1].version@;
                match package {
                    PackageView::Package(name, extra, url) => {
                        assert(pinned(a, name, url, version) == pinned(b, name, url, version));
                        if extra is Some {
                            assert(declared(a, name, url, version, extra->Some_0) == declared(
                                b,
                                name,
                                url,
                                version,
                                extra->Some_0,
                            ));
                        }
                    },
                    _ => {},
                }
            },
            _ => {},
        }
    }
}

/// The preferences decide nothing of the edge pass.
proof fn lemma_linked_same(a: Inputs, b: Inputs, inverse: Seq<(Seq<char>, usize)>, k: nat)
    requires
        same_but_preferences(a, b),
        k <= a.selection.len(),
    ensures
        linked(a, inverse, k) == linked(b, inverse, k),
    decreases k,
{
    if k > 0 {
        lemma_linked_same(a, b, inverse, (k - 1) as nat);
        match linked(a, inverse, (k - 1) as nat) {
            Outcome::Done(e) => {
                let entry = a.selection[k - 1];
                match lookup(a.state.incompatibilities.deep_view(), entry.package@) {
                    Some(ids) => {
                        lemma_linked_ids_same(a, b, inverse, e, k - 1, ids, ids.len());
                    },
                    None => {},
                }
            },
            _ => {},
        }
    }
}

proof fn lemma_linked_ids_same(
    a: Inputs,
    b: Inputs,
    inverse: Seq<(Seq<char>, usize)>,
    edges: Seq<EdgeView>,
    m: int,
    ids: Seq<usize>,
    j: nat,
)
    requires
        same_but_preferences(a, b),
        0 <= m < a.selection.len(),
        j <= ids.len(),
    ensures
        linked_ids(a, inverse, edges, a.selection[m].package@, a.selection[m].version@, ids, j)
            == linked_ids(b, inverse, edges, a.selection[m].package@, a.selection[m].version@, ids, j),
    decreases j,
{
    if j > 0 {
        lemma_linked_ids_same(a, b, inverse, edges, m, ids, (j - 1) as nat);
    }
}

/// Where a name is selected without extra once, the digests chosen for the
/// last such selection are those chosen for that one.
proof fn lemma_last_chosen_once(inp: Inputs, k: nat, name: Seq<char>, m: int)
    requires
        k <= inp.selection.len(),
        one_base_per_name(inp.selection),
        0 <= m < inp.selection.len(),
        is_base(inp.selection[m].package@),
        inp.selection[m].package@.name() == Some(name),
    ensures
        last_chosen(inp, k, name) == if m < k {
            chosen_for(inp, m)
        } else {
            None
        },
    decreases k,
{
    if k > 0 {
        lemma_last_chosen_once(inp, (k - 1) as nat, name, m);
        if k - 1 != m && is_base(inp.selection[k - 1].package@) && inp.selection[k - 1].package@.name()
            == Some(name) {
            if k - 1 < m {
                assert(inp.selection[k - 1].package@.name() != inp.selection[m].package@.name());
            } else {
                assert(inp.selection[m].package@.name() != inp.selection[k - 1].package@.name());
            }
        }
    }
}

/// Where no package without extra of the name is selected, no digests are
/// chosen for it.
proof fn lemma_last_chosen_none(inp: Inputs, k: nat, name: Seq<char>)
    requires
        k <= inp.selection.len(),
        forall|m: int|
            0 <= m < inp.selection.len() ==> !(is_base((#[trigger] inp.selection[m]).package@)
                && inp.selection[m].package@.name() == Some(name)),
    ensures
        last_chosen(inp, k, name) is None,
    decreases k,
{
    if k > 0 {
        lemma_last_chosen_none(inp, (k - 1) as nat, name);
    }
}

/// Feeding the digests of a graph back as preferences changes nothing:
/// where the same packages are selected again, no name without extra twice,
/// and the preferences record for each the digests that the graph holds
/// under its name, the new graph has the same nodes, edges, extras and
/// diagnostics, holds the same digests under every name, and has the same
/// lock.
pub proof fn lemma_digests_fed_back(a: Inputs, b: Inputs, g: GraphView)
    requires
        assembled(a) == Outcome::Done(g),
        same_but_preferences(a, b),
        one_base_per_name(a.selection),
        feeds_back(b, g),
    ensures
        assembled(b) matches Outcome::Done(g2) && g2.nodes == g.nodes && g2.edges == g.edges
            && g2.extras == g.extras && g2.diagnostics == g.diagnostics && (forall|name: Seq<char>|
            lookup(g2.hashes, name) == lookup(g.hashes, name)) && lock_of(g2) == lock_of(g),
{
    let n = a.selection.len();
    lemma_placed_same(a, b, n);
    let st = placed(a, n)->Done_0;
    lemma_linked_same(a, b, st.inverse, n);
    let g2 = assembled(b)->Done_0;
    assert forall|name: Seq<char>| lookup(g2.hashes, name) == lookup(g.hashes, name) by {
        lemma_placed_digests(a, n, name);
        lemma_placed_digests(b, n, name);
        if exists|m: int|
            0 <= m < n && is_base((#[trigger] a.selection[m]).package@)
                && a.selection[m].package@.name() == Some(name) {
            let m = choose|m: int|
                0 <= m < n && is_base((#[trigger] a.selection[m]).package@)
                    && a.selection[m].package@.name() == Some(name);
            lemma_last_chosen_once(a, n, name, m);
            lemma_last_chosen_once(b, n, name, m);
            match a.selection[m].package@ {
                PackageView::Package(nm, None, url) => {
                    let version = a.selection[m].version@;
                    assert(pinned(a, nm, url, version) == pinned(b, nm, url, version));
                    lemma_placed_not_stuck(a, n, m);
                    let dist = pinned(a, nm, url, version)->Done_0;
                    assert(published(a, nm, url, version, dist) == published(
                        b,
                        nm,
                        url,
                        version,
                        dist,
                    ));
                    assert(is_base(b.selection[m].package@));
                },
                _ => {},
            }
        } else {
            lemma_last_chosen_none(a, n, name);
            lemma_last_chosen_none(b, n, name);
        }
    }
    assert(lock_of(g2) =~= lock_of(g)) by {
        assert forall|i: int| 0 <= i < g.nodes.len() implies crate::resolution::node_hashes(g2, i)
            == crate::resolution::node_hashes(g, i) by {}
        assert forall|i: int| 0 <= i < g.nodes.len() implies crate::resolution::raw_dependencies(
            g2,
            i,
        ) =~= crate::resolution::raw_dependencies(g, i) by {}
    }
}

/// Where the node pass succeeds, every package without extra is pinned.
proof fn lemma_placed_not_stuck(inp: Inputs, k: nat, m: int)
    requires
        k <= inp.selection.len(),
        placed(inp, k) is Done,
        0 <= m < k,
        is_base(inp.selection[m].package@),
    ensures
        inp.selection[m].package@ matches PackageView::Package(name, _, url) && pinned(
            inp,
            name,
            url,
            inp.selection[m].version@,
        ) is Done,
    decreases k,
{
    if k - 1 > m {
        lemma_placed_not_stuck(inp, (k - 1) as nat, m);
    }
}

proof fn lemma_with_nodes_distinct(
    nodes: Seq<crate::dist::ResolvedDistView>,
    m: Manifest,
    index: InMemoryIndex,
    n: nat,
)
    requires
        with_nodes(Seq::empty(), nodes, m, index, n) is Some,
    ensures
        distinct(with_nodes(Seq::empty(), nodes, m, index, n)->Some_0),
    decreases n,
{
    if n > 0 && n <= nodes.len() {
        lemma_with_nodes_distinct(nodes, m, index, (n - 1) as nat);
        let before = with_nodes(Seq::empty(), nodes, m, index, (n - 1) as nat)->Some_0;
        match lookup(index.distributions.deep_view(), nodes[n - 1].version_id()) {
            Some(MetadataResponse::Found(archive)) => {
                lemma_with_requirements_distinct(
                    before,
                    m,
                    archive.metadata.requires_dist@,
                    archive.metadata.requires_dist@.len(),
                );
            },
            _ => {},
        }
    }
}

/// The parameters that a resolution looked at form a set: none of them
/// occurs twice, so the marker tree pins each of them once.
pub proof fn lemma_marker_params_distinct(g: GraphView, m: Manifest, index: InMemoryIndex)
    requires
        marker_params(g, m, index) is Some,
    ensures
        distinct(marker_params(g, m, index)->Some_0),
{
    lemma_with_nodes_distinct(g.nodes, m, index, g.nodes.len());
    lemma_with_direct_distinct(with_nodes(Seq::empty(), g.nodes, m, index, g.nodes.len())->Some_0, m);
}

} // verus!
