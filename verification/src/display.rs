//! The resolution graph as the text of a requirements file.

use crate::dist::{
    digest_text, redact, redacted, HashDigest, HashDigestView, ResolvedDist, VerbatimUrl,
};
use crate::index::{Editable, Editables};
use crate::name::{ExtraName, PackageName};
use crate::order::{
    arranged, dedup_texts, deduped, is_sorted_order, sort_order, sort_texts, sorted_order,
    sorted_texts, texts,
};
use crate::resolution::{predecessors, AnnotationStyle, GraphView, ResolutionGraph};
use crate::table::{lookup, Key, Table};
use crate::text::{
    chars_of, joined, pad, padded, push_chars, push_joined, push_trimmed_lines, trimmed_lines,
};
use vstd::prelude::*;
use vstd::string::StringExecFns;

verus! {

impl Key for String {
    fn same_key(&self, other: &Self) -> (r: bool) {
        *self == *other
    }
}

/// Where each package, and each editable project, was asked for from
/// outside the graph: requirement files, constraints, overrides.
#[derive(Debug)]
pub struct SourceAnnotations {
    pub packages: Table<PackageName, Vec<String>>,
    pub editables: Table<VerbatimUrl, Vec<String>>,
}

/// `owo_colors::OwoColorize::green` wraps the text in the escape sequences
/// that switch the foreground to green and back to the default.
#[verifier::external_body]
fn green(text: &str) -> (r: String)
    ensures
        r@ == green_text(text@),
{
    owo_colors::OwoColorize::green(&text).to_string()
}

/// The text between the escape sequences for a green foreground and for the
/// default foreground.
pub open spec fn green_text(text: Seq<char>) -> Seq<char> {
    seq!['\u{1b}', '[', '3', '2', 'm'] + text + seq!['\u{1b}', '[', '3', '9', 'm']
}

/// What is rendered, and how.
pub struct Layout {
    pub graph: GraphView,
    pub editables: Editables,
    pub no_emit: Seq<Seq<char>>,
    pub show_hashes: bool,
    pub include_extras: bool,
    pub include_annotations: bool,
    pub include_index_annotation: bool,
    pub annotation_style: AnnotationStyle,
    pub sources: SourceAnnotations,
}

/// The names, as mathematical values.
pub open spec fn name_views(names: Seq<PackageName>) -> Seq<Seq<char>> {
    Seq::new(names.len(), |i: int| names[i]@)
}

/// The editable project of the node `i`, if it is one.
pub open spec fn editable_at(l: Layout, i: int) -> Option<Editable> {
    lookup(l.editables.projects.deep_view(), l.graph.nodes[i].name())
}

/// Those of the first `n` nodes that are not left out, in ascending order.
pub open spec fn emitted(l: Layout, n: nat) -> Seq<usize>
    decreases n,
{
    if n == 0 {
        Seq::empty()
    } else {
        let rest = emitted(l, (n - 1) as nat);
        if l.no_emit.contains(l.graph.nodes[n - 1].name()) {
            rest
        } else {
            rest.push((n - 1) as usize)
        }
    }
}

/// The text by which the node `i` is ordered: editable projects first, by
/// their URL; then the other distributions, by their name.
pub open spec fn node_key(l: Layout, i: int) -> Seq<char> {
    match editable_at(l, i) {
        Some(e) => seq!['0'] + e.editable.url@.raw,
        None => seq!['1'] + l.graph.nodes[i].name(),
    }
}

/// The keys of the nodes `nodes`.
pub open spec fn node_keys(l: Layout, nodes: Seq<usize>) -> Seq<Seq<char>> {
    Seq::new(nodes.len(), |k: int| node_key(l, nodes[k] as int))
}

/// The nodes that are rendered, in the order of their rendering: by key,
/// nodes with the same key in the order of the graph.
pub open spec fn ordered(l: Layout) -> Seq<usize> {
    let e = emitted(l, l.graph.nodes.len());
    arranged(e, sort_order(node_keys(l, e)))
}

/// The extras that are shown with the node `i`.
pub open spec fn shown_extras(l: Layout, i: int) -> Seq<Seq<char>> {
    if l.include_extras {
        match lookup(l.graph.extras, l.graph.nodes[i].name()) {
            Some(extras) => extras,
            None => Seq::empty(),
        }
    } else {
        Seq::empty()
    }
}

/// The extras in ascending order, each once.
pub open spec fn extras_text(extras: Seq<Seq<char>>) -> Seq<char> {
    let sorted = sorted_texts(extras);
    let unique = deduped(sorted, sorted.len());
    joined(unique, ", "@, unique.len())
}

/// The requirement line of the node `i`: `-e` and the URL for an editable
/// project; else the name, the extras in brackets where any are shown, and
/// the pin.
pub open spec fn node_line(l: Layout, i: int) -> Seq<char> {
    let d = l.graph.nodes[i];
    match editable_at(l, i) {
        Some(e) => "-e "@ + e.editable.url@.raw,
        None => if shown_extras(l, i).len() == 0 {
            d.verbatim()
        } else {
            d.name() + "["@ + extras_text(shown_extras(l, i)) + "]"@ + d.pin_text()
        },
    }
}

/// The digests that are shown with the node `i`.
pub open spec fn shown_hashes(l: Layout, i: int) -> Seq<HashDigestView> {
    if l.show_hashes {
        match lookup(l.graph.hashes, l.graph.nodes[i].name()) {
            Some(h) => h,
            None => Seq::empty(),
        }
    } else {
        Seq::empty()
    }
}

/// The first `n` digests, each on a continuation line of its own.
pub open spec fn hash_text(hashes: Seq<HashDigestView>, n: nat) -> Seq<char>
    decreases n,
{
    if n == 0 || n > hashes.len() {
        Seq::empty()
    } else {
        hash_text(hashes, (n - 1) as nat) + " \\\n"@ + "    --hash="@ + digest_text(hashes[n - 1])
    }
}

/// The names of the nodes that have an edge to the node `i`, in ascending
/// order.
pub open spec fn requesters(l: Layout, i: int) -> Seq<Seq<char>> {
    let preds = predecessors(l.graph.edges, i, l.graph.nodes.len());
    sorted_texts(Seq::new(preds.len(), |k: int| l.graph.nodes[preds[k] as int].name()))
}

/// The outside sources that asked for the node `i`.
pub open spec fn node_sources(l: Layout, i: int) -> Seq<Seq<char>> {
    let found = match editable_at(l, i) {
        Some(e) => lookup(l.sources.editables.deep_view(), e.editable.url@),
        None => lookup(l.sources.packages.deep_view(), l.graph.nodes[i].name()),
    };
    match found {
        Some(s) => s,
        None => Seq::empty(),
    }
}

/// Each name as an item of a list in a comment.
pub open spec fn bullets(names: Seq<Seq<char>>) -> Seq<Seq<char>> {
    Seq::new(names.len(), |k: int| "    #   "@ + names[k])
}

/// The comment that says who asked for the node `i`, with the text that
/// separates it from the requirement line; nothing where annotations are
/// off or nobody is to be named. On one line, the packages that depend on
/// the node come first and the comment is left out without any; on lines of
/// their own, the outside sources come first.
pub open spec fn annotation(l: Layout, i: int) -> Option<(Seq<char>, Seq<char>)> {
    let r = requesters(l, i);
    let s = node_sources(l, i);
    if !l.include_annotations {
        None
    } else {
        match l.annotation_style {
            AnnotationStyle::Line => if r.len() > 0 {
                Some(
                    (
                        if shown_hashes(l, i).len() > 0 {
                            "\n    "@
                        } else {
                            "  "@
                        },
                        green_text("# via "@ + joined(r + s, ", "@, (r + s).len())),
                    ),
                )
            } else {
                None
            },
            AnnotationStyle::Split => if r.len() == 0 && s.len() == 0 {
                None
            } else if r.len() == 0 && s.len() == 1 {
                Some(("\n"@, green_text("    # via "@ + s[0])))
            } else if r.len() == 1 && s.len() == 0 {
                Some(("\n"@, green_text("    # via "@ + r[0])))
            } else {
                Some(
                    (
                        "\n"@,
                        green_text(
                            "    # via\n"@ + joined(bullets(s + r), "\n"@, bullets(s + r).len()),
                        ),
                    ),
                )
            },
        }
    }
}

/// The comment that names the index of the node `i`, where that is asked
/// for and the node is a registry distribution with a known index. The
/// index is named without the user name and password of its URL.
pub open spec fn index_note(l: Layout, i: int) -> Seq<char> {
    if l.include_index_annotation && editable_at(l, i) is None {
        match l.graph.nodes[i] {
            crate::dist::ResolvedDistView::Registry { index: Some(index), .. } => green_text(
                "    # from "@ + redacted(index),
            ).push('\n'),
            _ => Seq::empty(),
        }
    } else {
        Seq::empty()
    }
}

/// The text of the node `i`: the requirement line with its digests, padded
/// to 24 characters where a comment follows, then the comment, every line
/// without white space at its end; then the note on the index.
pub open spec fn node_text(l: Layout, i: int) -> Seq<char> {
    let line = node_line(l, i) + hash_text(shown_hashes(l, i), shown_hashes(l, i).len());
    let body = match annotation(l, i) {
        Some((separator, comment)) => trimmed_lines(padded(line, 24) + separator + comment, 0),
        None => line.push('\n'),
    };
    body + index_note(l, i)
}

/// The texts of the first `n` of the nodes `nodes`.
pub open spec fn rendered_upto(l: Layout, nodes: Seq<usize>, n: nat) -> Seq<char>
    decreases n,
{
    if n == 0 || n > nodes.len() {
        Seq::empty()
    } else {
        rendered_upto(l, nodes, (n - 1) as nat) + node_text(l, nodes[n - 1] as int)
    }
}

/// The whole text.
pub open spec fn rendered(l: Layout) -> Seq<char> {
    rendered_upto(l, ordered(l), ordered(l).len())
}


/// A node as it is rendered.
#[derive(Debug)]
enum Node<'a> {
    /// A node linked to an editable project.
    Editable(&'a PackageName, &'a Editable),
    /// A node linked to any other distribution, with the extras to show.
    Distribution(&'a PackageName, &'a ResolvedDist, Option<&'a Vec<ExtraName>>),
}

impl<'a> Node<'a> {
    /// The extras that are shown with the node.
    spec fn extras(&self) -> Seq<Seq<char>> {
        match self {
            Node::Distribution(_, _, Some(extras)) => extras.deep_view(),
            _ => Seq::empty(),
        }
    }

    /// The name of the package.
    fn name(&self) -> (name: &'a PackageName)
        ensures
            name@ == match self {
                Node::Editable(n, _) => n@,
                Node::Distribution(n, _, _) => n@,
            },
    {
        match self {
            Node::Editable(name, _) => name,
            Node::Distribution(name, _, _) => name,
        }
    }

    /// The text by which nodes are ordered: editable projects first, by
    /// their URL; then the other distributions, by their name.
    fn key(&self) -> (k: Vec<char>)
        ensures
            k@ == match self {
                Node::Editable(_, e) => seq!['0'] + e.editable.url@.raw,
                Node::Distribution(n, _, _) => seq!['1'] + n@,
            },
    {
        let mut k: Vec<char> = Vec::new();
        match self {
            Node::Editable(_, e) => {
                k.push('0');
                let mut rest = chars_of(e.editable.url.raw.as_str());
                k.append(&mut rest);
            },
            Node::Distribution(name, _, _) => {
                k.push('1');
                let mut rest = chars_of(name.as_str());
                k.append(&mut rest);
            },
        }
        k
    }

    /// The index of the distribution, if it has one.
    fn index(&self) -> (r: Option<&'a String>)
        ensures
            match self {
                Node::Distribution(
                    _,
                    ResolvedDist::Registry { index: Some(i), .. },
                    _,
                ) => r matches Some(s) && s@ == i@,
                _ => r is None,
            },
    {
        match self {
            Node::Editable(_, _) => None,
            Node::Distribution(_, dist, _) => match dist {
                ResolvedDist::Registry { index: Some(i), .. } => Some(i),
                _ => None,
            },
        }
    }

    /// The requirement line of the node.
    fn verbatim(&self) -> (line: String)
        ensures
            line@ == match self {
                Node::Editable(_, e) => "-e "@ + e.editable.url@.raw,
                Node::Distribution(_, d, _) => if self.extras().len() == 0 {
                    d@.verbatim()
                } else {
                    d@.name() + "["@ + extras_text(self.extras()) + "]"@ + d@.pin_text()
                },
            },
    {
        match self {
            Node::Editable(_, e) => {
                let mut line = String::new();
                line.append("-e ");
                line.append(e.editable.url.raw.as_str());
                assert(line@ =~= "-e "@ + e.editable.url@.raw);
                line
            },
            Node::Distribution(_, dist, extras) => {
                let shown: Vec<Vec<char>> = match extras {
                    Some(list) => name_chars(list),
                    None => Vec::new(),
                };
                assert(texts(shown@) =~= self.extras());
                if shown.len() == 0 {
                    return dist.verbatim();
                }
                let sorted = sort_texts(&shown);
                let unique = dedup_texts(&sorted);
                let mut line = String::new();
                line.append(dist.name().as_str());
                line.append("[");
                let ghost head = line@;
                push_joined(&mut line, &unique, &chars_of(", "));
                line.append("]");
                let ghost mid = line@;
                dist.write_pin(&mut line);
                proof {
                    assert(sorted@.len() == sorted_texts(texts(shown@)).len());
                    assert(line@ =~= dist@.name() + "["@ + extras_text(self.extras()) + "]"@
                        + dist@.pin_text());
                }
                line
            },
        }
    }
}

/// The names as texts.
fn name_chars(names: &Vec<ExtraName>) -> (r: Vec<Vec<char>>)
    ensures
        texts(r@) == names.deep_view(),
{
    let mut r: Vec<Vec<char>> = Vec::new();
    let mut i: usize = 0;
    while i < names.len()
        invariant
            i <= names.len(),
            r.len() == i,
            forall|j: int| 0 <= j < i ==> (#[trigger] r@[j])@ == names@[j]@,
        decreases names.len() - i,
    {
        r.push(chars_of(names[i].as_str()));
        i += 1;
    }
    assert(texts(r@) =~= names.deep_view());
    r
}

/// The strings as texts.
fn string_chars(strings: &Vec<String>) -> (r: Vec<Vec<char>>)
    ensures
        texts(r@) == strings.deep_view(),
{
    let mut r: Vec<Vec<char>> = Vec::new();
    let mut i: usize = 0;
    while i < strings.len()
        invariant
            i <= strings.len(),
            r.len() == i,
            forall|j: int| 0 <= j < i ==> (#[trigger] r@[j])@ == strings@[j]@,
        decreases strings.len() - i,
    {
        r.push(chars_of(strings[i].as_str()));
        i += 1;
    }
    assert(texts(r@) =~= strings.deep_view());
    r
}

/// The texts of `a`, then those of `b`.
fn concat_texts(a: &Vec<Vec<char>>, b: &Vec<Vec<char>>) -> (r: Vec<Vec<char>>)
    ensures
        texts(r@) == texts(a@) + texts(b@),
{
    let mut r: Vec<Vec<char>> = Vec::new();
    let mut i: usize = 0;
    while i < a.len()
        invariant
            i <= a.len(),
            r.len() == i,
            forall|j: int| 0 <= j < i ==> (#[trigger] r@[j])@ == a@[j]@,
        decreases a.len() - i,
    {
        r.push(a[i].clone());
        i += 1;
    }
    let mut k: usize = 0;
    while k < b.len()
        invariant
            k <= b.len(),
            r.len() == a.len() + k,
            forall|j: int| 0 <= j < a.len() ==> (#[trigger] r@[j])@ == a@[j]@,
            forall|j: int| a.len() <= j < a.len() + k ==> (#[trigger] r@[j])@ == b@[j - a.len()]@,
        decreases b.len() - k,
    {
        r.push(b[k].clone());
        k += 1;
    }
    assert(texts(r@) =~= texts(a@) + texts(b@));
    r
}

/// Each text as an item of a list in a comment.
fn bullet_texts(names: &Vec<Vec<char>>) -> (r: Vec<Vec<char>>)
    ensures
        texts(r@) == bullets(texts(names@)),
{
    let mut r: Vec<Vec<char>> = Vec::new();
    let mut i: usize = 0;
    while i < names.len()
        invariant
            i <= names.len(),
            r.len() == i,
            forall|j: int| 0 <= j < i ==> (#[trigger] r@[j])@ == "    #   "@ + names@[j]@,
        decreases names.len() - i,
    {
        let mut item = chars_of("    #   ");
        let mut rest = names[i].clone();
        item.append(&mut rest);
        r.push(item);
        i += 1;
    }
    assert(texts(r@) =~= bullets(texts(names@)));
    r
}

/// Appends the digests to `line`, each on a continuation line of its own.
fn push_hashes(line: &mut String, hashes: &Vec<HashDigest>)
    ensures
        final(line)@ == old(line)@ + hash_text(hashes.deep_view(), hashes@.len()),
{
    let ghost hs = hashes.deep_view();
    let mut i: usize = 0;
    assert(line@ =~= old(line)@ + hash_text(hs, 0));
    while i < hashes.len()
        invariant
            i <= hashes.len(),
            hs == hashes.deep_view(),
            line@ == old(line)@ + hash_text(hs, i as nat),
        decreases hashes.len() - i,
    {
        line.append(" \\\n");
        line.append("    --hash=");
        push_chars(line, &hashes[i].canonical());
        assert(line@ =~= old(line)@ + hash_text(hs, (i + 1) as nat));
        i += 1;
    }
}

/// A [`ResolutionGraph`] with the choices for rendering it in the format of
/// a requirements file, `name==version` line by line.
#[derive(Debug)]
pub struct DisplayResolutionGraph<'a> {
    /// The underlying graph.
    resolution: &'a ResolutionGraph,
    /// The packages to leave out of the output.
    no_emit_packages: &'a [PackageName],
    /// Whether to include digests in the output.
    show_hashes: bool,
    /// Whether to include extras in the output.
    include_extras: bool,
    /// Whether to say which packages asked for each package.
    include_annotations: bool,
    /// Whether to say which index each package came from.
    include_index_annotation: bool,
    /// The style of the comments that say who asked for a package.
    annotation_style: AnnotationStyle,
    /// Where the packages were asked for from outside the graph.
    sources: SourceAnnotations,
}

impl<'a> DisplayResolutionGraph<'a> {
    /// What is rendered, and how.
    pub closed spec fn layout(&self) -> Layout {
        Layout {
            graph: self.resolution@,
            editables: self.resolution.editable_projects(),
            no_emit: name_views(self.no_emit_packages@),
            show_hashes: self.show_hashes,
            include_extras: self.include_extras,
            include_annotations: self.include_annotations,
            include_index_annotation: self.include_index_annotation,
            annotation_style: self.annotation_style,
            sources: self.sources,
        }
    }

    /// A rendering of the given graph with the given choices.
    pub fn new(
        underlying: &'a ResolutionGraph,
        no_emit_packages: &'a [PackageName],
        show_hashes: bool,
        include_extras: bool,
        include_annotations: bool,
        include_index_annotation: bool,
        annotation_style: AnnotationStyle,
        sources: SourceAnnotations,
    ) -> (r: DisplayResolutionGraph<'a>)
        ensures
            r.layout() == (Layout {
                graph: underlying@,
                editables: underlying.editable_projects(),
                no_emit: name_views(no_emit_packages@),
                show_hashes,
                include_extras,
                include_annotations,
                include_index_annotation,
                annotation_style,
                sources,
            }),
    {
        DisplayResolutionGraph {
            resolution: underlying,
            no_emit_packages,
            show_hashes,
            include_extras,
            include_annotations,
            include_index_annotation,
            annotation_style,
            sources,
        }
    }

    fn leaves_out(&self, name: &PackageName) -> (r: bool)
        ensures
            r == self.layout().no_emit.contains(name@),
    {
        let ghost views = name_views(self.no_emit_packages@);
        let mut i: usize = 0;
        while i < self.no_emit_packages.len()
            invariant
                i <= self.no_emit_packages.len(),
                views == name_views(self.no_emit_packages@),
                forall|j: int| 0 <= j < i ==> views[j] != name@,
            decreases self.no_emit_packages.len() - i,
        {
            if self.no_emit_packages[i] == *name {
                assert(views[i as int] == name@);
                return true;
            }
            i += 1;
        }
        false
    }

    /// The node `i` as it is rendered.
    fn node_at(&self, i: usize) -> (node: Node<'a>)
        requires
            i < self.layout().graph.nodes.len(),
        ensures
            match editable_at(self.layout(), i as int) {
                Some(e) => node matches Node::Editable(n, x) && *x == e && n@
                    == self.layout().graph.nodes[i as int].name(),
                None => node matches Node::Distribution(n, d, _) && n@
                    == self.layout().graph.nodes[i as int].name() && d@
                    == self.layout().graph.nodes[i as int],
            },
            node.extras() == if editable_at(self.layout(), i as int) is Some {
                Seq::<Seq<char>>::empty()
            } else {
                shown_extras(self.layout(), i as int)
            },
    {
        let dist = self.resolution.node(i);
        let name = dist.name();
        match self.resolution.editable_of(name) {
            Some(e) => Node::Editable(name, e),
            None => if self.include_extras {
                Node::Distribution(name, dist, self.resolution.extras_of(name))
            } else {
                Node::Distribution(name, dist, None)
            },
        }
    }

    /// The comment that says who asked for the node `i`, with the text that
    /// separates it from the requirement line.
    fn annotation_of(&self, i: usize, node: &Node<'a>, has_hashes: bool) -> (r: Option<
        (String, String),
    >)
        requires
            i < self.layout().graph.nodes.len(),
            has_hashes == (shown_hashes(self.layout(), i as int).len() > 0),
            match editable_at(self.layout(), i as int) {
                Some(e) => *node matches Node::Editable(n, x) && *x == e && n@
                    == self.layout().graph.nodes[i as int].name(),
                None => *node matches Node::Distribution(n, d, _) && n@
                    == self.layout().graph.nodes[i as int].name(),
            },
        ensures
            match annotation(self.layout(), i as int) {
                Some((sep, comment)) => r matches Some((s, c)) && s@ == sep && c@ == comment,
                None => r is None,
            },
    {
        if !self.include_annotations {
            return None;
        }
        let ghost l = self.layout();
        let preds = self.resolution.predecessors_of(i);
        let n = self.resolution.len();
        proof {
            crate::resolution::lemma_predecessors(l.graph.edges, i as int, l.graph.nodes.len());
        }
        let mut names: Vec<Vec<char>> = Vec::new();
        let mut k: usize = 0;
        while k < preds.len()
            invariant
                k <= preds.len(),
                l == self.layout(),
                n == l.graph.nodes.len(),
                forall|j: int| 0 <= j < preds@.len() ==> (#[trigger] preds@[j]) < n,
                names.len() == k,
                forall|j: int|
                    0 <= j < k ==> (#[trigger] names@[j])@ == l.graph.nodes[preds@[j] as int].name(),
            decreases preds.len() - k,
        {
            names.push(chars_of(self.resolution.node(preds[k]).name().as_str()));
            k += 1;
        }
        let edges = sort_texts(&names);
        proof {
            assert(texts(names@) =~= Seq::new(
                preds@.len(),
                |k: int| l.graph.nodes[preds@[k] as int].name(),
            ));
            assert(texts(edges@) == requesters(l, i as int));
        }
        let found = match node {
            Node::Editable(_, e) => self.sources.editables.get(&e.editable.url),
            Node::Distribution(name, _, _) => self.sources.packages.get(name),
        };
        let source: Vec<Vec<char>> = match found {
            Some(s) => string_chars(s),
            None => Vec::new(),
        };
        assert(texts(source@) =~= node_sources(l, i as int));
        match self.annotation_style {
            AnnotationStyle::Line => {
                if edges.len() > 0 {
                    let mut separator = String::new();
                    if has_hashes {
                        separator.append("\n    ");
                    } else {
                        separator.append("  ");
                    }
                    let deps = concat_texts(&edges, &source);
                    let mut inner = String::new();
                    inner.append("# via ");
                    push_joined(&mut inner, &deps, &chars_of(", "));
                    assert(inner@ =~= "# via "@ + joined(texts(deps@), ", "@, deps@.len()));
                    assert(separator@ =~= if has_hashes {
                        "\n    "@
                    } else {
                        "  "@
                    });
                    Some((separator, green(inner.as_str())))
                } else {
                    None
                }
            },
            AnnotationStyle::Split => {
                if edges.len() == 0 && source.len() == 0 {
                    None
                } else {
                    let mut separator = String::new();
                    separator.append("\n");
                    assert(separator@ =~= "\n"@);
                    let mut inner = String::new();
                    if edges.len() == 0 && source.len() == 1 {
                        inner.append("    # via ");
                        push_chars(&mut inner, &source[0]);
                        assert(inner@ =~= "    # via "@ + texts(source@)[0]);
                    } else if edges.len() == 1 && source.len() == 0 {
                        inner.append("    # via ");
                        push_chars(&mut inner, &edges[0]);
                        assert(inner@ =~= "    # via "@ + texts(edges@)[0]);
                    } else {
                        let deps = bullet_texts(&concat_texts(&source, &edges));
                        inner.append("    # via\n");
                        push_joined(&mut inner, &deps, &chars_of("\n"));
                        assert(inner@ =~= "    # via\n"@ + joined(
                            texts(deps@),
                            "\n"@,
                            deps@.len(),
                        ));
                    }
                    Some((separator, green(inner.as_str())))
                }
            },
        }
    }

    /// Appends the text of the node `i` to `out`.
    fn render_node(&self, i: usize, out: &mut String)
        requires
            i < self.layout().graph.nodes.len(),
        ensures
            final(out)@ == old(out)@ + node_text(self.layout(), i as int),
    {
        let ghost l = self.layout();
        let node = self.node_at(i);
        let mut line = node.verbatim();
        assert(line@ == node_line(l, i as int));
        let mut has_hashes = false;
        if self.show_hashes {
            match self.resolution.hashes_of(node.name()) {
                Some(hashes) => {
                    if hashes.len() > 0 {
                        has_hashes = true;
                    }
                    push_hashes(&mut line, hashes);
                },
                None => {
                    assert(line@ =~= node_line(l, i as int) + hash_text(
                        Seq::<HashDigestView>::empty(),
                        0,
                    ));
                },
            }
        } else {
            assert(line@ =~= node_line(l, i as int) + hash_text(Seq::<HashDigestView>::empty(), 0));
        }
        assert(line@ == node_line(l, i as int) + hash_text(
            shown_hashes(l, i as int),
            shown_hashes(l, i as int).len(),
        ));
        let ghost start = out@;
        match self.annotation_of(i, &node, has_hashes) {
            Some((separator, comment)) => {
                let mut text = chars_of(line.as_str());
                pad(&mut text, 24);
                let mut sep = chars_of(separator.as_str());
                text.append(&mut sep);
                let mut com = chars_of(comment.as_str());
                text.append(&mut com);
                assert(text@ =~= padded(line@, 24) + separator@ + comment@);
                push_trimmed_lines(out, &text);
            },
            None => {
                out.append(line.as_str());
                out.push('\n');
                assert(out@ =~= start + line@.push('\n'));
            },
        }
        let ghost mid = out@;
        if self.include_index_annotation {
            match node.index() {
                Some(index) => {
                    let mut inner = String::new();
                    inner.append("    # from ");
                    inner.append(redact(index.as_str()).as_str());
                    assert(inner@ =~= "    # from "@ + redacted(index@));
                    let note = green(inner.as_str());
                    out.append(note.as_str());
                    out.push('\n');
                    assert(out@ =~= mid + index_note(l, i as int));
                },
                None => {
                    assert(out@ =~= mid + index_note(l, i as int));
                },
            }
        } else {
            assert(out@ =~= mid + index_note(l, i as int));
        }
        assert(out@ =~= start + node_text(l, i as int));
    }

    /// The graph as the text of a requirements file: a line for each package
    /// that is not left out, editable projects first, then by name; with its
    /// digests and with the comments that were asked for.
    pub fn to_string(&self) -> (text: String)
        ensures
            text@ == rendered(self.layout()),
    {
        let ghost l = self.layout();
        let n = self.resolution.len();
        let mut nodes: Vec<usize> = Vec::new();
        let mut keys: Vec<Vec<char>> = Vec::new();
        let mut i: usize = 0;
        while i < n
            invariant
                i <= n,
                l == self.layout(),
                n == l.graph.nodes.len(),
                nodes@ == emitted(l, i as nat),
                keys.len() == nodes.len(),
                forall|j: int| 0 <= j < nodes.len() ==> (#[trigger] nodes@[j]) < n,
                forall|j: int|
                    0 <= j < keys.len() ==> (#[trigger] keys@[j])@ == node_key(l, nodes@[j] as int),
            decreases n - i,
        {
            let dist = self.resolution.node(i);
            if !self.leaves_out(dist.name()) {
                let node = self.node_at(i);
                keys.push(node.key());
                nodes.push(i);
            }
            i += 1;
        }
        assert(texts(keys@) =~= node_keys(l, nodes@));
        let order = sorted_order(&keys);
        let mut out = String::new();
        let ghost sorted = ordered(l);
        assert(sorted.len() == order.len());
        let mut k: usize = 0;
        assert(out@ =~= rendered_upto(l, sorted, 0));
        while k < order.len()
            invariant
                k <= order.len(),
                l == self.layout(),
                n == l.graph.nodes.len(),
                order.len() == nodes.len(),
                sorted.len() == order.len(),
                is_sorted_order(node_keys(l, nodes@), order@),
                forall|j: int| 0 <= j < nodes.len() ==> (#[trigger] nodes@[j]) < n,
                forall|j: int| 0 <= j < order.len() ==> sorted[j] == nodes@[order@[j] as int],
                out@ == rendered_upto(l, sorted, k as nat),
            decreases order.len() - k,
        {
            assert(order@[k as int] < nodes.len());
            self.render_node(nodes[order[k]], &mut out);
            k += 1;
        }
        out
    }
}

impl Default for SourceAnnotations {
    fn default() -> (r: Self)
        ensures
            r.packages.deep_view() == Seq::<(Seq<char>, Seq<Seq<char>>)>::empty(),
            r.editables.deep_view() == Seq::<(crate::dist::VerbatimUrlView, Seq<Seq<char>>)>::empty(),
    {
        SourceAnnotations { packages: Table::new(), editables: Table::new() }
    }
}

impl<'a> DisplayResolutionGraph<'a> {
    /// The rendering of the graph with the usual choices: every package,
    /// without digests, extras and indexes, with the packages that asked for
    /// each on lines of their own.
    pub fn from(resolution: &'a ResolutionGraph) -> (r: DisplayResolutionGraph<'a>)
        ensures
            r.layout().graph == resolution@,
            r.layout().editables == resolution.editable_projects(),
            r.layout().no_emit == Seq::<Seq<char>>::empty(),
            !r.layout().show_hashes,
            !r.layout().include_extras,
            r.layout().include_annotations,
            !r.layout().include_index_annotation,
            r.layout().annotation_style == AnnotationStyle::Split,
            r.layout().sources.packages.deep_view() == Seq::<(Seq<char>, Seq<Seq<char>>)>::empty(),
            r.layout().sources.editables.deep_view() == Seq::<
                (crate::dist::VerbatimUrlView, Seq<Seq<char>>),
            >::empty(),
    {
        let none: &'a [PackageName] = &[];
        assert(name_views(none@) =~= Seq::<Seq<char>>::empty());
        DisplayResolutionGraph::new(
            resolution,
            none,
            false,
            false,
            true,
            false,
            AnnotationStyle::default(),
            SourceAnnotations::default(),
        )
    }
}

} // verus!
