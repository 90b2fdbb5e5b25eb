//! What the solver hands over: the packages it selected, with their
//! versions, and the incompatibilities it recorded.

use crate::dist::{VerbatimUrl, VerbatimUrlView};
use crate::name::{ExtraName, PackageName};
use crate::range::{IntervalView, VersionRange};
use crate::table::{Key, Table};
use crate::version::{Version, VersionView};
use vstd::prelude::*;

verus! {

/// A package as the solver sees it: the root of the resolution, or a named
/// package, possibly with one of its extras, possibly pinned to a URL.
#[derive(Debug)]
pub enum PubGrubPackage {
    Root(Option<PackageName>),
    Package(PackageName, Option<ExtraName>, Option<VerbatimUrl>),
}

/// A solver package as a mathematical value.
pub enum PackageView {
    Root(Option<Seq<char>>),
    Package(Seq<char>, Option<Seq<char>>, Option<VerbatimUrlView>),
}

impl View for PubGrubPackage {
    type V = PackageView;

    open spec fn view(&self) -> PackageView {
        match self {
            PubGrubPackage::Root(name) => PackageView::Root(name.deep_view()),
            PubGrubPackage::Package(name, extra, url) => PackageView::Package(
                name@,
                extra.deep_view(),
                url.deep_view(),
            ),
        }
    }
}

impl DeepView for PubGrubPackage {
    type V = PackageView;

    open spec fn deep_view(&self) -> PackageView {
        self@
    }
}

impl PackageView {
    /// The name of the package, where it has one.
    pub open spec fn name(self) -> Option<Seq<char>> {
        match self {
            PackageView::Root(_) => None,
            PackageView::Package(name, _, _) => Some(name),
        }
    }
}

fn same_names(a: &Option<PackageName>, b: &Option<PackageName>) -> (r: bool)
    ensures
        r == (a.deep_view() == b.deep_view()),
{
    match (a, b) {
        (Some(x), Some(y)) => *x == *y,
        (None, None) => true,
        _ => false,
    }
}

fn same_extras(a: &Option<ExtraName>, b: &Option<ExtraName>) -> (r: bool)
    ensures
        r == (a.deep_view() == b.deep_view()),
{
    match (a, b) {
        (Some(x), Some(y)) => *x == *y,
        (None, None) => true,
        _ => false,
    }
}

fn same_urls(a: &Option<VerbatimUrl>, b: &Option<VerbatimUrl>) -> (r: bool)
    ensures
        r == (a.deep_view() == b.deep_view()),
{
    match (a, b) {
        (Some(x), Some(y)) => x.same(y),
        (None, None) => true,
        _ => false,
    }
}

impl Key for PubGrubPackage {
    fn same_key(&self, other: &Self) -> (r: bool) {
        match (self, other) {
            (PubGrubPackage::Root(a), PubGrubPackage::Root(b)) => same_names(a, b),
            (PubGrubPackage::Package(n1, e1, u1), PubGrubPackage::Package(n2, e2, u2)) => *n1
                == *n2 && same_extras(e1, e2) && same_urls(u1, u2),
            _ => false,
        }
    }
}

/// A package that the solver selected, with the version it chose.
#[derive(Debug)]
pub struct SelectedPackage {
    pub package: PubGrubPackage,
    pub version: Version,
}

/// Why an incompatibility holds, as far as the graph needs it.
#[derive(Debug)]
pub enum Kind {
    /// The versions of the first package that lie in the first range depend
    /// on the second package within the second range.
    FromDependencyOf(PubGrubPackage, VersionRange, PubGrubPackage, VersionRange),
    /// Anything else: the root's own version, a package without versions, a
    /// derivation from other incompatibilities.
    Other,
}

/// A set of terms that cannot all hold.
#[derive(Debug)]
pub struct Incompatibility {
    pub kind: Kind,
}

impl DeepView for Incompatibility {
    type V = Incompatibility;

    open spec fn deep_view(&self) -> Incompatibility {
        *self
    }
}

/// The solver's record: the incompatibilities, and for each package the
/// places of those that mention it.
#[derive(Debug)]
pub struct State {
    pub incompatibilities: Table<PubGrubPackage, Vec<usize>>,
    pub incompatibility_store: Vec<Incompatibility>,
}

} // verus!
