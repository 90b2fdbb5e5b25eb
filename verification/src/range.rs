//! Sets of versions, held as a union of intervals.

use crate::version::{version_le, version_lt, with_release, PreKind, Version, VersionView};
use pep440_rs::{Prerelease, PrereleaseKind};
use pubgrub::Range;
use vstd::prelude::*;

verus! {

/// One end of an interval of versions.
#[derive(Debug)]
pub enum Bound {
    Unbounded,
    Included(Version),
    Excluded(Version),
}

/// One end of an interval, as a mathematical value.
pub enum BoundView {
    Unbounded,
    Included(VersionView),
    Excluded(VersionView),
}

impl View for Bound {
    type V = BoundView;

    open spec fn view(&self) -> BoundView {
        match self {
            Bound::Unbounded => BoundView::Unbounded,
            Bound::Included(v) => BoundView::Included(v@),
            Bound::Excluded(v) => BoundView::Excluded(v@),
        }
    }
}

impl Clone for Bound {
    fn clone(&self) -> (r: Self)
        ensures
            r@ == self@,
    {
        match self {
            Bound::Unbounded => Bound::Unbounded,
            Bound::Included(v) => Bound::Included(v.clone()),
            Bound::Excluded(v) => Bound::Excluded(v.clone()),
        }
    }
}

/// The versions from `lower` to `upper`.
#[derive(Debug)]
pub struct Interval {
    pub lower: Bound,
    pub upper: Bound,
}

/// An interval as a mathematical value.
pub struct IntervalView {
    pub lower: BoundView,
    pub upper: BoundView,
}

impl View for Interval {
    type V = IntervalView;

    open spec fn view(&self) -> IntervalView {
        IntervalView { lower: self.lower@, upper: self.upper@ }
    }
}

impl Clone for Interval {
    fn clone(&self) -> (r: Self)
        ensures
            r@ == self@,
    {
        Interval { lower: self.lower.clone(), upper: self.upper.clone() }
    }
}

/// `v` lies at or above the lower end `b`.
pub open spec fn above_lower(b: BoundView, v: VersionView) -> bool {
    match b {
        BoundView::Unbounded => true,
        BoundView::Included(x) => version_le(x, v),
        BoundView::Excluded(x) => version_lt(x, v),
    }
}

/// `v` lies at or below the upper end `b`.
pub open spec fn below_upper(b: BoundView, v: VersionView) -> bool {
    match b {
        BoundView::Unbounded => true,
        BoundView::Included(x) => version_le(v, x),
        BoundView::Excluded(x) => version_lt(v, x),
    }
}

/// `v` lies in the interval.
pub open spec fn interval_holds(i: IntervalView, v: VersionView) -> bool {
    above_lower(i.lower, v) && below_upper(i.upper, v)
}

/// `v` lies in one of the intervals.
pub open spec fn range_contains(r: Seq<IntervalView>, v: VersionView) -> bool {
    exists|i: int| 0 <= i < r.len() && interval_holds(#[trigger] r[i], v)
}

/// A set of versions: the union of its intervals.
#[derive(Debug)]
pub struct VersionRange {
    pub segments: Vec<Interval>,
}

impl View for VersionRange {
    type V = Seq<IntervalView>;

    open spec fn view(&self) -> Seq<IntervalView> {
        Seq::new(self.segments@.len(), |i: int| self.segments@[i]@)
    }
}

impl Clone for VersionRange {
    fn clone(&self) -> (r: Self)
        ensures
            r@ == self@,
    {
        let segments = self.segments.clone();
        proof {
            assert(segments@.len() == self.segments@.len());
            assert forall|i: int| 0 <= i < segments@.len() implies segments@[i]@
                == self.segments@[i]@ by {
                assert(cloned(self.segments@[i], segments@[i]));
            }
        }
        let r = VersionRange { segments };
        proof {
            assert(r@ =~= self@);
        }
        r
    }
}

/// `pubgrub::Range::from_range_bounds` makes the set of the versions between
/// the two bounds, each turned into a version of `pep440_rs` as
/// `pep440_rs::Version::new` with `with_epoch`, `with_pre`, `with_post` and
/// `with_dev` makes it; `contains` tells whether the version lies in it: not
/// below the lower bound and not above the upper one, by `Ord for Version`.
/// `new` panics without release numbers.
#[verifier::external_body]
fn pubgrub_holds(lower: &Bound, upper: &Bound, v: &Version) -> (r: bool)
    requires
        lower@ == plain_bound(lower@),
        upper@ == plain_bound(upper@),
        v.release@.len() > 0,
    ensures
        r == interval_holds(IntervalView { lower: lower@, upper: upper@ }, v@),
{
    let version = |v: &Version| pep440_rs::Version::new(&v.release).with_epoch(v.epoch).with_pre(
        v.pre.map(|p| Prerelease { kind: match p.0 {
            PreKind::Alpha => PrereleaseKind::Alpha,
            PreKind::Beta => PrereleaseKind::Beta,
            PreKind::Rc => PrereleaseKind::Rc,
        }, number: p.1 })).with_post(v.post).with_dev(v.dev);
    let bound = |b: &Bound| match b {
        Bound::Unbounded => std::ops::Bound::Unbounded,
        Bound::Included(x) => std::ops::Bound::Included(version(x)),
        Bound::Excluded(x) => std::ops::Bound::Excluded(version(x)),
    };
    Range::<pep440_rs::Version>::from_range_bounds((bound(lower), bound(upper))).contains(&version(v))
}

/// The bound with the release number zero in place of no release numbers.
pub open spec fn plain_bound(b: BoundView) -> BoundView {
    match b {
        BoundView::Unbounded => BoundView::Unbounded,
        BoundView::Included(x) => BoundView::Included(with_release(x)),
        BoundView::Excluded(x) => BoundView::Excluded(with_release(x)),
    }
}

impl Bound {
    /// The bound with the release number zero in place of no release numbers.
    pub fn with_release(&self) -> (r: Bound)
        ensures
            r@ == plain_bound(self@),
            r@ == plain_bound(r@),
    {
        match self {
            Bound::Unbounded => Bound::Unbounded,
            Bound::Included(x) => Bound::Included(x.with_release()),
            Bound::Excluded(x) => Bound::Excluded(x.with_release()),
        }
    }
}

impl Interval {
    /// Whether `v` lies in the interval.
    pub fn holds(&self, v: &Version) -> (r: bool)
        ensures
            r == interval_holds(self@, v@),
    {
        let lower = self.lower.with_release();
        let upper = self.upper.with_release();
        let version = v.with_release();
        proof {
            assert(with_release(with_release(v@)) == with_release(v@));
        }
        pubgrub_holds(&lower, &upper, &version)
    }
}

impl VersionRange {
    /// The set of all versions.
    pub fn full() -> (r: VersionRange)
        ensures
            r@ == seq![IntervalView { lower: BoundView::Unbounded, upper: BoundView::Unbounded }],
            forall|v: VersionView| range_contains(r@, v),
    {
        let mut segments: Vec<Interval> = Vec::new();
        segments.push(Interval { lower: Bound::Unbounded, upper: Bound::Unbounded });
        let r = VersionRange { segments };
        proof {
            assert(r@ =~= seq![
                IntervalView { lower: BoundView::Unbounded, upper: BoundView::Unbounded },
            ]);
            assert forall|v: VersionView| range_contains(r@, v) by {
                assert(interval_holds(r@[0], v));
            }
        }
        r
    }

    /// The set without versions.
    pub fn empty() -> (r: VersionRange)
        ensures
            r@ == Seq::<IntervalView>::empty(),
            forall|v: VersionView| !range_contains(r@, v),
    {
        let r = VersionRange { segments: Vec::new() };
        proof {
            assert(r@ =~= Seq::<IntervalView>::empty());
        }
        r
    }

    /// The set of the versions from `lower` to `upper`.
    pub fn from_bounds(lower: Bound, upper: Bound) -> (r: VersionRange)
        ensures
            r@ == seq![IntervalView { lower: lower@, upper: upper@ }],
            forall|v: VersionView|
                range_contains(r@, v) <==> above_lower(lower@, v) && below_upper(upper@, v),
    {
        let ghost iv = IntervalView { lower: lower@, upper: upper@ };
        let mut segments: Vec<Interval> = Vec::new();
        segments.push(Interval { lower, upper });
        let r = VersionRange { segments };
        proof {
            assert(r@ =~= seq![iv]);
            assert forall|v: VersionView|
                range_contains(r@, v) <==> above_lower(iv.lower, v) && below_upper(
                    iv.upper,
                    v,
                ) by {
                if interval_holds(iv, v) {
                    assert(interval_holds(r@[0], v));
                }
            }
        }
        r
    }

    /// The versions that are `v` or higher.
    pub fn higher_than(v: Version) -> (r: VersionRange)
        ensures
            r@ == seq![IntervalView { lower: BoundView::Included(v@), upper: BoundView::Unbounded }],
    {
        VersionRange::from_bounds(Bound::Included(v), Bound::Unbounded)
    }

    /// The versions that are lower than `v`.
    pub fn strictly_lower_than(v: Version) -> (r: VersionRange)
        ensures
            r@ == seq![IntervalView { lower: BoundView::Unbounded, upper: BoundView::Excluded(v@) }],
    {
        VersionRange::from_bounds(Bound::Unbounded, Bound::Excluded(v))
    }

    /// The versions that are `lower` or higher, and lower than `upper`.
    pub fn between(lower: Version, upper: Version) -> (r: VersionRange)
        ensures
            r@ == seq![
                IntervalView {
                    lower: BoundView::Included(lower@),
                    upper: BoundView::Excluded(upper@),
                },
            ],
    {
        VersionRange::from_bounds(Bound::Included(lower), Bound::Excluded(upper))
    }

    /// The versions that order as `v` does.
    pub fn singleton(v: Version) -> (r: VersionRange)
        ensures
            r@ == seq![
                IntervalView { lower: BoundView::Included(v@), upper: BoundView::Included(v@) },
            ],
    {
        let w = v.clone();
        VersionRange::from_bounds(Bound::Included(v), Bound::Included(w))
    }

    /// Whether `v` lies in the set.
    pub fn contains(&self, v: &Version) -> (r: bool)
        ensures
            r == range_contains(self@, v@),
    {
        let mut i: usize = 0;
        while i < self.segments.len()
            invariant
                i <= self.segments.len(),
                forall|j: int| 0 <= j < i ==> !interval_holds(#[trigger] self@[j], v@),
            decreases self.segments.len() - i,
        {
            if self.segments[i].holds(v) {
                proof {
                    assert(interval_holds(self@[i as int], v@));
                }
                return true;
            }
            i += 1;
        }
        false
    }
}

impl DeepView for VersionRange {
    type V = Seq<IntervalView>;

    open spec fn deep_view(&self) -> Seq<IntervalView> {
        self@
    }
}

} // verus!
