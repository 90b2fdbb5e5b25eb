//! Versions and their total preorder.

use crate::text::decimal;
use crate::table::Key;
use vstd::prelude::*;
use vstd::string::StringExecFns;

verus! {

/// The kind of a pre-release.
#[derive(Debug, Clone, Copy, PartialEq, Eq, Structural)]
pub enum PreKind {
    Alpha,
    Beta,
    Rc,
}

/// A version: an epoch, release numbers, and optional pre-release,
/// post-release and development markers.
#[derive(Debug)]
pub struct Version {
    pub epoch: u64,
    pub release: Vec<u64>,
    pub pre: Option<(PreKind, u64)>,
    pub post: Option<u64>,
    pub dev: Option<u64>,
}

/// A version as a mathematical value.
pub struct VersionView {
    pub epoch: u64,
    pub release: Seq<u64>,
    pub pre: Option<(PreKind, u64)>,
    pub post: Option<u64>,
    pub dev: Option<u64>,
}

impl View for Version {
    type V = VersionView;

    open spec fn view(&self) -> VersionView {
        VersionView {
            epoch: self.epoch,
            release: self.release@,
            pre: self.pre,
            post: self.post,
            dev: self.dev,
        }
    }
}

/// Whether `pep440_rs` orders the version with the parts of `a` strictly
/// before the version with the parts of `b`, neither with a local part.
pub uninterp spec fn pep440_lt(a: VersionView, b: VersionView) -> bool;

/// The version with the release number zero in place of no release numbers
/// at all; any other version as it is.
pub open spec fn with_release(v: VersionView) -> VersionView {
    if v.release.len() == 0 {
        VersionView { release: seq![0u64], ..v }
    } else {
        v
    }
}

/// `a` is strictly lower than `b`, in the order of versions. A version
/// without release numbers counts as the one with the release number zero.
pub open spec fn version_lt(a: VersionView, b: VersionView) -> bool {
    pep440_lt(with_release(a), with_release(b))
}

/// `a` is not higher than `b`.
pub open spec fn version_le(a: VersionView, b: VersionView) -> bool {
    !version_lt(b, a)
}

/// `pep440_rs::Version::new` with `with_epoch`, `with_pre`, `with_post` and
/// `with_dev` makes a version of the parts of each argument, and `<` compares
/// the two by `Ord for Version`. `new` panics without release numbers.
#[verifier::external_body]
fn pep440_less(a: &Version, b: &Version) -> (r: bool)
    requires
        a.release@.len() > 0,
        b.release@.len() > 0,
    ensures
        r == pep440_lt(a@, b@),
{
    let kind = |k: PreKind| match k {
        PreKind::Alpha => pep440_rs::PrereleaseKind::Alpha,
        PreKind::Beta => pep440_rs::PrereleaseKind::Beta,
        PreKind::Rc => pep440_rs::PrereleaseKind::Rc,
    };
    let pre = |p: (PreKind, u64)| pep440_rs::Prerelease { kind: kind(p.0), number: p.1 };
    let version = |v: &Version| pep440_rs::Version::new(&v.release).with_epoch(v.epoch)
        .with_pre(v.pre.map(pre)).with_post(v.post).with_dev(v.dev);
    version(a) < version(b)
}

/// The release numbers as text, joined by dots.
pub open spec fn release_text(r: Seq<u64>) -> Seq<char>
    decreases r.len(),
{
    if r.len() == 0 {
        Seq::empty()
    } else if r.len() == 1 {
        decimal(r[0] as nat)
    } else {
        release_text(r.drop_last()).push('.') + decimal(r.last() as nat)
    }
}

/// The letters that mark a pre-release of the given kind.
pub open spec fn pre_mark(kind: PreKind) -> Seq<char> {
    match kind {
        PreKind::Alpha => seq!['a'],
        PreKind::Beta => seq!['b'],
        PreKind::Rc => seq!['r', 'c'],
    }
}

/// The epoch and its mark; nothing for epoch zero.
pub open spec fn epoch_text(epoch: u64) -> Seq<char> {
    if epoch == 0 {
        Seq::empty()
    } else {
        decimal(epoch as nat).push('!')
    }
}

/// The pre-release marker as text.
pub open spec fn pre_text(pre: Option<(PreKind, u64)>) -> Seq<char> {
    match pre {
        Some((kind, n)) => pre_mark(kind) + decimal(n as nat),
        None => Seq::empty(),
    }
}

/// The post-release marker as text.
pub open spec fn post_text(post: Option<u64>) -> Seq<char> {
    match post {
        Some(n) => seq!['.', 'p', 'o', 's', 't'] + decimal(n as nat),
        None => Seq::empty(),
    }
}

/// The development marker as text.
pub open spec fn dev_text(dev: Option<u64>) -> Seq<char> {
    match dev {
        Some(n) => seq!['.', 'd', 'e', 'v'] + decimal(n as nat),
        None => Seq::empty(),
    }
}

/// The parts of a version as text: `[N!]N(.N)*[{a|b|rc}N][.postN][.devN]`.
pub open spec fn parts_text(v: VersionView) -> Seq<char> {
    epoch_text(v.epoch) + release_text(v.release) + pre_text(v.pre) + post_text(v.post) + dev_text(
        v.dev,
    )
}

/// The text of a version. A version without release numbers reads as the
/// one with the release number zero.
pub open spec fn version_text(v: VersionView) -> Seq<char> {
    parts_text(with_release(v))
}

/// `ToString::to_string` on the version that `pep440_rs::Version::new` with
/// `with_epoch`, `with_pre`, `with_post` and `with_dev` makes of the parts
/// writes, by `Display for Version`, the epoch with `!` unless it is zero,
/// the release numbers joined by dots, the pre-release mark with its number,
/// `.post` and `.dev` with theirs, each number in decimal. `new` panics
/// without release numbers.
#[verifier::external_body]
fn pep440_string(v: &Version) -> (s: String)
    requires
        v.release@.len() > 0,
    ensures
        s@ == parts_text(v@),
{
    let kind = |k: PreKind| match k {
        PreKind::Alpha => pep440_rs::PrereleaseKind::Alpha,
        PreKind::Beta => pep440_rs::PrereleaseKind::Beta,
        PreKind::Rc => pep440_rs::PrereleaseKind::Rc,
    };
    let pre = |p: (PreKind, u64)| pep440_rs::Prerelease { kind: kind(p.0), number: p.1 };
    pep440_rs::Version::new(&v.release).with_epoch(v.epoch).with_pre(v.pre.map(pre))
        .with_post(v.post).with_dev(v.dev).to_string()
}

impl Clone for Version {
    fn clone(&self) -> (r: Self)
        ensures
            r@ == self@,
    {
        let mut release: Vec<u64> = Vec::new();
        let mut i: usize = 0;
        while i < self.release.len()
            invariant
                i <= self.release.len(),
                release@ == self.release@.take(i as int),
            decreases self.release.len() - i,
        {
            release.push(self.release[i]);
            proof {
                assert(self.release@.take(i + 1) == self.release@.take(i as int).push(
                    self.release@[i as int],
                ));
            }
            i += 1;
        }
        proof {
            assert(self.release@.take(self.release.len() as int) == self.release@);
        }
        Version { epoch: self.epoch, release, pre: self.pre, post: self.post, dev: self.dev }
    }
}

impl Version {
    /// The final release with the given release numbers.
    pub fn new(release: Vec<u64>) -> (v: Version)
        ensures
            v@ == (VersionView { epoch: 0, release: release@, pre: None, post: None, dev: None }),
    {
        Version { epoch: 0, release, pre: None, post: None, dev: None }
    }

    /// The version with the release number zero in place of no release
    /// numbers at all; any other version as it is.
    pub fn with_release(&self) -> (r: Version)
        ensures
            r@ == with_release(self@),
            r.release@.len() > 0,
    {
        let mut r = self.clone();
        if r.release.len() == 0 {
            r.release.push(0);
            assert(r.release@ =~= seq![0u64]);
        }
        r
    }

    /// Whether `self` is strictly lower than `other`.
    pub fn lt(&self, other: &Version) -> (r: bool)
        ensures
            r == version_lt(self@, other@),
    {
        pep440_less(&self.with_release(), &other.with_release())
    }

    /// Appends the text of the version to `out`.
    pub fn write_to(&self, out: &mut String)
        ensures
            final(out)@ == old(out)@ + version_text(self@),
    {
        out.append(self.to_string().as_str());
    }

    /// The text of the version.
    pub fn to_string(&self) -> (s: String)
        ensures
            s@ == version_text(self@),
    {
        pep440_string(&self.with_release())
    }

    /// Whether the two versions hold the same fields.
    pub fn same(&self, other: &Version) -> (r: bool)
        ensures
            r == (self@ == other@),
    {
        if self.epoch != other.epoch || self.release.len() != other.release.len() {
            return false;
        }
        let mut i: usize = 0;
        while i < self.release.len()
            invariant
                i <= self.release.len(),
                self.release.len() == other.release.len(),
                forall|j: int| 0 <= j < i ==> self.release@[j] == other.release@[j],
            decreases self.release.len() - i,
        {
            if self.release[i] != other.release[i] {
                return false;
            }
            i += 1;
        }
        proof {
            assert(self.release@ =~= other.release@);
        }
        let pre_same = match (self.pre, other.pre) {
            (Some((k1, n1)), Some((k2, n2))) => k1 == k2 && n1 == n2,
            (None, None) => true,
            _ => false,
        };
        let post_same = match (self.post, other.post) {
            (Some(x), Some(y)) => x == y,
            (None, None) => true,
            _ => false,
        };
        let dev_same = match (self.dev, other.dev) {
            (Some(x), Some(y)) => x == y,
            (None, None) => true,
            _ => false,
        };
        pre_same && post_same && dev_same
    }
}

impl DeepView for Version {
    type V = VersionView;

    open spec fn deep_view(&self) -> VersionView {
        self@
    }
}

impl Key for Version {
    fn same_key(&self, other: &Self) -> (r: bool) {
        self.same(other)
    }
}

} // verus!
