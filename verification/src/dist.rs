//! Pinned distributions: what a resolved package is installed from.

use crate::error::{ResolveError, ResolveErrorView};
use crate::name::PackageName;
use crate::order::{arranged, is_sorted_order, sort_order, sorted_order, texts};
use crate::text::chars_of;
use crate::version::{version_text, Version, VersionView};
use crate::table::Key;
use vstd::prelude::*;
use vstd::string::StringExecFns;

verus! {

/// The algorithm of a hash digest.
#[derive(Debug, Clone, Copy, PartialEq, Eq, Structural)]
pub enum HashAlgorithm {
    Md5,
    Sha256,
    Sha384,
    Sha512,
}

/// The digest of an artifact.
#[derive(Debug)]
pub struct HashDigest {
    pub algorithm: HashAlgorithm,
    pub digest: String,
}

/// A digest as a mathematical value.
pub struct HashDigestView {
    pub algorithm: HashAlgorithm,
    pub digest: Seq<char>,
}

impl View for HashDigest {
    type V = HashDigestView;

    open spec fn view(&self) -> HashDigestView {
        HashDigestView { algorithm: self.algorithm, digest: self.digest@ }
    }
}

impl Clone for HashDigest {
    fn clone(&self) -> (r: Self)
        ensures
            r@ == self@,
    {
        HashDigest { algorithm: self.algorithm, digest: self.digest.clone() }
    }
}

/// The name of an algorithm, as digests are written.
pub open spec fn algorithm_text(a: HashAlgorithm) -> Seq<char> {
    match a {
        HashAlgorithm::Md5 => seq!['m', 'd', '5'],
        HashAlgorithm::Sha256 => seq!['s', 'h', 'a', '2', '5', '6'],
        HashAlgorithm::Sha384 => seq!['s', 'h', 'a', '3', '8', '4'],
        HashAlgorithm::Sha512 => seq!['s', 'h', 'a', '5', '1', '2'],
    }
}

/// The canonical form of a digest: the algorithm, a colon, the digest.
pub open spec fn digest_text(h: HashDigestView) -> Seq<char> {
    algorithm_text(h.algorithm).push(':') + h.digest
}

impl HashDigest {
    /// The canonical form of the digest.
    pub fn canonical(&self) -> (v: Vec<char>)
        ensures
            v@ == digest_text(self@),
    {
        let mut v: Vec<char> = Vec::new();
        match self.algorithm {
            HashAlgorithm::Md5 => {
                v.push('m');
                v.push('d');
                v.push('5');
            },
            HashAlgorithm::Sha256 => {
                v.push('s');
                v.push('h');
                v.push('a');
                v.push('2');
                v.push('5');
                v.push('6');
            },
            HashAlgorithm::Sha384 => {
                v.push('s');
                v.push('h');
                v.push('a');
                v.push('3');
                v.push('8');
                v.push('4');
            },
            HashAlgorithm::Sha512 => {
                v.push('s');
                v.push('h');
                v.push('a');
                v.push('5');
                v.push('1');
                v.push('2');
            },
        }
        assert(v@ =~= algorithm_text(self.algorithm));
        v.push(':');
        let mut d = chars_of(self.digest.as_str());
        let ghost head = v@;
        v.append(&mut d);
        assert(v@ =~= digest_text(self@));
        v
    }
}

/// A copy of the digests.
pub fn copy_digests(v: &Vec<HashDigest>) -> (r: Vec<HashDigest>)
    ensures
        r.deep_view() == v.deep_view(),
{
    let r = v.clone();
    proof {
        assert forall|i: int| 0 <= i < r@.len() implies r@[i]@ == v@[i]@ by {
            assert(cloned(v@[i], r@[i]));
        }
        assert(r.deep_view() =~= v.deep_view());
    }
    r
}

/// The canonical forms of the digests, in their order.
pub open spec fn digest_keys(s: Seq<HashDigestView>) -> Seq<Seq<char>> {
    Seq::new(s.len(), |i: int| digest_text(s[i]))
}

/// The digests in ascending order of their canonical forms; equal digests
/// keep their order.
pub open spec fn sorted_digests(s: Seq<HashDigestView>) -> Seq<HashDigestView> {
    arranged(s, sort_order(digest_keys(s)))
}

/// The digests in ascending order of their canonical forms.
pub fn sort_digests(digests: &Vec<HashDigest>) -> (r: Vec<HashDigest>)
    ensures
        r.deep_view() == sorted_digests(digests.deep_view()),
{
    let ghost views = digests.deep_view();
    let mut keys: Vec<Vec<char>> = Vec::new();
    let mut i: usize = 0;
    while i < digests.len()
        invariant
            i <= digests.len(),
            views == digests.deep_view(),
            keys.len() == i,
            forall|j: int| 0 <= j < i ==> (#[trigger] keys@[j])@ == digest_text(views[j]),
        decreases digests.len() - i,
    {
        keys.push(digests[i].canonical());
        i += 1;
    }
    assert(texts(keys@) =~= digest_keys(views));
    let order = sorted_order(&keys);
    let mut r: Vec<HashDigest> = Vec::new();
    let mut k: usize = 0;
    while k < order.len()
        invariant
            k <= order.len(),
            order.len() == digests.len(),
            views == digests.deep_view(),
            is_sorted_order(digest_keys(views), order@),
            r.len() == k,
            forall|j: int| 0 <= j < k ==> (#[trigger] r@[j])@ == views[order@[j] as int],
        decreases order.len() - k,
    {
        assert(order@[k as int] < digests.len());
        r.push(digests[order[k]].clone());
        k += 1;
    }
    assert(r.deep_view() =~= sorted_digests(views));
    r
}

/// The mark `://` stands at the place `i` of `s`.
pub open spec fn mark_at(s: Seq<char>, i: int) -> bool {
    0 <= i && i + 3 <= s.len() && s[i] == ':' && s[i + 1] == '/' && s[i + 2] == '/'
}

/// The first place at or after `from` at which the mark `://` stands; the
/// length of `s` where it stands nowhere.
pub open spec fn find_mark(s: Seq<char>, from: int) -> int
    decreases s.len() - from,
{
    if from < 0 || from + 3 > s.len() {
        s.len() as int
    } else if mark_at(s, from) {
        from
    } else {
        find_mark(s, from + 1)
    }
}

/// The character ends the authority of a URL.
pub open spec fn ends_authority(c: char) -> bool {
    c == '/' || c == '?' || c == '#'
}

/// The place at which the authority that begins at `from` ends: that of the
/// first slash, question mark or hash; the length of `s` without one.
pub open spec fn authority_end(s: Seq<char>, from: int) -> int
    decreases s.len() - from,
{
    if from < 0 || from >= s.len() {
        s.len() as int
    } else if ends_authority(s[from]) {
        from
    } else {
        authority_end(s, from + 1)
    }
}

/// The place at which the host begins in the authority `s[from..to]`: after
/// its last `@`, or at `from` without one.
pub open spec fn host_start(s: Seq<char>, from: int, to: int) -> int
    decreases to - from,
{
    if to <= from || to > s.len() {
        from
    } else if s[to - 1] == '@' {
        to
    } else {
        host_start(s, from, to - 1)
    }
}

/// The URL without the user name and password of its authority: what
/// stands between the mark `://` and the host is left out. A text without
/// the mark stays as it is.
pub open spec fn redacted(s: Seq<char>) -> Seq<char> {
    let m = find_mark(s, 0);
    if m >= s.len() {
        s
    } else {
        s.subrange(0, m + 3) + s.subrange(
            host_start(s, m + 3, authority_end(s, m + 3)),
            s.len() as int,
        )
    }
}

/// The authority ends within the text, and none of its characters ends it.
pub proof fn lemma_authority_end(s: Seq<char>, from: int)
    requires
        0 <= from <= s.len(),
    ensures
        from <= authority_end(s, from) <= s.len(),
        forall|i: int| from <= i < authority_end(s, from) ==> !ends_authority(s[i]),
        authority_end(s, from) < s.len() ==> ends_authority(s[authority_end(s, from)]),
    decreases s.len() - from,
{
    if from < s.len() && !ends_authority(s[from]) {
        lemma_authority_end(s, from + 1);
    }
}

/// The host begins within the authority, and holds no `@`.
pub proof fn lemma_host_start(s: Seq<char>, from: int, to: int)
    requires
        0 <= from <= to <= s.len(),
    ensures
        from <= host_start(s, from, to) <= to,
        forall|i: int| host_start(s, from, to) <= i < to ==> s[i] != '@',
    decreases to - from,
{
    if to > from && s[to - 1] != '@' {
        lemma_host_start(s, from, to - 1);
    }
}

/// Where the characters from `from` on are those of `t` from `other` on, the
/// authority ends as many characters later in the one as in the other.
proof fn lemma_authority_end_shifted(s: Seq<char>, from: int, t: Seq<char>, other: int)
    requires
        0 <= from <= s.len(),
        0 <= other <= t.len(),
        s.subrange(from, s.len() as int) == t.subrange(other, t.len() as int),
    ensures
        authority_end(s, from) - from == authority_end(t, other) - other,
    decreases s.len() - from,
{
    let x = s.subrange(from, s.len() as int);
    let y = t.subrange(other, t.len() as int);
    assert(x.len() == y.len());
    if from < s.len() {
        assert(x[0] == y[0]);
        if !ends_authority(s[from]) {
            let x1 = s.subrange(from + 1, s.len() as int);
            let y1 = t.subrange(other + 1, t.len() as int);
            assert forall|j: int| 0 <= j < x1.len() implies x1[j] == y1[j] by {
                assert(x[j + 1] == y[j + 1]);
            }
            assert(x1 =~= y1);
            lemma_authority_end_shifted(s, from + 1, t, other + 1);
        }
    }
}

/// The URL without the user name and password of its authority. Up to the
/// mark `://` and from the host on it is the URL as given; between the mark
/// and the end of the authority it holds no `@`.
pub fn redact(url: &str) -> (r: String)
    ensures
        r@ == redacted(url@),
        find_mark(url@, 0) >= url@.len() ==> r@ == url@,
        find_mark(url@, 0) < url@.len() ==> {
            let a = find_mark(url@, 0) + 3;
            let k = host_start(url@, a, authority_end(url@, a));
            &&& a <= k <= url@.len()
            &&& r@.subrange(0, a) == url@.subrange(0, a)
            &&& r@.subrange(a, r@.len() as int) == url@.subrange(k, url@.len() as int)
            &&& forall|i: int| a <= i < authority_end(r@, a) ==> r@[i] != '@'
        },
{
    let s = chars_of(url);
    let n = s.len();
    let mut m: usize = 0;
    while n >= 3 && m <= n - 3 && !(s[m] == ':' && s[m + 1] == '/' && s[m + 2] == '/')
        invariant
            n == s.len(),
            m <= n,
            find_mark(s@, 0) == find_mark(s@, m as int),
        decreases n - m,
    {
        m += 1;
    }
    if n < 3 || m > n - 3 {
        return string_of_all(&s);
    }
    let a = m + 3;
    let mut e: usize = a;
    while e < n && !(s[e] == '/' || s[e] == '?' || s[e] == '#')
        invariant
            a <= e <= n,
            n == s.len(),
            authority_end(s@, a as int) == authority_end(s@, e as int),
        decreases n - e,
    {
        e += 1;
    }
    let mut k: usize = e;
    while k > a && s[k - 1] != '@'
        invariant
            a <= k <= e <= n,
            n == s.len(),
            host_start(s@, a as int, e as int) == host_start(s@, a as int, k as int),
        decreases k,
    {
        k -= 1;
    }
    let mut out = crate::text::string_of(&s, 0, a);
    let mut i: usize = k;
    assert(out@ =~= s@.subrange(0, a as int) + s@.subrange(k as int, i as int));
    while i < n
        invariant
            k <= i <= n,
            a <= k,
            n == s.len(),
            out@ == s@.subrange(0, a as int) + s@.subrange(k as int, i as int),
        decreases n - i,
    {
        out.push(s[i]);
        assert(out@ =~= s@.subrange(0, a as int) + s@.subrange(k as int, i + 1));
        i += 1;
    }
    proof {
        let r = out@;
        lemma_authority_end(s@, a as int);
        lemma_host_start(s@, a as int, e as int);
        assert(r.subrange(0, a as int) =~= s@.subrange(0, a as int));
        assert(r.subrange(a as int, r.len() as int) =~= s@.subrange(k as int, n as int));
        lemma_authority_end_shifted(r, a as int, s@, k as int);
        lemma_authority_end(s@, k as int);
        assert(authority_end(s@, k as int) == e) by {
            lemma_authority_end_from(s@, a as int, k as int);
        }
        assert forall|i: int| a <= i < authority_end(r, a as int) implies r[i] != '@' by {
            assert(r[i] == r.subrange(a as int, r.len() as int)[i - a]);
            assert(s@[k + (i - a)] == s@.subrange(k as int, n as int)[i - a]);
        }
    }
    out
}

/// Within an authority, the authority ends where it ends.
proof fn lemma_authority_end_from(s: Seq<char>, from: int, mid: int)
    requires
        0 <= from <= mid <= authority_end(s, from),
        from <= s.len(),
    ensures
        authority_end(s, mid) == authority_end(s, from),
    decreases mid - from,
{
    lemma_authority_end(s, from);
    if from < mid {
        lemma_authority_end_from(s, from + 1, mid);
    }
}

fn string_of_all(s: &Vec<char>) -> (r: String)
    ensures
        r@ == s@,
{
    let r = crate::text::string_of(s, 0, s.len());
    assert(s@.subrange(0, s@.len() as int) =~= s@);
    r
}

/// A URL as it was given, with the parts that the library reads.
#[derive(Debug)]
pub struct VerbatimUrl {
    /// The scheme, without the colon.
    pub scheme: String,
    /// The path.
    pub path: String,
    /// The whole URL.
    pub raw: String,
}

/// A URL as a mathematical value.
pub struct VerbatimUrlView {
    pub scheme: Seq<char>,
    pub path: Seq<char>,
    pub raw: Seq<char>,
}

impl View for VerbatimUrl {
    type V = VerbatimUrlView;

    open spec fn view(&self) -> VerbatimUrlView {
        VerbatimUrlView { scheme: self.scheme@, path: self.path@, raw: self.raw@ }
    }
}

impl Clone for VerbatimUrl {
    fn clone(&self) -> (r: Self)
        ensures
            r@ == self@,
    {
        VerbatimUrl {
            scheme: self.scheme.clone(),
            path: self.path.clone(),
            raw: self.raw.clone(),
        }
    }
}

impl VerbatimUrl {
    /// Whether the two URLs hold the same parts.
    pub fn same(&self, other: &VerbatimUrl) -> (r: bool)
        ensures
            r == (self@ == other@),
    {
        self.scheme == other.scheme && self.path == other.path && self.raw == other.raw
    }
}

/// What a URL points to.
#[derive(Debug, Clone, Copy, PartialEq, Eq, Structural)]
pub enum UrlKind {
    /// An archive fetched over HTTP.
    DirectArchive,
    /// A repository under version control.
    Git,
    /// A file on this machine.
    LocalPath,
    /// A source tree on this machine.
    LocalDirectory,
}

/// A package pinned to one artifact.
#[derive(Debug)]
pub enum ResolvedDist {
    /// A version of a package in a registry, with the index it came from.
    Registry { name: PackageName, version: Version, index: Option<String> },
    /// A package at a URL.
    Url { name: PackageName, url: VerbatimUrl, kind: UrlKind },
    /// A project installed by reference to its source tree.
    Editable { name: PackageName, path: String, url: VerbatimUrl },
}

/// A pinned package as a mathematical value.
pub enum ResolvedDistView {
    Registry { name: Seq<char>, version: VersionView, index: Option<Seq<char>> },
    Url { name: Seq<char>, url: VerbatimUrlView, kind: UrlKind },
    Editable { name: Seq<char>, path: Seq<char>, url: VerbatimUrlView },
}

impl View for ResolvedDist {
    type V = ResolvedDistView;

    open spec fn view(&self) -> ResolvedDistView {
        match self {
            ResolvedDist::Registry { name, version, index } => ResolvedDistView::Registry {
                name: name@,
                version: version@,
                index: match index {
                    Some(i) => Some(i@),
                    None => None,
                },
            },
            ResolvedDist::Url { name, url, kind } => ResolvedDistView::Url {
                name: name@,
                url: url@,
                kind: *kind,
            },
            ResolvedDist::Editable { name, path, url } => ResolvedDistView::Editable {
                name: name@,
                path: path@,
                url: url@,
            },
        }
    }
}

impl Clone for ResolvedDist {
    fn clone(&self) -> (r: Self)
        ensures
            r@ == self@,
    {
        match self {
            ResolvedDist::Registry { name, version, index } => ResolvedDist::Registry {
                name: name.clone(),
                version: version.clone(),
                index: match index {
                    Some(i) => Some(i.clone()),
                    None => None,
                },
            },
            ResolvedDist::Url { name, url, kind } => ResolvedDist::Url {
                name: name.clone(),
                url: url.clone(),
                kind: *kind,
            },
            ResolvedDist::Editable { name, path, url } => ResolvedDist::Editable {
                name: name.clone(),
                path: path.clone(),
                url: url.clone(),
            },
        }
    }
}

impl ResolvedDistView {
    /// The name of the package.
    pub open spec fn name(self) -> Seq<char> {
        match self {
            ResolvedDistView::Registry { name, .. } => name,
            ResolvedDistView::Url { name, .. } => name,
            ResolvedDistView::Editable { name, .. } => name,
        }
    }

    /// The URL of the artifact, where it is pinned by one.
    pub open spec fn url(self) -> Option<VerbatimUrlView> {
        match self {
            ResolvedDistView::Registry { .. } => None,
            ResolvedDistView::Url { url, .. } => Some(url),
            ResolvedDistView::Editable { url, .. } => Some(url),
        }
    }

    /// The key under which the metadata of the distribution is kept.
    pub open spec fn version_id(self) -> VersionIdView {
        match self {
            ResolvedDistView::Registry { name, version, .. } => VersionIdView::NameVersion(
                name,
                version,
            ),
            ResolvedDistView::Url { url, .. } => VersionIdView::Url(url.raw),
            ResolvedDistView::Editable { url, .. } => VersionIdView::Url(url.raw),
        }
    }

    /// The pin as a requirement would spell it: `==` and the version, or
    /// ` @ ` and the URL.
    pub open spec fn pin_text(self) -> Seq<char> {
        match self {
            ResolvedDistView::Registry { version, .. } => seq!['=', '='] + version_text(version),
            ResolvedDistView::Url { url, .. } => seq![' ', '@', ' '] + url.raw,
            ResolvedDistView::Editable { url, .. } => seq![' ', '@', ' '] + url.raw,
        }
    }

    /// The distribution as a requirement would spell it.
    pub open spec fn verbatim(self) -> Seq<char> {
        self.name() + self.pin_text()
    }
}

/// The key under which the metadata of a distribution is kept: a name and a
/// version, or a URL.
#[derive(Debug)]
pub enum VersionId {
    NameVersion(PackageName, Version),
    Url(String),
}

/// A metadata key as a mathematical value.
pub enum VersionIdView {
    NameVersion(Seq<char>, VersionView),
    Url(Seq<char>),
}

impl View for VersionId {
    type V = VersionIdView;

    open spec fn view(&self) -> VersionIdView {
        match self {
            VersionId::NameVersion(n, v) => VersionIdView::NameVersion(n@, v@),
            VersionId::Url(u) => VersionIdView::Url(u@),
        }
    }
}

impl Clone for VersionId {
    fn clone(&self) -> (r: Self)
        ensures
            r@ == self@,
    {
        match self {
            VersionId::NameVersion(n, v) => VersionId::NameVersion(n.clone(), v.clone()),
            VersionId::Url(u) => VersionId::Url(u.clone()),
        }
    }
}

impl VersionId {
    /// The key of a version of a package in a registry.
    pub fn from_registry(name: PackageName, version: Version) -> (r: VersionId)
        ensures
            r@ == VersionIdView::NameVersion(name@, version@),
    {
        VersionId::NameVersion(name, version)
    }

    /// The key of the distribution at `url`.
    pub fn from_url(url: &VerbatimUrl) -> (r: VersionId)
        ensures
            r@ == VersionIdView::Url(url@.raw),
    {
        VersionId::Url(url.raw.clone())
    }

    /// Whether the two keys are the same.
    pub fn same(&self, other: &VersionId) -> (r: bool)
        ensures
            r == (self@ == other@),
    {
        match (self, other) {
            (VersionId::NameVersion(n1, v1), VersionId::NameVersion(n2, v2)) => *n1 == *n2
                && v1.same(v2),
            (VersionId::Url(u1), VersionId::Url(u2)) => *u1 == *u2,
            _ => false,
        }
    }
}

impl ResolvedDist {
    /// The name of the package.
    pub fn name(&self) -> (r: &PackageName)
        ensures
            r@ == self@.name(),
    {
        match self {
            ResolvedDist::Registry { name, .. } => name,
            ResolvedDist::Url { name, .. } => name,
            ResolvedDist::Editable { name, .. } => name,
        }
    }

    /// The key under which the metadata of the distribution is kept.
    pub fn version_id(&self) -> (r: VersionId)
        ensures
            r@ == self@.version_id(),
    {
        match self {
            ResolvedDist::Registry { name, version, .. } => VersionId::from_registry(
                name.clone(),
                version.clone(),
            ),
            ResolvedDist::Url { url, .. } => VersionId::from_url(url),
            ResolvedDist::Editable { url, .. } => VersionId::from_url(url),
        }
    }

    /// The index that a registry distribution came from.
    pub fn index(&self) -> (r: Option<&String>)
        ensures
            match self@ {
                ResolvedDistView::Registry { index: Some(i), .. } => r matches Some(s) && s@ == i,
                _ => r is None,
            },
    {
        match self {
            ResolvedDist::Registry { index: Some(i), .. } => Some(i),
            _ => None,
        }
    }

    /// Appends the pin of the distribution to `out`.
    pub fn write_pin(&self, out: &mut String)
        ensures
            final(out)@ == old(out)@ + self@.pin_text(),
    {
        match self {
            ResolvedDist::Registry { version, .. } => {
                out.push('=');
                out.push('=');
                assert(out@ =~= old(out)@ + seq!['=', '=']);
                version.write_to(out);
                assert(out@ =~= old(out)@ + self@.pin_text());
            },
            ResolvedDist::Url { url, .. } => {
                out.push(' ');
                out.push('@');
                out.push(' ');
                out.append(url.raw.as_str());
                assert(out@ =~= old(out)@ + self@.pin_text());
            },
            ResolvedDist::Editable { url, .. } => {
                out.push(' ');
                out.push('@');
                out.push(' ');
                out.append(url.raw.as_str());
                assert(out@ =~= old(out)@ + self@.pin_text());
            },
        }
    }

    /// The distribution as a requirement would spell it.
    pub fn verbatim(&self) -> (s: String)
        ensures
            s@ == self@.verbatim(),
    {
        let mut s = String::new();
        s.append(self.name().as_str());
        self.write_pin(&mut s);
        assert(s@ =~= self@.verbatim());
        s
    }
}

/// The scheme is that of a repository under version control.
pub open spec fn is_git_scheme(scheme: Seq<char>) -> bool {
    scheme.len() >= 4 && scheme[0] == 'g' && scheme[1] == 'i' && scheme[2] == 't' && scheme[3]
        == '+'
}

/// The scheme is `file`, in any case of letters.
pub open spec fn is_file_scheme(scheme: Seq<char>) -> bool {
    scheme.len() == 4 && (scheme[0] == 'f' || scheme[0] == 'F') && (scheme[1] == 'i' || scheme[1]
        == 'I') && (scheme[2] == 'l' || scheme[2] == 'L') && (scheme[3] == 'e' || scheme[3] == 'E')
}

/// What the URL points to, going by its scheme; nothing for a file URL
/// whose path is not absolute.
pub open spec fn kind_of_url(url: VerbatimUrlView) -> Option<UrlKind> {
    if is_git_scheme(url.scheme) {
        Some(UrlKind::Git)
    } else if is_file_scheme(url.scheme) {
        if url.path.len() > 0 && url.path[0] == '/' {
            Some(UrlKind::LocalPath)
        } else {
            None
        }
    } else {
        Some(UrlKind::DirectArchive)
    }
}

/// The distribution of the package `name` at `url`.
pub open spec fn dist_at_url(name: Seq<char>, url: VerbatimUrlView) -> Result<
    ResolvedDistView,
    ResolveErrorView,
> {
    match kind_of_url(url) {
        Some(kind) => Ok(ResolvedDistView::Url { name, url, kind }),
        None => Err(ResolveErrorView::InvalidUrl(url.raw)),
    }
}

impl VerbatimUrl {
    /// What the URL points to, going by its scheme.
    pub fn kind(&self) -> (k: Option<UrlKind>)
        ensures
            k == kind_of_url(self@),
    {
        let scheme = chars_of(self.scheme.as_str());
        if scheme.len() >= 4 && scheme[0] == 'g' && scheme[1] == 'i' && scheme[2] == 't'
            && scheme[3] == '+' {
            return Some(UrlKind::Git);
        }
        if scheme.len() == 4 && (scheme[0] == 'f' || scheme[0] == 'F') && (scheme[1] == 'i'
            || scheme[1] == 'I') && (scheme[2] == 'l' || scheme[2] == 'L') && (scheme[3] == 'e'
            || scheme[3] == 'E') {
            let path = chars_of(self.path.as_str());
            if path.len() > 0 && path[0] == '/' {
                return Some(UrlKind::LocalPath);
            }
            return None;
        }
        Some(UrlKind::DirectArchive)
    }
}

impl ResolvedDist {
    /// The distribution of the package `name` at `url`; an error for a file
    /// URL whose path is not absolute. Every file URL counts as a file: only
    /// the file system tells a directory.
    pub fn from_url(name: PackageName, url: VerbatimUrl) -> (r: Result<ResolvedDist, ResolveError>)
        ensures
            match dist_at_url(name@, url@) {
                Ok(d) => r matches Ok(x) && x@ == d,
                Err(e) => r matches Err(x) && x@ == e,
            },
    {
        match url.kind() {
            Some(kind) => Ok(ResolvedDist::Url { name, url, kind }),
            None => Err(ResolveError::InvalidUrl(url.raw.clone())),
        }
    }
}

impl DeepView for HashDigest {
    type V = HashDigestView;

    open spec fn deep_view(&self) -> HashDigestView {
        self@
    }
}

impl DeepView for VerbatimUrl {
    type V = VerbatimUrlView;

    open spec fn deep_view(&self) -> VerbatimUrlView {
        self@
    }
}

impl Key for VerbatimUrl {
    fn same_key(&self, other: &Self) -> (r: bool) {
        self.same(other)
    }
}

impl DeepView for ResolvedDist {
    type V = ResolvedDistView;

    open spec fn deep_view(&self) -> ResolvedDistView {
        self@
    }
}

impl DeepView for VersionId {
    type V = VersionIdView;

    open spec fn deep_view(&self) -> VersionIdView {
        self@
    }
}

impl Key for VersionId {
    fn same_key(&self, other: &Self) -> (r: bool) {
        self.same(other)
    }
}

} // verus!
