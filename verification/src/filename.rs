//! The names of packages in the file names of their artifacts.

use crate::name::{is_valid_name, normalized, PackageName};
use crate::text::{chars_of, string_of};
use vstd::prelude::*;

verus! {

/// The place of the first `c` in `s` at or after `from`; the length of `s`
/// where there is none.
pub open spec fn find_char(s: Seq<char>, c: char, from: int) -> int
    decreases s.len() - from,
{
    if from < 0 || from >= s.len() {
        s.len() as int
    } else if s[from] == c {
        from
    } else {
        find_char(s, c, from + 1)
    }
}

/// The place after the last `c` among the first `to` characters of `s`;
/// zero where there is none.
pub open spec fn after_last(s: Seq<char>, c: char, to: int) -> int
    decreases to,
{
    if to <= 0 || to > s.len() {
        0
    } else if s[to - 1] == c {
        to
    } else {
        after_last(s, c, to - 1)
    }
}

/// How often `c` occurs among the first `to` characters of `s`.
pub open spec fn count_char(s: Seq<char>, c: char, to: int) -> int
    decreases to,
{
    if to <= 0 || to > s.len() {
        0
    } else {
        count_char(s, c, to - 1) + if s[to - 1] == c {
            1int
        } else {
            0int
        }
    }
}

pub proof fn lemma_after_last(s: Seq<char>, c: char, to: int)
    requires
        0 <= to <= s.len(),
    ensures
        0 <= after_last(s, c, to) <= to,
    decreases to,
{
    if to > 0 && s[to - 1] != c {
        lemma_after_last(s, c, to - 1);
    }
}

fn find(s: &Vec<char>, c: char, from: usize) -> (r: usize)
    requires
        from <= s.len(),
    ensures
        r == find_char(s@, c, from as int),
        from <= r <= s.len(),
{
    let mut i = from;
    while i < s.len() && s[i] != c
        invariant
            from <= i <= s.len(),
            find_char(s@, c, from as int) == find_char(s@, c, i as int),
        decreases s.len() - i,
    {
        i += 1;
    }
    i
}

fn rfind_end(s: &Vec<char>, c: char, to: usize) -> (r: usize)
    requires
        to <= s.len(),
    ensures
        r == after_last(s@, c, to as int),
        r <= to,
{
    let mut i = to;
    while i > 0 && s[i - 1] != c
        invariant
            i <= to <= s.len(),
            after_last(s@, c, to as int) == after_last(s@, c, i as int),
        decreases i,
    {
        i -= 1;
    }
    i
}

fn count(s: &Vec<char>, c: char) -> (r: usize)
    ensures
        r == count_char(s@, c, s@.len() as int),
{
    let mut i: usize = 0;
    let mut n: usize = 0;
    while i < s.len()
        invariant
            i <= s.len(),
            n <= i,
            n == count_char(s@, c, i as int),
        decreases s.len() - i,
    {
        if s[i] == c {
            n += 1;
        }
        i += 1;
    }
    n
}

/// The last segment of a path: what follows its last slash. A path without
/// a slash has no segments.
pub open spec fn last_segment(path: Seq<char>) -> Option<Seq<char>> {
    if after_last(path, '/', path.len() as int) == 0 {
        None
    } else {
        Some(path.subrange(after_last(path, '/', path.len() as int), path.len() as int))
    }
}

/// The extension of a file name: what follows its last dot, where that dot
/// is not the first character.
pub open spec fn extension(name: Seq<char>) -> Option<Seq<char>> {
    let k = after_last(name, '.', name.len() as int);
    if k <= 1 {
        None
    } else {
        Some(name.subrange(k, name.len() as int))
    }
}

/// The text is `whl`, in any case of letters.
pub open spec fn is_whl(ext: Seq<char>) -> bool {
    ext.len() == 3 && (ext[0] == 'w' || ext[0] == 'W') && (ext[1] == 'h' || ext[1] == 'H') && (
    ext[2] == 'l' || ext[2] == 'L')
}

/// The last segment of the path has the extension `whl`.
pub open spec fn names_wheel(path: Seq<char>) -> bool {
    let segment = match last_segment(path) {
        Some(s) => s,
        None => path,
    };
    match extension(segment) {
        Some(ext) => is_whl(ext),
        None => false,
    }
}

/// Whether `pep440_rs` reads the text as a version.
pub uninterp spec fn is_version_text(text: Seq<char>) -> bool;

/// `pep440_rs::Version::from_str` reads a version from the text, or fails.
#[verifier::external_body]
fn version_text_is_valid(text: &str) -> (r: bool)
    ensures
        r == is_version_text(text@),
{
    <pep440_rs::Version as std::str::FromStr>::from_str(text).is_ok()
}

/// `s` ends with `suffix`.
pub open spec fn ends_with(s: Seq<char>, suffix: Seq<char>) -> bool {
    suffix.len() <= s.len() && s.subrange(s.len() - suffix.len(), s.len() as int) == suffix
}

/// The name of the package in the file name of a wheel,
/// `NAME-VERSION[-BUILD]-PYTHON-ABI-PLATFORM.whl`: the file name ends with
/// `.whl`, what stands before that has five or six parts between hyphens,
/// the first a valid name and the second a text that reads as a version.
pub open spec fn wheel_name(filename: Seq<char>) -> Option<Seq<char>> {
    if !ends_with(filename, seq!['.', 'w', 'h', 'l']) {
        None
    } else {
        let stem = filename.subrange(0, filename.len() - 4);
        let dashes = count_char(stem, '-', stem.len() as int);
        let first = find_char(stem, '-', 0);
        let second = find_char(stem, '-', first + 1);
        if (dashes == 4 || dashes == 5) && is_valid_name(stem.subrange(0, first))
            && is_version_text(stem.subrange(first + 1, second)) {
            Some(normalized(stem.subrange(0, first)))
        } else {
            None
        }
    }
}

/// The length of the extension of a source archive at the end of the file
/// name: `.tar.gz`, `.tar.bz2` or `.zip`.
pub open spec fn archive_suffix(filename: Seq<char>) -> Option<int> {
    if ends_with(filename, seq!['.', 't', 'a', 'r', '.', 'g', 'z']) {
        Some(7)
    } else if ends_with(filename, seq!['.', 't', 'a', 'r', '.', 'b', 'z', '2']) {
        Some(8)
    } else if ends_with(filename, seq!['.', 'z', 'i', 'p']) {
        Some(4)
    } else {
        None
    }
}

/// The name of the package in the file name of a source archive,
/// `NAME-VERSION` and the extension of an archive: what stands before the
/// last hyphen is a valid name, what follows it the text of a version.
pub open spec fn sdist_name(filename: Seq<char>) -> Option<Seq<char>> {
    match archive_suffix(filename) {
        None => None,
        Some(k) => {
            let stem = filename.subrange(0, filename.len() - k);
            let cut = after_last(stem, '-', stem.len() as int);
            if cut > 0 && is_valid_name(stem.subrange(0, cut - 1)) && is_version_text(
                stem.subrange(cut, stem.len() as int),
            ) {
                Some(normalized(stem.subrange(0, cut - 1)))
            } else {
                None
            }
        },
    }
}

fn has_suffix(s: &Vec<char>, suffix: &Vec<char>) -> (r: bool)
    ensures
        r == ends_with(s@, suffix@),
{
    if suffix.len() > s.len() {
        return false;
    }
    let base = s.len() - suffix.len();
    let mut i: usize = 0;
    while i < suffix.len()
        invariant
            i <= suffix.len(),
            base + suffix.len() == s.len(),
            forall|j: int| 0 <= j < i ==> s@[base + j] == suffix@[j],
        decreases suffix.len() - i,
    {
        if s[base + i] != suffix[i] {
            proof {
                assert(s@.subrange(base as int, s.len() as int)[i as int] == s@[base + i]);
            }
            return false;
        }
        i += 1;
    }
    proof {
        assert(s@.subrange(base as int, s.len() as int) =~= suffix@);
    }
    true
}

/// The last segment of a path.
pub fn path_filename(path: &str) -> (r: Option<String>)
    ensures
        r.deep_view() == last_segment(path@),
{
    let s = chars_of(path);
    let cut = rfind_end(&s, '/', s.len());
    if cut == 0 {
        None
    } else {
        Some(string_of(&s, cut, s.len()))
    }
}

/// Whether the last segment of the path has the extension `whl`.
pub fn path_names_wheel(path: &str) -> (r: bool)
    ensures
        r == names_wheel(path@),
{
    let s = chars_of(path);
    let cut = rfind_end(&s, '/', s.len());
    let ghost segment = match last_segment(path@) {
        Some(x) => x,
        None => path@,
    };
    proof {
        lemma_after_last(path@, '/', path@.len() as int);
        assert(segment =~= s@.subrange(cut as int, s@.len() as int));
    }
    let dot = rfind_end_from(&s, cut);
    let ghost k = after_last(segment, '.', segment.len() as int);
    assert(dot - cut == k);
    if dot - cut <= 1 {
        return false;
    }
    let n = s.len();
    proof {
        let ext = segment.subrange(k, segment.len() as int);
        assert(ext.len() == n - dot);
        if n - dot == 3 {
            assert(ext[0] == s@[dot as int]);
            assert(ext[1] == s@[dot + 1]);
            assert(ext[2] == s@[dot + 2]);
        }
    }
    n - dot == 3 && (s[dot] == 'w' || s[dot] == 'W') && (s[dot + 1] == 'h' || s[dot + 1] == 'H')
        && (s[dot + 2] == 'l' || s[dot + 2] == 'L')
}

/// The place after the last dot in `s[cut..]`; `cut` where there is none.
fn rfind_end_from(s: &Vec<char>, cut: usize) -> (r: usize)
    requires
        cut <= s.len(),
    ensures
        cut <= r <= s.len(),
        r - cut == after_last(
            s@.subrange(cut as int, s@.len() as int),
            '.',
            s@.len() - cut,
        ),
{
    let ghost t = s@.subrange(cut as int, s@.len() as int);
    let mut i = s.len();
    while i > cut && s[i - 1] != '.'
        invariant
            cut <= i <= s.len(),
            t == s@.subrange(cut as int, s@.len() as int),
            after_last(t, '.', s@.len() - cut) == after_last(t, '.', i - cut),
        decreases i,
    {
        assert(t[i - 1 - cut] == s@[i - 1]);
        i -= 1;
    }
    proof {
        if i > cut {
            assert(t[i - 1 - cut] == s@[i - 1]);
        }
    }
    i
}

/// The name of the package in the file name of a wheel.
pub fn wheel_package_name(filename: &str) -> (r: Option<PackageName>)
    ensures
        r.deep_view() == wheel_name(filename@),
{
    let s = chars_of(filename);
    let whl = vec!['.', 'w', 'h', 'l'];
    assert(whl@ =~= seq!['.', 'w', 'h', 'l']);
    if !has_suffix(&s, &whl) {
        return None;
    }
    let stem = string_of(&s, 0, s.len() - 4);
    let t = chars_of(stem.as_str());
    let dashes = count(&t, '-');
    if dashes != 4 && dashes != 5 {
        return None;
    }
    let first = find(&t, '-', 0);
    proof {
        lemma_count_has(t@, '-', t@.len() as int);
        lemma_find_found(t@, '-', 0);
    }
    let second = find(&t, '-', first + 1);
    let name = string_of(&t, 0, first);
    let version = string_of(&t, first + 1, second);
    if !version_text_is_valid(version.as_str()) {
        return None;
    }
    match PackageName::new(name.as_str()) {
        Ok(n) => Some(n),
        Err(_) => None,
    }
}

/// Where `c` occurs, it is found.
proof fn lemma_find_found(s: Seq<char>, c: char, from: int)
    requires
        0 <= from <= s.len(),
    ensures
        find_char(s, c, from) == s.len() ==> forall|i: int| from <= i < s.len() ==> s[i] != c,
    decreases s.len() - from,
{
    if from < s.len() && s[from] != c {
        lemma_find_found(s, c, from + 1);
    }
}

/// Where `c` is counted, it occurs.
proof fn lemma_count_has(s: Seq<char>, c: char, to: int)
    requires
        0 <= to <= s.len(),
    ensures
        count_char(s, c, to) > 0 ==> exists|i: int| 0 <= i < to && s[i] == c,
    decreases to,
{
    if to > 0 {
        lemma_count_has(s, c, to - 1);
    }
}

/// The name of the package in the file name of a source archive.
pub fn sdist_package_name(filename: &str) -> (r: Option<PackageName>)
    ensures
        r.deep_view() == sdist_name(filename@),
{
    let s = chars_of(filename);
    let tar_gz = vec!['.', 't', 'a', 'r', '.', 'g', 'z'];
    let tar_bz2 = vec!['.', 't', 'a', 'r', '.', 'b', 'z', '2'];
    let zip = vec!['.', 'z', 'i', 'p'];
    proof {
        assert(tar_gz@ =~= seq!['.', 't', 'a', 'r', '.', 'g', 'z']);
        assert(tar_bz2@ =~= seq!['.', 't', 'a', 'r', '.', 'b', 'z', '2']);
        assert(zip@ =~= seq!['.', 'z', 'i', 'p']);
    }
    let k: usize = if has_suffix(&s, &tar_gz) {
        7
    } else if has_suffix(&s, &tar_bz2) {
        8
    } else if has_suffix(&s, &zip) {
        4
    } else {
        return None;
    };
    let stem = string_of(&s, 0, s.len() - k);
    let t = chars_of(stem.as_str());
    let cut = rfind_end(&t, '-', t.len());
    if cut == 0 {
        return None;
    }
    let name = string_of(&t, 0, cut - 1);
    let version = string_of(&t, cut, t.len());
    if !version_text_is_valid(version.as_str()) {
        return None;
    }
    match PackageName::new(name.as_str()) {
        Ok(n) => Some(n),
        Err(_) => None,
    }
}

} // verus!
