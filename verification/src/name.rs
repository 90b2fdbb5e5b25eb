//! Normalized package and extra names.

use crate::text::chars_of;
use crate::table::Key;
use vstd::prelude::*;

verus! {

/// A letter or a digit of ASCII.
pub open spec fn is_alnum(c: char) -> bool {
    ('a' <= c && c <= 'z') || ('A' <= c && c <= 'Z') || ('0' <= c && c <= '9')
}

/// One of the three punctuation marks that a name may hold.
pub open spec fn is_separator(c: char) -> bool {
    c == '-' || c == '_' || c == '.'
}

/// The lower case of an ASCII letter; any other character unchanged.
pub open spec fn lowered(c: char) -> char {
    if 'A' <= c && c <= 'Z' {
        ((c as u8) + 32) as char
    } else {
        c
    }
}

/// A name is a non-empty run of ASCII letters, digits and separators that
/// begins and ends with a letter or a digit.
pub open spec fn is_valid_name(s: Seq<char>) -> bool {
    &&& s.len() > 0
    &&& is_alnum(s[0])
    &&& is_alnum(s.last())
    &&& forall|i: int| 0 <= i < s.len() ==> is_alnum(#[trigger] s[i]) || is_separator(s[i])
}

/// The normal form of a name: letters in lower case, and each run of
/// separators replaced by a single hyphen.
pub open spec fn normalized(s: Seq<char>) -> Seq<char>
    decreases s.len(),
{
    if s.len() == 0 {
        Seq::empty()
    } else {
        let head = normalized(s.drop_last());
        let c = s.last();
        if is_separator(c) {
            if s.len() >= 2 && is_separator(s[s.len() - 2]) {
                head
            } else {
                head.push('-')
            }
        } else {
            head.push(lowered(c))
        }
    }
}

/// The normal form of `raw`, or `None` where `raw` is no valid name.
pub fn normalize(raw: &str) -> (r: Option<String>)
    ensures
        r is Some <==> is_valid_name(raw@),
        r matches Some(s) ==> s@ == normalized(raw@),
{
    let v = chars_of(raw);
    let n = v.len();
    if n == 0 {
        return None;
    }
    let mut out = String::new();
    let mut i: usize = 0;
    let mut after_separator = false;
    while i < n
        invariant
            n == v.len(),
            i <= n,
            v@ == raw@,
            out@ == normalized(v@.take(i as int)),
            forall|j: int| 0 <= j < i ==> is_alnum(#[trigger] v@[j]) || is_separator(v@[j]),
            i > 0 ==> is_alnum(v@[0]),
            after_separator == (i > 0 && is_separator(v@[i - 1])),
        decreases n - i,
    {
        let c = v[i];
        proof {
            let t = v@.take(i + 1);
            assert(t.drop_last() == v@.take(i as int));
            assert(t.last() == c);
            if i > 0 {
                assert(t[t.len() - 2] == v@[i - 1]);
            }
        }
        if c == '-' || c == '_' || c == '.' {
            if i == 0 {
                return None;
            }
            if !after_separator {
                out.push('-');
            }
            after_separator = true;
        } else if c >= 'A' && c <= 'Z' {
            out.push(((c as u8) + 32) as char);
            after_separator = false;
        } else if (c >= 'a' && c <= 'z') || (c >= '0' && c <= '9') {
            out.push(c);
            after_separator = false;
        } else {
            return None;
        }
        i += 1;
    }
    proof {
        assert(v@.take(n as int) == v@);
    }
    if after_separator {
        return None;
    }
    Some(out)
}

/// The text that was refused as a name.
#[derive(Debug)]
pub struct InvalidNameError {
    pub name: String,
}

/// The normalized name of a package.
#[derive(Debug)]
pub struct PackageName {
    text: String,
}

impl View for PackageName {
    type V = Seq<char>;

    closed spec fn view(&self) -> Seq<char> {
        self.text@
    }
}

impl Clone for PackageName {
    fn clone(&self) -> (r: Self)
        ensures
            r@ == self@,
    {
        PackageName { text: self.text.clone() }
    }
}

impl PartialEq for PackageName {
    fn eq(&self, other: &Self) -> (r: bool) {
        self.text == other.text
    }
}

impl Eq for PackageName {

}

impl vstd::std_specs::cmp::PartialEqSpecImpl for PackageName {
    open spec fn obeys_eq_spec() -> bool {
        true
    }

    open spec fn eq_spec(&self, other: &Self) -> bool {
        self@ == other@
    }
}

impl PackageName {
    /// The package name that `raw` spells, in normal form.
    pub fn new(raw: &str) -> (r: Result<PackageName, InvalidNameError>)
        ensures
            r is Ok <==> is_valid_name(raw@),
            r matches Ok(name) ==> name@ == normalized(raw@),
            r matches Err(e) ==> e.name@ == raw@,
    {
        match normalize(raw) {
            Some(text) => Ok(PackageName { text }),
            None => Err(InvalidNameError { name: raw.to_owned() }),
        }
    }

    /// The name as text.
    pub fn as_str(&self) -> (s: &str)
        ensures
            s@ == self@,
    {
        self.text.as_str()
    }
}

/// The normalized name of an optional feature set of a package.
#[derive(Debug)]
pub struct ExtraName {
    text: String,
}

impl View for ExtraName {
    type V = Seq<char>;

    closed spec fn view(&self) -> Seq<char> {
        self.text@
    }
}

impl Clone for ExtraName {
    fn clone(&self) -> (r: Self)
        ensures
            r@ == self@,
    {
        ExtraName { text: self.text.clone() }
    }
}

impl PartialEq for ExtraName {
    fn eq(&self, other: &Self) -> (r: bool) {
        self.text == other.text
    }
}

impl Eq for ExtraName {

}

impl vstd::std_specs::cmp::PartialEqSpecImpl for ExtraName {
    open spec fn obeys_eq_spec() -> bool {
        true
    }

    open spec fn eq_spec(&self, other: &Self) -> bool {
        self@ == other@
    }
}

impl ExtraName {
    /// The extra name that `raw` spells, in normal form.
    pub fn new(raw: &str) -> (r: Result<ExtraName, InvalidNameError>)
        ensures
            r is Ok <==> is_valid_name(raw@),
            r matches Ok(name) ==> name@ == normalized(raw@),
            r matches Err(e) ==> e.name@ == raw@,
    {
        match normalize(raw) {
            Some(text) => Ok(ExtraName { text }),
            None => Err(InvalidNameError { name: raw.to_owned() }),
        }
    }

    /// The name as text.
    pub fn as_str(&self) -> (s: &str)
        ensures
            s@ == self@,
    {
        self.text.as_str()
    }
}

impl DeepView for PackageName {
    type V = Seq<char>;

    open spec fn deep_view(&self) -> Seq<char> {
        self@
    }
}

impl Key for PackageName {
    fn same_key(&self, other: &Self) -> (r: bool) {
        self.text == other.text
    }
}

impl DeepView for ExtraName {
    type V = Seq<char>;

    open spec fn deep_view(&self) -> Seq<char> {
        self@
    }
}

impl Key for ExtraName {
    fn same_key(&self, other: &Self) -> (r: bool) {
        self.text == other.text
    }
}

} // verus!
