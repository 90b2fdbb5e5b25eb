//! Text as sequences of characters: conversion, ordering and numerals.

use vstd::prelude::*;

verus! {

/// `String::push` appends one character to the end of the string.
pub assume_specification[ std::string::String::push ](s: &mut std::string::String, ch: char)
    ensures
        final(s)@ == old(s)@.push(ch),
;

/// The characters of `s`, in order.
pub fn chars_of(s: &str) -> (v: Vec<char>)
    ensures
        v@ == s@,
{
    let mut v: Vec<char> = Vec::new();
    for c in it: s.chars()
        invariant
            it.seq() == s@,
            v@ == it.seq().take(it.index() as int),
    {
        proof {
            assert(it.seq().take(it.index() + 1) == it.seq().take(it.index() as int).push(c));
        }
        v.push(c);
    }
    proof {
        assert(s@.take(s@.len() as int) == s@);
    }
    v
}

/// The string made of the characters `v[from..to]`.
pub fn string_of(v: &Vec<char>, from: usize, to: usize) -> (s: String)
    requires
        from <= to <= v.len(),
    ensures
        s@ == v@.subrange(from as int, to as int),
{
    let mut s = String::new();
    let mut i: usize = from;
    while i < to
        invariant
            from <= i <= to <= v.len(),
            s@ == v@.subrange(from as int, i as int),
        decreases to - i,
    {
        s.push(v[i]);
        proof {
            assert(v@.subrange(from as int, i + 1) == v@.subrange(from as int, i as int).push(
                v@[i as int],
            ));
        }
        i += 1;
    }
    s
}

/// `a` and `b` agree on their first `k` characters.
pub open spec fn common_prefix(a: Seq<char>, b: Seq<char>, k: int) -> bool {
    &&& 0 <= k <= a.len()
    &&& k <= b.len()
    &&& forall|j: int| 0 <= j < k ==> a[j] == b[j]
}

/// Lexicographic order by code point: at the first place where the two texts
/// part, `a` has ended or holds the smaller character.
pub open spec fn text_lt(a: Seq<char>, b: Seq<char>) -> bool {
    exists|k: int|
        #[trigger] common_prefix(a, b, k) && k < b.len() && (k == a.len() || a[k] < b[k])
}

/// Two texts are equal, or exactly one comes before the other.
pub proof fn lemma_text_order_total(a: Seq<char>, b: Seq<char>)
    ensures
        a == b || text_lt(a, b) || text_lt(b, a),
        !(text_lt(a, b) && text_lt(b, a)),
        !text_lt(a, a),
{
    if text_lt(a, b) && text_lt(b, a) {
        let k1 = choose|k: int|
            #[trigger] common_prefix(a, b, k) && k < b.len() && (k == a.len() || a[k] < b[k]);
        let k2 = choose|k: int|
            #[trigger] common_prefix(b, a, k) && k < a.len() && (k == b.len() || b[k] < a[k]);
        if k1 < k2 {
            assert(b[k1] == a[k1]);
        } else if k2 < k1 {
            assert(a[k2] == b[k2]);
        }
    }
    if text_lt(a, a) {
        let k = choose|k: int|
            #[trigger] common_prefix(a, a, k) && k < a.len() && (k == a.len() || a[k] < a[k]);
    }
    if a != b {
        lemma_first_difference(a, b, 0);
    }
}

/// Past a common prefix of length `k`, two different texts part somewhere.
proof fn lemma_first_difference(a: Seq<char>, b: Seq<char>, k: int)
    requires
        common_prefix(a, b, k),
        a != b,
    ensures
        text_lt(a, b) || text_lt(b, a),
    decreases a.len() - k,
{
    if k == a.len() {
        if k == b.len() {
            assert(a =~= b);
        } else {
            assert(common_prefix(a, b, k));
        }
    } else if k == b.len() {
        assert(common_prefix(b, a, k));
    } else if a[k] == b[k] {
        lemma_first_difference(a, b, k + 1);
    } else if a[k] < b[k] {
        assert(common_prefix(a, b, k));
    } else {
        assert(common_prefix(b, a, k));
    }
}

/// The order is transitive.
pub proof fn lemma_text_lt_transitive(a: Seq<char>, b: Seq<char>, c: Seq<char>)
    requires
        text_lt(a, b),
        text_lt(b, c),
    ensures
        text_lt(a, c),
{
    let k1 = choose|k: int|
        #[trigger] common_prefix(a, b, k) && k < b.len() && (k == a.len() || a[k] < b[k]);
    let k2 = choose|k: int|
        #[trigger] common_prefix(b, c, k) && k < c.len() && (k == b.len() || b[k] < c[k]);
    let k = if k1 <= k2 {
        k1
    } else {
        k2
    };
    assert(common_prefix(a, c, k));
}

/// Whether `a` comes before `b` in lexicographic order.
pub fn text_less(a: &Vec<char>, b: &Vec<char>) -> (r: bool)
    ensures
        r == text_lt(a@, b@),
{
    let mut i: usize = 0;
    while i < a.len() && i < b.len()
        invariant
            common_prefix(a@, b@, i as int),
        decreases a.len() - i,
    {
        if a[i] != b[i] {
            let r = a[i] < b[i];
            proof {
                if r {
                    assert(common_prefix(a@, b@, i as int));
                } else {
                    lemma_text_order_total(a@, b@);
                    assert(common_prefix(b@, a@, i as int));
                }
            }
            return r;
        }
        i += 1;
    }
    proof {
        lemma_text_order_total(a@, b@);
        if i < b.len() {
            assert(common_prefix(a@, b@, i as int));
        } else if i < a.len() {
            assert(common_prefix(b@, a@, i as int));
        } else {
            assert(a@ =~= b@);
        }
    }
    i < b.len()
}

/// Whether two texts hold the same characters.
pub fn text_same(a: &Vec<char>, b: &Vec<char>) -> (r: bool)
    ensures
        r == (a@ == b@),
{
    if a.len() != b.len() {
        return false;
    }
    let mut i: usize = 0;
    while i < a.len()
        invariant
            a.len() == b.len(),
            common_prefix(a@, b@, i as int),
        decreases a.len() - i,
    {
        if a[i] != b[i] {
            return false;
        }
        i += 1;
    }
    proof {
        assert(a@ =~= b@);
    }
    true
}

/// The decimal digit for `d`.
pub open spec fn digit_char(d: nat) -> char
    recommends
        d < 10,
{
    if d == 0 {
        '0'
    } else if d == 1 {
        '1'
    } else if d == 2 {
        '2'
    } else if d == 3 {
        '3'
    } else if d == 4 {
        '4'
    } else if d == 5 {
        '5'
    } else if d == 6 {
        '6'
    } else if d == 7 {
        '7'
    } else if d == 8 {
        '8'
    } else {
        '9'
    }
}

/// The decimal numeral of `n`, without leading zeros.
pub open spec fn decimal(n: nat) -> Seq<char>
    decreases n,
{
    if n < 10 {
        seq![digit_char(n)]
    } else {
        decimal(n / 10).push(digit_char(n % 10))
    }
}

/// Appends the characters of `chars` to `out`.
pub fn push_chars(out: &mut String, chars: &Vec<char>)
    ensures
        final(out)@ == old(out)@ + chars@,
{
    let mut i: usize = 0;
    assert(out@ =~= old(out)@ + chars@.take(0));
    while i < chars.len()
        invariant
            i <= chars.len(),
            out@ == old(out)@ + chars@.take(i as int),
        decreases chars.len() - i,
    {
        out.push(chars[i]);
        assert(out@ =~= old(out)@ + chars@.take(i + 1));
        i += 1;
    }
    assert(chars@.take(chars.len() as int) =~= chars@);
}

/// The first `n` of the parts, with `sep` between each two.
pub open spec fn joined(parts: Seq<Seq<char>>, sep: Seq<char>, n: nat) -> Seq<char>
    decreases n,
{
    if n == 0 || n > parts.len() {
        Seq::empty()
    } else if n == 1 {
        parts[0]
    } else {
        joined(parts, sep, (n - 1) as nat) + sep + parts[n - 1]
    }
}

/// Appends the parts to `out`, with `sep` between each two.
pub fn push_joined(out: &mut String, parts: &Vec<Vec<char>>, sep: &Vec<char>)
    ensures
        final(out)@ == old(out)@ + joined(crate::order::texts(parts@), sep@, parts@.len()),
{
    let ghost ps = crate::order::texts(parts@);
    let mut i: usize = 0;
    assert(out@ =~= old(out)@ + joined(ps, sep@, 0));
    while i < parts.len()
        invariant
            i <= parts.len(),
            ps == crate::order::texts(parts@),
            out@ == old(out)@ + joined(ps, sep@, i as nat),
        decreases parts.len() - i,
    {
        if i > 0 {
            push_chars(out, sep);
        }
        push_chars(out, &parts[i]);
        assert(ps[i as int] == parts@[i as int]@);
        assert(out@ =~= old(out)@ + joined(ps, sep@, (i + 1) as nat));
        i += 1;
    }
}

/// The text with spaces added at its end until it is `width` characters
/// long.
pub open spec fn padded(text: Seq<char>, width: nat) -> Seq<char> {
    if text.len() >= width {
        text
    } else {
        text + Seq::new((width - text.len()) as nat, |i: int| ' ')
    }
}

/// Appends spaces to `text` until it is `width` characters long.
pub fn pad(text: &mut Vec<char>, width: usize)
    ensures
        final(text)@ == padded(old(text)@, width as nat),
{
    let ghost start = text@;
    while text.len() < width
        invariant
            start.len() <= text.len(),
            text.len() <= width || text@ == start,
            text@ == start + Seq::new((text.len() - start.len()) as nat, |i: int| ' '),
        decreases width - text.len(),
    {
        text.push(' ');
        assert(text@ =~= start + Seq::new((text.len() - start.len()) as nat, |i: int| ' '));
    }
    assert(text@ =~= padded(start, width as nat));
}

/// White space, as Unicode defines it.
pub open spec fn is_blank(c: char) -> bool {
    let n = c as u32;
    (0x09 <= n && n <= 0x0d) || n == 0x20 || n == 0x85 || n == 0xa0 || n == 0x1680 || (0x2000 <= n
        && n <= 0x200a) || n == 0x2028 || n == 0x2029 || n == 0x202f || n == 0x205f || n == 0x3000
}

fn blank(c: char) -> (r: bool)
    ensures
        r == is_blank(c),
{
    let n = c as u32;
    (0x09 <= n && n <= 0x0d) || n == 0x20 || n == 0x85 || n == 0xa0 || n == 0x1680 || (0x2000 <= n
        && n <= 0x200a) || n == 0x2028 || n == 0x2029 || n == 0x202f || n == 0x205f || n == 0x3000
}

/// The length of `text[from..to]` without the white space at its end.
pub open spec fn trimmed_len(text: Seq<char>, from: int, to: int) -> int
    decreases to - from,
{
    if to <= from {
        0
    } else if is_blank(text[to - 1]) {
        trimmed_len(text, from, to - 1)
    } else {
        to - from
    }
}

/// The place of the first line feed at or after `from`; the length of the
/// text where there is none.
pub open spec fn line_end(text: Seq<char>, from: int) -> int
    decreases text.len() - from,
{
    if from >= text.len() {
        text.len() as int
    } else if text[from] == '\n' {
        from
    } else {
        line_end(text, from + 1)
    }
}

/// The lines of `text` from `from` on, each without the white space at its
/// end and each ended by a line feed. A line feed at the very end of the
/// text begins no further line.
pub open spec fn trimmed_lines(text: Seq<char>, from: int) -> Seq<char>
    decreases text.len() - from,
{
    if from < 0 || from >= text.len() {
        Seq::empty()
    } else {
        let end = line_end(text, from);
        let line = text.subrange(from, from + trimmed_len(text, from, end)).push('\n');
        if from <= end && end + 1 < text.len() {
            line + trimmed_lines(text, end + 1)
        } else {
            line
        }
    }
}

/// Appends the lines of `text` to `out`, each without the white space at
/// its end and each ended by a line feed.
pub fn push_trimmed_lines(out: &mut String, text: &Vec<char>)
    ensures
        final(out)@ == old(out)@ + trimmed_lines(text@, 0),
{
    let n = text.len();
    if n == 0 {
        assert(out@ =~= old(out)@ + trimmed_lines(text@, 0));
        return ;
    }
    let ghost start = out@;
    let mut from: usize = 0;
    let mut done = false;
    while !done
        invariant
            n == text.len(),
            !done ==> from < n,
            !done ==> start + trimmed_lines(text@, 0) == out@ + trimmed_lines(text@, from as int),
            done ==> out@ == start + trimmed_lines(text@, 0),
        decreases n - from, if done { 0int } else { 1int },
    {
        let mut end: usize = from;
        while end < n && text[end] != '\n'
            invariant
                from <= end <= n,
                n == text.len(),
                line_end(text@, from as int) == line_end(text@, end as int),
            decreases n - end,
        {
            end += 1;
        }
        let mut stop: usize = end;
        while stop > from && blank(text[stop - 1])
            invariant
                from <= stop <= end <= n,
                n == text.len(),
                trimmed_len(text@, from as int, end as int) == trimmed_len(
                    text@,
                    from as int,
                    stop as int,
                ),
            decreases stop,
        {
            stop -= 1;
        }
        let ghost before = out@;
        let mut k: usize = from;
        assert(out@ =~= before + text@.subrange(from as int, k as int));
        while k < stop
            invariant
                from <= k <= stop <= n,
                n == text.len(),
                out@ == before + text@.subrange(from as int, k as int),
            decreases stop - k,
        {
            out.push(text[k]);
            assert(out@ =~= before + text@.subrange(from as int, k + 1));
            k += 1;
        }
        out.push('\n');
        proof {
            let line = text@.subrange(
                from as int,
                from + trimmed_len(text@, from as int, end as int),
            ).push('\n');
            assert(out@ =~= before + line);
            if end + 1 < n {
                assert(before + (line + trimmed_lines(text@, end + 1)) =~= out@ + trimmed_lines(
                    text@,
                    end + 1,
                ));
            }
        }
        if n - end > 1 {
            from = end + 1;
        } else {
            done = true;
        }
    }
}

} // verus!
