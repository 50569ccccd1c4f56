//! Characters and text: the character classes that come from the standard
//! library, conversions between `String` and `Vec<char>`, and the small text
//! algorithms the rest of the crate is built on.

use vstd::prelude::*;

verus! {

/// What `char::is_numeric` answers for `c`: whether `c` lies in one of the
/// Unicode general categories for numbers.
pub uninterp spec fn numeric(c: char) -> bool;

/// What `char::is_alphanumeric` answers for `c`: whether `c` is alphabetic or
/// numeric in the Unicode sense.
pub uninterp spec fn alphanumeric(c: char) -> bool;

/// `char::is_numeric` of the standard library. Believed, not proved: the answer
/// depends on the character alone, and `numeric` is the name of that answer.
pub assume_specification[ char::is_numeric ](c: char) -> (b: bool)
    ensures
        b == numeric(c),
;

/// `char::is_alphanumeric` of the standard library. Believed, not proved: the
/// answer depends on the character alone, and `alphanumeric` is the name of
/// that answer.
pub assume_specification[ char::is_alphanumeric ](c: char) -> (b: bool)
    ensures
        b == alphanumeric(c),
;

/// `String::push` of the standard library. Believed, not proved: the character
/// is appended at the end and nothing else changes.
pub assume_specification[ String::push ](s: &mut String, c: char)
    ensures
        final(s)@ == old(s)@.push(c),
;

/// A character together with the two Unicode classes the scanner asks about.
///
/// The scanner never consults the Unicode tables itself; it reads these two
/// flags. `classify` fills them in from the standard library.
#[derive(Clone, Copy, Debug, PartialEq, Eq)]
pub struct Glyph {
    pub ch: char,
    pub numeric: bool,
    pub alphanumeric: bool,
}

/// The glyph of `c` as the standard library classifies it.
pub open spec fn glyph_of(c: char) -> Glyph {
    Glyph { ch: c, numeric: numeric(c), alphanumeric: alphanumeric(c) }
}

/// The glyphs of a whole text, character by character.
pub open spec fn glyphs_of(s: Seq<char>) -> Seq<Glyph> {
    Seq::new(s.len(), |i: int| glyph_of(s[i]))
}

/// The glyph that stands where there is no character: a plain space.
pub open spec fn void_glyph() -> Glyph {
    Glyph { ch: ' ', numeric: false, alphanumeric: false }
}

/// Space, tab, carriage return and line feed: what separates tokens.
pub open spec fn blank(c: char) -> bool {
    c == ' ' || c == '\t' || c == '\r' || c == '\n'
}

/// Whether `c` is a space, a tab, a carriage return or a line feed.
pub fn is_blank(c: char) -> (b: bool)
    ensures
        b == blank(c),
{
    c == ' ' || c == '\t' || c == '\r' || c == '\n'
}

/// White space as Unicode defines it: the characters with the property
/// `White_Space`. These are what is trimmed off the ends of a word.
pub open spec fn white_space(c: char) -> bool {
    let n = c as u32;
    (0x09 <= n <= 0x0d) || n == 0x20 || n == 0x85 || n == 0xa0 || n == 0x1680 || (0x2000 <= n
        <= 0x200a) || n == 0x2028 || n == 0x2029 || n == 0x202f || n == 0x205f || n == 0x3000
}

/// Whether `c` is white space as Unicode defines it.
pub fn is_white_space(c: char) -> (b: bool)
    ensures
        b == white_space(c),
{
    let n: u32 = c as u32;
    (0x09 <= n && n <= 0x0d) || n == 0x20 || n == 0x85 || n == 0xa0 || n == 0x1680 || (0x2000 <= n
        && n <= 0x200a) || n == 0x2028 || n == 0x2029 || n == 0x202f || n == 0x205f || n == 0x3000
}

/// Classifies one character.
pub fn classify(c: char) -> (g: Glyph)
    ensures
        g == glyph_of(c),
{
    Glyph { ch: c, numeric: c.is_numeric(), alphanumeric: c.is_alphanumeric() }
}

/// Classifies every character of a text.
pub fn classify_all(chars: &Vec<char>) -> (glyphs: Vec<Glyph>)
    ensures
        glyphs@ == glyphs_of(chars@),
{
    let mut glyphs: Vec<Glyph> = Vec::new();
    let mut i: usize = 0;
    while i < chars.len()
        invariant
            i <= chars.len(),
            glyphs@ == glyphs_of(chars@.take(i as int)),
        decreases chars.len() - i,
    {
        glyphs.push(classify(chars[i]));
        i = i + 1;
        assert(glyphs@ =~= glyphs_of(chars@.take(i as int)));
    }
    assert(chars@.take(i as int) =~= chars@);
    glyphs
}

/// The characters of a string slice, as a vector.
pub fn chars_of(s: &str) -> (v: Vec<char>)
    ensures
        v@ == s@,
{
    let mut v: Vec<char> = Vec::new();
    for c in it: s.chars()
        invariant
            v@ == it.seq().take(it.index()),
    {
        v.push(c);
    }
    v
}

/// Appends `v[from..to]` to `out`.
pub fn push_range(out: &mut String, v: &Vec<char>, from: usize, to: usize)
    requires
        from <= to <= v.len(),
    ensures
        final(out)@ == old(out)@ + v@.subrange(from as int, to as int),
{
    let mut i: usize = from;
    while i < to
        invariant
            from <= i <= to <= v.len(),
            out@ == old(out)@ + v@.subrange(from as int, i as int),
        decreases to - i,
    {
        out.push(v[i]);
        i = i + 1;
        assert(out@ =~= old(out)@ + v@.subrange(from as int, i as int));
    }
}

/// The text `v[from..to]` as a `String`.
pub fn text_of_range(v: &Vec<char>, from: usize, to: usize) -> (s: String)
    requires
        from <= to <= v.len(),
    ensures
        s@ == v@.subrange(from as int, to as int),
{
    let mut s = String::new();
    push_range(&mut s, v, from, to);
    assert(s@ =~= v@.subrange(from as int, to as int));
    s
}

/// The whole of `v` as a `String`.
pub fn text_of(v: &Vec<char>) -> (s: String)
    ensures
        s@ == v@,
{
    let s = text_of_range(v, 0, v.len());
    assert(v@.subrange(0, v.len() as int) =~= v@);
    s
}

/// `n` copies of `c`.
pub open spec fn repeated(c: char, n: nat) -> Seq<char> {
    Seq::new(n, |i: int| c)
}

/// Appends `n` copies of `c` to `out`.
pub fn push_repeated(out: &mut String, c: char, n: usize)
    ensures
        final(out)@ == old(out)@ + repeated(c, n as nat),
{
    let mut i: usize = 0;
    while i < n
        invariant
            i <= n,
            out@ == old(out)@ + repeated(c, i as nat),
        decreases n - i,
    {
        out.push(c);
        i = i + 1;
        assert(out@ =~= old(out)@ + repeated(c, i as nat));
    }
}

/// Whether `needle` stands in `hay` at index `k`.
pub open spec fn occurs_at(hay: Seq<char>, needle: Seq<char>, k: int) -> bool {
    0 <= k && k + needle.len() <= hay.len() && hay.subrange(k, k + needle.len()) == needle
}

/// The least index at or after `k` at which `needle` stands in `hay`.
pub open spec fn first_occurrence_from(hay: Seq<char>, needle: Seq<char>, k: int) -> Option<int>
    decreases hay.len() + 1 - k,
{
    if k < 0 || k + needle.len() > hay.len() {
        None
    } else if occurs_at(hay, needle, k) {
        Some(k)
    } else {
        first_occurrence_from(hay, needle, k + 1)
    }
}

/// The least index at which `needle` stands in `hay`.
pub open spec fn first_occurrence(hay: Seq<char>, needle: Seq<char>) -> Option<int> {
    first_occurrence_from(hay, needle, 0)
}

/// `first_occurrence_from` finds an occurrence, no occurrence lies between
/// `k` and it, and it finds none only where there is none.
pub proof fn lemma_first_occurrence_from(hay: Seq<char>, needle: Seq<char>, k: int)
    requires
        0 <= k,
    ensures
        match first_occurrence_from(hay, needle, k) {
            Some(at) => k <= at && occurs_at(hay, needle, at) && forall|j: int|
                k <= j < at ==> !occurs_at(hay, needle, j),
            None => forall|j: int| k <= j ==> !occurs_at(hay, needle, j),
        },
    decreases hay.len() + 1 - k,
{
    if k + needle.len() > hay.len() {
    } else if occurs_at(hay, needle, k) {
    } else {
        lemma_first_occurrence_from(hay, needle, k + 1);
    }
}

/// Whether `hay[at..]` begins with `needle`.
fn matches_at(hay: &Vec<char>, needle: &Vec<char>, at: usize) -> (b: bool)
    requires
        at + needle.len() <= hay.len(),
    ensures
        b == occurs_at(hay@, needle@, at as int),
{
    let mut i: usize = 0;
    while i < needle.len()
        invariant
            i <= needle.len(),
            at + needle.len() <= hay.len(),
            forall|j: int| 0 <= j < i ==> hay@[at + j] == needle@[j],
        decreases needle.len() - i,
    {
        if hay[at + i] != needle[i] {
            assert(hay@.subrange(at as int, at + needle.len())[i as int] == hay@[at + i]);
            return false;
        }
        i = i + 1;
    }
    assert(hay@.subrange(at as int, at + needle.len()) =~= needle@);
    true
}

/// The first place at which `needle` stands in `hay`, if there is one.
pub fn find_first(hay: &Vec<char>, needle: &Vec<char>) -> (found: Option<usize>)
    ensures
        match found {
            Some(at) => first_occurrence(hay@, needle@) == Some(at as int),
            None => first_occurrence(hay@, needle@) is None,
        },
        match found {
            Some(at) => occurs_at(hay@, needle@, at as int) && forall|j: int|
                0 <= j < at ==> !occurs_at(hay@, needle@, j),
            None => forall|j: int| !occurs_at(hay@, needle@, j),
        },
{
    proof {
        lemma_first_occurrence_from(hay@, needle@, 0);
    }
    if needle.len() > hay.len() {
        return None;
    }
    let limit: usize = hay.len() - needle.len();
    let mut k: usize = 0;
    loop
        invariant
            k <= limit,
            limit == hay.len() - needle.len(),
            needle.len() <= hay.len(),
            first_occurrence(hay@, needle@) == first_occurrence_from(hay@, needle@, k as int),
            match first_occurrence(hay@, needle@) {
                Some(at) => occurs_at(hay@, needle@, at) && forall|j: int|
                    0 <= j < at ==> !occurs_at(hay@, needle@, j),
                None => forall|j: int| 0 <= j ==> !occurs_at(hay@, needle@, j),
            },
        decreases limit - k,
    {
        if matches_at(hay, needle, k) {
            return Some(k);
        }
        if k == limit {
            assert(first_occurrence_from(hay@, needle@, k + 1) is None);
            return None;
        }
        k = k + 1;
    }
}

/// The decimal digit for `d`, where `d` is below ten.
pub open spec fn digit(d: nat) -> char {
    if d == 0 {
        '0'
    } else if d == 1 {
        '1'
    } else if d == 2 {
        '2'
    } else if d == 3 {
        '3'
    } else if d == 4 {
        '4'
    } else if d == 5 {
        '5'
    } else if d == 6 {
        '6'
    } else if d == 7 {
        '7'
    } else if d == 8 {
        '8'
    } else {
        '9'
    }
}

/// `n` written in decimal, without leading zeros.
pub open spec fn decimal(n: nat) -> Seq<char>
    decreases n,
{
    if n < 10 {
        seq![digit(n)]
    } else {
        decimal(n / 10).push(digit(n % 10))
    }
}

fn digit_char(d: usize) -> (c: char)
    requires
        d < 10,
    ensures
        c == digit(d as nat),
{
    if d == 0 {
        '0'
    } else if d == 1 {
        '1'
    } else if d == 2 {
        '2'
    } else if d == 3 {
        '3'
    } else if d == 4 {
        '4'
    } else if d == 5 {
        '5'
    } else if d == 6 {
        '6'
    } else if d == 7 {
        '7'
    } else if d == 8 {
        '8'
    } else {
        '9'
    }
}

/// Appends `n` in decimal to `out`.
pub fn push_decimal(out: &mut String, n: usize)
    ensures
        final(out)@ == old(out)@ + decimal(n as nat),
    decreases n,
{
    if n < 10 {
        out.push(digit_char(n));
        assert(out@ =~= old(out)@ + decimal(n as nat));
    } else {
        push_decimal(out, n / 10);
        out.push(digit_char(n % 10));
        assert(out@ =~= old(out)@ + decimal(n as nat));
    }
}

/// The lines of a text: what stands between its line feeds. A text with no
/// line feed is one line, and every line feed begins another.
pub open spec fn lines_of(s: Seq<char>) -> Seq<Seq<char>>
    decreases s.len(),
{
    if s.len() == 0 {
        seq![Seq::empty()]
    } else {
        let before = lines_of(s.drop_last());
        if s.last() == '\n' {
            before.push(Seq::empty())
        } else {
            before.drop_last().push(before.last().push(s.last()))
        }
    }
}

/// A text has at least one line.
pub proof fn lemma_lines_of_len(s: Seq<char>)
    ensures
        lines_of(s).len() >= 1,
    decreases s.len(),
{
    if s.len() > 0 {
        lemma_lines_of_len(s.drop_last());
    }
}

/// The text of every line of `chars`, in order.
pub fn split_lines(chars: &Vec<char>) -> (lines: Vec<String>)
    ensures
        lines@.len() == lines_of(chars@).len(),
        forall|k: int| 0 <= k < lines@.len() ==> (#[trigger] lines@[k])@ == lines_of(chars@)[k],
{
    let mut lines: Vec<String> = Vec::new();
    let mut line = String::new();
    let mut i: usize = 0;
    assert(chars@.take(0) =~= Seq::<char>::empty());
    while i < chars.len()
        invariant
            i <= chars.len(),
            lines@.len() + 1 == lines_of(chars@.take(i as int)).len(),
            forall|k: int|
                0 <= k < lines@.len() ==> (#[trigger] lines@[k])@ == lines_of(
                    chars@.take(i as int),
                )[k],
            line@ == lines_of(chars@.take(i as int)).last(),
        decreases chars.len() - i,
    {
        let c = chars[i];
        assert(chars@.take(i + 1).drop_last() =~= chars@.take(i as int));
        if c == '\n' {
            lines.push(line);
            line = String::new();
        } else {
            line.push(c);
        }
        i = i + 1;
    }
    assert(chars@.take(i as int) =~= chars@);
    lines.push(line);
    lines
}

} // verus!
