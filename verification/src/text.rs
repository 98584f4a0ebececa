//! Text as sequences of characters: white space, trimming, lines, ASCII case
//! and substrings.

use vstd::prelude::*;
use vstd::slice::slice_subrange;

verus! {

/// Whether `c` has the Unicode property White_Space.
pub open spec fn is_white(c: char) -> bool {
    ||| '\u{9}' <= c <= '\u{d}'
    ||| c == ' '
    ||| c == '\u{85}'
    ||| c == '\u{a0}'
    ||| c == '\u{1680}'
    ||| '\u{2000}' <= c <= '\u{200a}'
    ||| c == '\u{2028}'
    ||| c == '\u{2029}'
    ||| c == '\u{202f}'
    ||| c == '\u{205f}'
    ||| c == '\u{3000}'
}

/// A class of characters that is stripped from the ends of a text.
#[derive(Clone, Copy)]
pub enum Strip {
    Whitespace,
    AngleBrackets,
}

impl Strip {
    /// Whether `c` belongs to the class.
    pub open spec fn covers(self, c: char) -> bool {
        match self {
            Strip::Whitespace => is_white(c),
            Strip::AngleBrackets => c == '<' || c == '>',
        }
    }
}

/// `s` without the characters of `class` that it starts with.
pub open spec fn strip_start(s: Seq<char>, class: Strip) -> Seq<char>
    decreases s.len(),
{
    if s.len() > 0 && class.covers(s[0]) {
        strip_start(s.drop_first(), class)
    } else {
        s
    }
}

/// `s` without the characters of `class` that it ends with.
pub open spec fn strip_end(s: Seq<char>, class: Strip) -> Seq<char>
    decreases s.len(),
{
    if s.len() > 0 && class.covers(s.last()) {
        strip_end(s.drop_last(), class)
    } else {
        s
    }
}

/// `s` without the characters of `class` at either end.
pub open spec fn strip(s: Seq<char>, class: Strip) -> Seq<char> {
    strip_end(strip_start(s, class), class)
}

/// `s` without white space at either end.
pub open spec fn trim(s: Seq<char>) -> Seq<char> {
    strip(s, Strip::Whitespace)
}

/// The position of the first `c` in `s`, or the length of `s` where there is none.
pub open spec fn first_at(s: Seq<char>, c: char) -> nat
    decreases s.len(),
{
    if s.len() == 0 || s[0] == c {
        0
    } else {
        1 + first_at(s.drop_first(), c)
    }
}

/// What stands before and after the first `c` in `s`.
pub open spec fn split_once(s: Seq<char>, c: char) -> Option<(Seq<char>, Seq<char>)> {
    let at = first_at(s, c) as int;
    if at < s.len() {
        Some((s.take(at), s.skip(at + 1)))
    } else {
        None
    }
}

/// `s` without the one `\r` that it may end with.
pub open spec fn without_cr(s: Seq<char>) -> Seq<char> {
    if s.len() > 0 && s.last() == '\r' {
        s.drop_last()
    } else {
        s
    }
}

/// The lines of `s`: each ends at `\n` or `\r\n`, which is not part of it; the
/// last line may go without.
pub open spec fn lines(s: Seq<char>) -> Seq<Seq<char>>
    decreases s.len(),
{
    let at = first_at(s, '\n') as int;
    if s.len() == 0 {
        Seq::empty()
    } else if at >= s.len() {
        seq![s]
    } else {
        seq![without_cr(s.take(at))] + lines(s.skip(at + 1))
    }
}

/// The parts one after the other, with `sep` between neighbours.
pub open spec fn join(parts: Seq<Seq<char>>, sep: Seq<char>) -> Seq<char>
    decreases parts.len(),
{
    if parts.len() == 0 {
        Seq::empty()
    } else if parts.len() == 1 {
        parts[0]
    } else {
        join(parts.drop_last(), sep) + sep + parts.last()
    }
}

/// The lines one after the other, each with `eol` behind it.
pub open spec fn terminated(lines: Seq<Seq<char>>, eol: Seq<char>) -> Seq<char>
    decreases lines.len(),
{
    if lines.len() == 0 {
        Seq::empty()
    } else {
        terminated(lines.drop_last(), eol) + lines.last() + eol
    }
}

/// `c` with the letters `A` to `Z` in lower case.
pub open spec fn lower_char(c: char) -> char {
    if 'A' <= c <= 'Z' {
        (c as u8 + 32) as char
    } else {
        c
    }
}

/// `c` with the letters `a` to `z` in upper case.
pub open spec fn upper_char(c: char) -> char {
    if 'a' <= c <= 'z' {
        (c as u8 - 32) as char
    } else {
        c
    }
}

/// `s` with its ASCII letters in lower case.
pub open spec fn ascii_lower(s: Seq<char>) -> Seq<char> {
    s.map_values(|c: char| lower_char(c))
}

/// `s` with its ASCII letters in upper case.
pub open spec fn ascii_upper(s: Seq<char>) -> Seq<char> {
    s.map_values(|c: char| upper_char(c))
}

/// Whether `needle` stands somewhere in `hay`, character by character.
pub open spec fn has_text(hay: Seq<char>, needle: Seq<char>) -> bool {
    exists|i: int|
        0 <= i <= hay.len() - needle.len() && #[trigger] hay.subrange(i, i + needle.len()) == needle
}

/// A number in decimal notation.
pub open spec fn decimal(n: nat) -> Seq<char>
    decreases n,
{
    let digit = ('0' as nat + n % 10) as char;
    if n < 10 {
        seq![digit]
    } else {
        decimal(n / 10).push(digit)
    }
}

/// The texts of a list of slices.
pub open spec fn slice_texts(v: Seq<&[char]>) -> Seq<Seq<char>> {
    Seq::new(v.len(), |i: int| v[i]@)
}

/// The texts of a list of strings.
pub open spec fn texts(v: Seq<String>) -> Seq<Seq<char>> {
    Seq::new(v.len(), |i: int| v[i]@)
}

/// Whether `c` is white space.
pub fn is_whitespace(c: char) -> (b: bool)
    ensures
        b == is_white(c),
{
    ('\u{9}' <= c && c <= '\u{d}') || c == ' ' || c == '\u{85}' || c == '\u{a0}' || c == '\u{1680}'
        || ('\u{2000}' <= c && c <= '\u{200a}') || c == '\u{2028}' || c == '\u{2029}' || c
        == '\u{202f}' || c == '\u{205f}' || c == '\u{3000}'
}

impl Strip {
    fn covers_char(self, c: char) -> (b: bool)
        ensures
            b == self.covers(c),
    {
        match self {
            Strip::Whitespace => is_whitespace(c),
            Strip::AngleBrackets => c == '<' || c == '>',
        }
    }
}

/// The characters of a string.
pub fn chars_of(s: &str) -> (v: Vec<char>)
    ensures
        v@ == s@,
{
    let mut v: Vec<char> = Vec::new();
    for c in iter: s.chars()
        invariant
            v@ == iter.seq().take(iter.index() as int),
            iter.seq() == s@,
    {
        v.push(c);
    }
    v
}

/// The string of some characters.
pub fn string_of(cs: &[char]) -> (s: String)
    ensures
        s@ == cs@,
{
    let mut s = String::new();
    for i in 0..cs.len()
        invariant
            s@ == cs@.take(i as int),
    {
        s.push(cs[i]);
    }
    assert(cs@.take(cs@.len() as int) == cs@);
    s
}

/// Strips the characters of `class` from both ends.
pub fn strip_chars(cs: &[char], class: Strip) -> (r: &[char])
    ensures
        r@ == strip(cs@, class),
{
    let n = cs.len();
    let mut lo: usize = 0;
    assert(cs@.skip(0) == cs@);
    while lo < n && class.covers_char(cs[lo])
        invariant
            lo <= n,
            n == cs@.len(),
            strip_start(cs@, class) == strip_start(cs@.skip(lo as int), class),
        decreases n - lo,
    {
        assert(cs@.skip(lo as int).drop_first() == cs@.skip(lo + 1));
        lo = lo + 1;
    }
    assert(strip_start(cs@, class) == cs@.skip(lo as int));
    let mut hi: usize = n;
    assert(cs@.subrange(lo as int, hi as int) == cs@.skip(lo as int));
    while lo < hi && class.covers_char(cs[hi - 1])
        invariant
            lo <= hi <= n,
            n == cs@.len(),
            strip(cs@, class) == strip_end(cs@.subrange(lo as int, hi as int), class),
        decreases hi - lo,
    {
        assert(cs@.subrange(lo as int, hi as int).drop_last() == cs@.subrange(lo as int, hi - 1));
        hi = hi - 1;
    }
    slice_subrange(cs, lo, hi)
}

/// The position of the first `c`, or the length where there is none.
pub fn find_char(cs: &[char], c: char) -> (at: usize)
    ensures
        at == first_at(cs@, c),
        at <= cs@.len(),
        at < cs@.len() ==> cs@[at as int] == c,
{
    let n = cs.len();
    let mut i: usize = 0;
    assert(cs@.skip(0) == cs@);
    while i < n && cs[i] != c
        invariant
            i <= n,
            n == cs@.len(),
            first_at(cs@, c) == i + first_at(cs@.skip(i as int), c),
        decreases n - i,
    {
        assert(cs@.skip(i as int).drop_first() == cs@.skip(i + 1));
        i = i + 1;
    }
    i
}

/// The lines of a text.
pub fn split_lines(cs: &[char]) -> (v: Vec<&[char]>)
    ensures
        slice_texts(v@) == lines(cs@),
{
    let n = cs.len();
    let mut v: Vec<&[char]> = Vec::new();
    let mut pos: usize = 0;
    assert(cs@.skip(0) == cs@);
    while pos < n
        invariant
            pos <= n,
            n == cs@.len(),
            lines(cs@) == slice_texts(v@) + lines(cs@.skip(pos as int)),
        decreases n - pos,
    {
        let rest = slice_subrange(cs, pos, n);
        assert(rest@ == cs@.skip(pos as int));
        let at = find_char(rest, '\n');
        let ghost before = slice_texts(v@);
        if at == rest.len() {
            v.push(rest);
            assert(slice_texts(v@) == before.push(rest@));
            assert(lines(cs@.skip(n as int)) == Seq::<Seq<char>>::empty());
            pos = n;
        } else {
            let end = if at > 0 && rest[at - 1] == '\r' {
                at - 1
            } else {
                at
            };
            let line = slice_subrange(rest, 0, end);
            assert(line@ == without_cr(rest@.take(at as int)));
            v.push(line);
            assert(slice_texts(v@) == before.push(line@));
            assert(rest@.skip(at + 1) == cs@.skip(pos + at + 1));
            pos = pos + at + 1;
        }
    }
    assert(lines(cs@.skip(pos as int)) == Seq::<Seq<char>>::empty());
    v
}

/// Joins the lines with `\n` between neighbours, from line `from` on.
pub fn join_lines(v: &Vec<&[char]>, from: usize) -> (s: String)
    requires
        from <= v@.len(),
    ensures
        s@ == join(slice_texts(v@).skip(from as int), seq!['\n']),
{
    let ghost parts = slice_texts(v@).skip(from as int);
    let mut s = String::new();
    for i in from..v.len()
        invariant
            from <= v@.len(),
            parts == slice_texts(v@).skip(from as int),
            s@ == join(parts.take(i - from), seq!['\n']),
    {
        if i > from {
            s.push('\n');
        }
        s.append(string_of(v[i]).as_str());
        assert(parts.take(i + 1 - from).drop_last() == parts.take(i - from));
        assert(parts.take(i + 1 - from).last() == v@[i as int]@);
    }
    assert(parts.take(parts.len() as int) == parts);
    s
}

/// Joins the strings with `sep` between neighbours.
pub fn join_strings(v: &Vec<String>, sep: &str) -> (s: String)
    ensures
        s@ == join(texts(v@), sep@),
{
    let ghost parts = texts(v@);
    let mut s = String::new();
    for i in 0..v.len()
        invariant
            parts == texts(v@),
            s@ == join(parts.take(i as int), sep@),
    {
        if i > 0 {
            s.append(sep);
        }
        s.append(v[i].as_str());
        assert(parts.take(i + 1).drop_last() == parts.take(i as int));
        assert(parts.take(i + 1).last() == v@[i as int]@);
    }
    assert(parts.take(parts.len() as int) == parts);
    s
}

/// The characters as a string, ASCII letters in lower case.
pub fn lower_string(cs: &[char]) -> (s: String)
    ensures
        s@ == ascii_lower(cs@),
{
    let mut s = String::new();
    for i in 0..cs.len()
        invariant
            s@ == ascii_lower(cs@.take(i as int)),
    {
        let c = cs[i];
        if 'A' <= c && c <= 'Z' {
            s.push((c as u8 + 32) as char);
        } else {
            s.push(c);
        }
        assert(ascii_lower(cs@.take(i + 1)) == ascii_lower(cs@.take(i as int)).push(lower_char(c)));
    }
    assert(cs@.take(cs@.len() as int) == cs@);
    s
}

/// The characters with their ASCII letters in upper case.
pub fn upper_chars(cs: &[char]) -> (v: Vec<char>)
    ensures
        v@ == ascii_upper(cs@),
{
    let mut v: Vec<char> = Vec::new();
    for i in 0..cs.len()
        invariant
            v@ == ascii_upper(cs@.take(i as int)),
    {
        let c = cs[i];
        if 'a' <= c && c <= 'z' {
            v.push((c as u8 - 32) as char);
        } else {
            v.push(c);
        }
        assert(ascii_upper(cs@.take(i + 1)) == ascii_upper(cs@.take(i as int)).push(upper_char(c)));
    }
    assert(cs@.take(cs@.len() as int) == cs@);
    v
}

/// Whether the characters of `needle` stand in `hay` from position `at` on.
fn has_at(hay: &[char], needle: &[char], at: usize) -> (b: bool)
    requires
        at + needle@.len() <= hay@.len(),
    ensures
        b == (hay@.subrange(at as int, at + needle@.len()) == needle@),
{
    let n = hay.len();
    for i in 0..needle.len()
        invariant
            n == hay@.len(),
            at + needle@.len() <= n,
            forall|k: int| 0 <= k < i ==> hay@[at + k] == #[trigger] needle@[k],
    {
        if hay[at + i] != needle[i] {
            assert(hay@.subrange(at as int, at + needle@.len())[i as int] != needle@[i as int]);
            return false;
        }
    }
    assert(hay@.subrange(at as int, at + needle@.len()) == needle@);
    true
}

/// Whether `cs` starts with `prefix`.
pub fn starts_with(cs: &[char], prefix: &str) -> (b: bool)
    ensures
        b == prefix@.is_prefix_of(cs@),
{
    let p = chars_of(prefix);
    p.len() <= cs.len() && has_at(cs, p.as_slice(), 0)
}

/// Whether `cs` are the characters of `s`.
pub fn same_text(cs: &[char], s: &str) -> (b: bool)
    ensures
        b == (cs@ == s@),
{
    let p = chars_of(s);
    assert(cs@.subrange(0, cs@.len() as int) == cs@);
    p.len() == cs.len() && has_at(cs, p.as_slice(), 0)
}

/// Whether `needle` stands somewhere in `hay`.
pub fn contains(hay: &str, needle: &str) -> (b: bool)
    ensures
        b == has_text(hay@, needle@),
{
    let h = chars_of(hay);
    let n = chars_of(needle);
    if n.len() > h.len() {
        return false;
    }
    let last = h.len() - n.len();
    let mut i: usize = 0;
    while i <= last
        invariant
            h@ == hay@,
            n@ == needle@,
            last == h@.len() - n@.len(),
            i <= last + 1,
            forall|k: int|
                0 <= k < i ==> #[trigger] hay@.subrange(k, k + needle@.len()) != needle@,
        decreases last + 1 - i,
    {
        if has_at(h.as_slice(), n.as_slice(), i) {
            return true;
        }
        if i == last {
            return false;
        }
        i = i + 1;
    }
    false
}

/// A number in decimal notation.
pub fn decimal_text(n: usize) -> (s: String)
    ensures
        s@ == decimal(n as nat),
    decreases n,
{
    let mut s = if n < 10 {
        String::new()
    } else {
        decimal_text(n / 10)
    };
    s.push((48 + (n % 10) as u8) as char);
    assert(s@ == decimal(n as nat));
    s
}

} // verus!
