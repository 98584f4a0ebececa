//! Laws of trimming, of lines and of joining.

use vstd::prelude::*;

use crate::text;
use crate::text::Strip;

verus! {

/// Whether neither end of `s` belongs to `class`.
pub open spec fn bare(s: Seq<char>, class: Strip) -> bool {
    s.len() > 0 ==> !class.covers(s[0]) && !class.covers(s.last())
}

/// Whether `c` does not occur in `s`.
pub open spec fn lacks(s: Seq<char>, c: char) -> bool {
    forall|i: int| 0 <= i < s.len() ==> #[trigger] s[i] != c
}

/// Stripping leaves neither end in the class.
pub proof fn law_stripped_is_bare(s: Seq<char>, class: Strip)
    ensures
        bare(text::strip(s, class), class),
{
    lemma_strip_start(s, class);
    lemma_strip_end(text::strip_start(s, class), class);
}

proof fn lemma_strip_start(s: Seq<char>, class: Strip)
    ensures
        text::strip_start(s, class).len() > 0 ==> !class.covers(text::strip_start(s, class)[0]),
    decreases s.len(),
{
    if s.len() > 0 && class.covers(s[0]) {
        lemma_strip_start(s.drop_first(), class);
    }
}

proof fn lemma_strip_end(s: Seq<char>, class: Strip)
    ensures
        text::strip_end(s, class).len() > 0 ==> {
            &&& s.len() > 0
            &&& text::strip_end(s, class)[0] == s[0]
            &&& !class.covers(text::strip_end(s, class).last())
        },
    decreases s.len(),
{
    if s.len() > 0 && class.covers(s.last()) {
        lemma_strip_end(s.drop_last(), class);
    }
}

/// A text with neither end in the class is stripped of nothing.
pub proof fn law_bare_stays(s: Seq<char>, class: Strip)
    requires
        bare(s, class),
    ensures
        text::strip(s, class) == s,
{
}

/// Stripping twice is stripping once.
pub proof fn law_strip_idempotent(s: Seq<char>, class: Strip)
    ensures
        text::strip(text::strip(s, class), class) == text::strip(s, class),
{
    law_stripped_is_bare(s, class);
    law_bare_stays(text::strip(s, class), class);
}

/// One character of the class before a text, or one on either side of it,
/// makes no difference to what is left of it.
pub proof fn law_strip_ignores_wrapping(c: char, s: Seq<char>, d: char, class: Strip)
    requires
        class.covers(c),
        class.covers(d),
    ensures
        text::strip(seq![c] + s, class) == text::strip(s, class),
        bare(s, class) ==> text::strip(seq![c] + s + seq![d], class) == s,
{
    assert((seq![c] + s).drop_first() == s);
    let w = seq![c] + s + seq![d];
    let v = s + seq![d];
    assert(w.drop_first() == v);
    if bare(s, class) {
        assert(text::strip_start(w, class) == text::strip_start(v, class));
        assert(v.drop_last() == s);
        if s.len() == 0 {
            assert(v.drop_first() == s);
            assert(text::strip_start(v, class) == text::strip_start(s, class));
        } else {
            assert(v[0] == s[0]);
            assert(text::strip_end(v, class) == text::strip_end(s, class));
        }
    }
}

/// The first `c` of a text that lacks it up to there.
pub(crate) proof fn lemma_first_at(s: Seq<char>, c: char, at: nat)
    requires
        at <= s.len(),
        lacks(s.take(at as int), c),
        at < s.len() ==> s[at as int] == c,
    ensures
        text::first_at(s, c) == at,
    decreases s.len(),
{
    if at > 0 {
        assert(s.take(at as int)[0] == s[0]);
        let rest = s.drop_first();
        assert forall|i: int| 0 <= i < at - 1 implies #[trigger] rest.take(at - 1)[i] != c by {
            assert(s.take(at as int)[i + 1] == s[i + 1]);
        }
        lemma_first_at(rest, c, (at - 1) as nat);
    }
}

/// What stands before and at the first `c` of a text.
pub(crate) proof fn lemma_first_at_is_first(s: Seq<char>, c: char)
    ensures
        text::first_at(s, c) <= s.len(),
        lacks(s.take(text::first_at(s, c) as int), c),
        text::first_at(s, c) < s.len() ==> s[text::first_at(s, c) as int] == c,
    decreases s.len(),
{
    if s.len() > 0 && s[0] != c {
        let rest = s.drop_first();
        lemma_first_at_is_first(rest, c);
        let at = text::first_at(s, c) as int;
        assert forall|i: int| 0 <= i < at implies #[trigger] s.take(at)[i] != c by {
            if i > 0 {
                assert(rest.take(at - 1)[i - 1] == s[i]);
            }
        }
    }
}

/// The first line of a text whose first line is `line`.
pub(crate) proof fn lemma_first_line(line: Seq<char>, rest: Seq<char>)
    requires
        lacks(line, '\n'),
    ensures
        text::lines(line + seq!['\n'] + rest) == seq![text::without_cr(line)] + text::lines(rest),
{
    let s = line + seq!['\n'] + rest;
    assert(s.take(line.len() as int) == line);
    lemma_first_at(s, '\n', line.len());
    assert(s.skip(line.len() as int + 1) == rest);
}

pub(crate) proof fn lemma_terminated_first(lines: Seq<Seq<char>>, eol: Seq<char>)
    requires
        lines.len() > 0,
    ensures
        text::terminated(lines, eol) == lines[0] + eol + text::terminated(lines.drop_first(), eol),
    decreases lines.len(),
{
    if lines.len() == 1 {
        assert(lines.drop_last() == Seq::<Seq<char>>::empty());
        assert(lines.drop_first() == Seq::<Seq<char>>::empty());
        assert(text::terminated(lines.drop_last(), eol) == Seq::<char>::empty());
        assert(text::terminated(lines, eol) == lines[0] + eol);
        assert(text::terminated(lines.drop_first(), eol) == Seq::<char>::empty());
    } else {
        let init = lines.drop_last();
        lemma_terminated_first(init, eol);
        assert(init.drop_first() == lines.drop_first().drop_last());
        let mid = text::terminated(init.drop_first(), eol);
        assert((lines[0] + eol + mid) + lines.last() + eol == lines[0] + eol + (mid + lines.last()
            + eol));
    }
}

/// Whether each of the lines lacks `\n` and does not end in `\r`.
pub open spec fn are_lines(lines: Seq<Seq<char>>) -> bool {
    forall|i: int|
        0 <= i < lines.len() ==> lacks(#[trigger] lines[i], '\n') && text::without_cr(lines[i])
            == lines[i]
}

/// The lines of a text that starts with lines, each ended by `\r\n`, are those
/// lines and then the lines of the rest, and so they are where each was ended
/// by `\n` and none ends in `\r`.
pub proof fn law_lines_distribute(lines: Seq<Seq<char>>, rest: Seq<char>)
    requires
        forall|i: int| 0 <= i < lines.len() ==> lacks(#[trigger] lines[i], '\n'),
    ensures
        text::lines(text::terminated(lines, seq!['\r', '\n']) + rest) == lines + text::lines(rest),
        are_lines(lines) ==> text::lines(text::terminated(lines, seq!['\n']) + rest) == lines
            + text::lines(rest),
    decreases lines.len(),
{
    let crlf = seq!['\r', '\n'];
    let lf = seq!['\n'];
    if lines.len() == 0 {
        assert(text::terminated(lines, crlf) + rest == rest);
        assert(text::terminated(lines, lf) + rest == rest);
        assert(lines + text::lines(rest) == text::lines(rest));
    } else {
        let first = lines[0];
        let more = lines.drop_first();
        assert forall|i: int| 0 <= i < more.len() implies lacks(#[trigger] more[i], '\n') by {
            assert(more[i] == lines[i + 1]);
        }
        law_lines_distribute(more, rest);
        assert(seq![first] + (more + text::lines(rest)) == lines + text::lines(rest));

        lemma_terminated_first(lines, crlf);
        let tail = text::terminated(more, crlf);
        assert(first + crlf + tail + rest == first.push('\r') + lf + (tail + rest));
        lemma_first_line(first.push('\r'), tail + rest);
        assert(first.push('\r').drop_last() == first);

        if are_lines(lines) {
            assert forall|i: int| 0 <= i < more.len() implies lacks(#[trigger] more[i], '\n')
                && text::without_cr(more[i]) == more[i] by {
                assert(more[i] == lines[i + 1]);
            }
            lemma_terminated_first(lines, lf);
            let tail = text::terminated(more, lf);
            assert(first + lf + tail + rest == first + lf + (tail + rest));
            lemma_first_line(first, tail + rest);
        }
    }
}

/// The lines of a text that was made of lines, each ended by `\r\n`, are those
/// lines, and so they are where each was ended by `\n` and none ends in `\r`.
/// A last line without a line end is read back too, if it is not empty.
pub proof fn law_lines_read_back(lines: Seq<Seq<char>>, last: Seq<char>)
    requires
        forall|i: int| 0 <= i < lines.len() ==> lacks(#[trigger] lines[i], '\n'),
        lacks(last, '\n'),
    ensures
        ({
            let all = if last.len() == 0 {
                lines
            } else {
                lines.push(last)
            };
            &&& text::lines(text::terminated(lines, seq!['\r', '\n']) + last) == all
            &&& are_lines(lines) ==> text::lines(text::terminated(lines, seq!['\n']) + last) == all
        }),
{
    law_lines_distribute(lines, last);
    if last.len() == 0 {
        assert(lines + text::lines(last) == lines);
    } else {
        assert(last.take(last.len() as int) == last);
        lemma_first_at(last, '\n', last.len());
        assert(lines + seq![last] == lines.push(last));
    }
}

pub(crate) proof fn lemma_join_first(parts: Seq<Seq<char>>, sep: Seq<char>)
    requires
        parts.len() > 1,
    ensures
        text::join(parts, sep) == parts[0] + sep + text::join(parts.drop_first(), sep),
    decreases parts.len(),
{
    let init = parts.drop_last();
    let rest = parts.drop_first();
    if parts.len() == 2 {
        assert(text::join(init, sep) == parts[0]);
        assert(text::join(rest, sep) == parts[1]);
    } else {
        lemma_join_first(init, sep);
        assert(init.drop_first() == rest.drop_last());
        let mid = text::join(rest.drop_last(), sep);
        assert((parts[0] + sep + mid) + sep + parts.last() == parts[0] + sep + (mid + sep
            + parts.last()));
    }
}

/// Whether no `\n` of `s` follows a `\r`.
pub open spec fn lacks_crlf(s: Seq<char>) -> bool {
    forall|i: int| 0 < i < s.len() && #[trigger] s[i] == '\n' ==> s[i - 1] != '\r'
}

/// Splitting a text into lines and joining them with `\n` gives the text back,
/// if it holds no `\r\n` and does not end in `\n`.
pub proof fn law_join_undoes_lines(s: Seq<char>)
    requires
        lacks_crlf(s),
        s.len() > 0 ==> s.last() != '\n',
    ensures
        text::join(text::lines(s), seq!['\n']) == s,
        s.len() > 0 ==> text::lines(s).len() > 0,
    decreases s.len(),
{
    if s.len() > 0 {
        lemma_first_at_is_first(s, '\n');
        let at = text::first_at(s, '\n') as int;
        if at < s.len() {
            let line = s.take(at);
            let rest = s.skip(at + 1);
            assert(text::without_cr(line) == line) by {
                if at > 0 {
                    assert(s[at] == '\n');
                    assert(line.last() == s[at - 1]);
                }
            }
            assert forall|i: int| 0 < i < rest.len() && #[trigger] rest[i] == '\n' implies rest[i
                - 1] != '\r' by {
                assert(s[i + at + 1] == '\n');
            }
            assert(rest.last() == s.last());
            law_join_undoes_lines(rest);
            let all = text::lines(s);
            assert(all.drop_first() == text::lines(rest));
            lemma_join_first(all, seq!['\n']);
            assert(line + seq!['\n'] + rest == s);
        } else {
            assert(text::join(seq![s], seq!['\n']) == s);
        }
    }
}

proof fn lemma_strip_start_run(pre: Seq<char>, rest: Seq<char>, class: Strip)
    requires
        forall|i: int| 0 <= i < pre.len() ==> class.covers(#[trigger] pre[i]),
    ensures
        text::strip_start(pre + rest, class) == text::strip_start(rest, class),
    decreases pre.len(),
{
    if pre.len() == 0 {
        assert(pre + rest == rest);
    } else {
        let more = pre.drop_first();
        assert forall|i: int| 0 <= i < more.len() implies class.covers(#[trigger] more[i]) by {
            assert(more[i] == pre[i + 1]);
        }
        lemma_strip_start_run(more, rest, class);
        assert((pre + rest).drop_first() == more + rest);
        assert((pre + rest)[0] == pre[0]);
    }
}

proof fn lemma_strip_end_run(rest: Seq<char>, post: Seq<char>, class: Strip)
    requires
        forall|i: int| 0 <= i < post.len() ==> class.covers(#[trigger] post[i]),
    ensures
        text::strip_end(rest + post, class) == text::strip_end(rest, class),
    decreases post.len(),
{
    if post.len() == 0 {
        assert(rest + post == rest);
    } else {
        let less = post.drop_last();
        assert forall|i: int| 0 <= i < less.len() implies class.covers(#[trigger] less[i]) by {
            assert(less[i] == post[i]);
        }
        lemma_strip_end_run(rest, less, class);
        assert((rest + post).drop_last() == rest + less);
        assert((rest + post).last() == post[post.len() - 1]);
    }
}

/// White space behind a text makes no difference to what trimming leaves.
pub(crate) proof fn lemma_trim_drops_end(s: Seq<char>, post: Seq<char>)
    requires
        forall|i: int| 0 <= i < post.len() ==> text::is_white(#[trigger] post[i]),
    ensures
        text::trim(s + post) == text::trim(s),
    decreases s.len(),
{
    let white = Strip::Whitespace;
    let none = Seq::<char>::empty();
    if s.len() == 0 {
        assert(s + post == post + none);
        lemma_strip_start_run(post, none, white);
        assert(s == none);
    } else if text::is_white(s[0]) {
        let rest = s.drop_first();
        lemma_trim_drops_end(rest, post);
        assert((s + post).drop_first() == rest + post);
        assert((s + post)[0] == s[0]);
    } else {
        assert((s + post)[0] == s[0]);
        lemma_strip_end_run(s, post, white);
    }
}

/// Stripping takes away all of a class that stands at either end, and nothing
/// else.
pub proof fn law_strip_takes_the_ends(
    pre: Seq<char>,
    mid: Seq<char>,
    post: Seq<char>,
    class: Strip,
)
    requires
        forall|i: int| 0 <= i < pre.len() ==> class.covers(#[trigger] pre[i]),
        forall|i: int| 0 <= i < post.len() ==> class.covers(#[trigger] post[i]),
        mid.len() > 0 ==> !class.covers(mid[0]) && !class.covers(mid.last()),
    ensures
        text::strip(pre + mid + post, class) == mid,
        class == Strip::Whitespace ==> text::trim(pre + mid + post) == mid,
{
    let none = Seq::<char>::empty();
    assert(pre + mid + post == pre + (mid + post));
    lemma_strip_start_run(pre, mid + post, class);
    if mid.len() == 0 {
        assert(mid + post == post + none);
        lemma_strip_start_run(post, none, class);
        assert(text::strip_start(none, class) == none);
        assert(mid == none);
    } else {
        assert((mid + post)[0] == mid[0]);
        assert(text::strip_start(mid + post, class) == mid + post);
        lemma_strip_end_run(mid, post, class);
    }
}

/// The characters that are stripped: the angle brackets, and white space as
/// Unicode has it, by code points.
pub proof fn law_stripped_characters(c: char)
    ensures
        Strip::AngleBrackets.covers(c) <==> c == '<' || c == '>',
        Strip::Whitespace.covers(c) <==> text::is_white(c),
        text::is_white(c) <==> {
            let n = c as int;
            9 <= n <= 13 || n == 32 || n == 133 || n == 160 || n == 5760 || 8192 <= n <= 8202 || n
                == 8232 || n == 8233 || n == 8239 || n == 8287 || n == 12288
        },
{
}

/// A text is split at its first `c`, whatever follows it.
pub proof fn law_split_at_first(k: Seq<char>, c: char, v: Seq<char>)
    requires
        lacks(k, c),
    ensures
        text::split_once(k + seq![c] + v, c) == Some((k, v)),
        text::first_at(k + seq![c] + v, c) == k.len(),
        text::split_once(k, c) is None,
        text::first_at(k, c) == k.len(),
{
    let s = k + seq![c] + v;
    assert(s.take(k.len() as int) == k);
    lemma_first_at(s, c, k.len());
    assert(s.skip(k.len() as int + 1) == v);
    assert(k.take(k.len() as int) == k);
    lemma_first_at(k, c, k.len());
}

/// A text is read line by line: its first line ends at `\r\n` or at `\n`,
/// without which it is the only line, unless it is empty.
pub proof fn law_line_by_line(line: Seq<char>, rest: Seq<char>)
    requires
        lacks(line, '\n'),
    ensures
        text::lines(line + seq!['\r', '\n'] + rest) == seq![line] + text::lines(rest),
        (line.len() == 0 || line.last() != '\r') ==> text::lines(line + seq!['\n'] + rest)
            == seq![line] + text::lines(rest),
        line.len() > 0 ==> text::lines(line) == seq![line],
        line.len() == 0 ==> text::lines(line) == Seq::<Seq<char>>::empty(),
{
    let cr = line.push('\r');
    assert(line + seq!['\r', '\n'] + rest == cr + seq!['\n'] + rest);
    lemma_first_line(cr, rest);
    assert(cr.drop_last() == line);
    lemma_first_line(line, rest);
    law_split_at_first(line, '\n', rest);
}

/// Joining puts the separator between neighbours and nowhere else.
pub proof fn law_join_of_parts(a: Seq<Seq<char>>, b: Seq<Seq<char>>, p: Seq<char>, sep: Seq<char>)
    ensures
        text::join(Seq::empty(), sep) == Seq::<char>::empty(),
        text::join(seq![p], sep) == p,
        a.len() > 0 && b.len() > 0 ==> text::join(a + b, sep) == text::join(a, sep) + sep
            + text::join(b, sep),
    decreases b.len(),
{
    if a.len() > 0 && b.len() > 0 {
        let init = b.drop_last();
        assert((a + b).drop_last() == a + init);
        assert((a + b).last() == b.last());
        if init.len() == 0 {
            assert(a + init == a);
        } else {
            law_join_of_parts(a, init, p, sep);
            let x = text::join(a, sep);
            let y = text::join(init, sep);
            assert((x + sep + y) + sep + b.last() == x + sep + (y + sep + b.last()));
        }
    }
}

/// Each line has its line end, and nothing stands between the lines.
pub proof fn law_terminated_lines(
    a: Seq<Seq<char>>,
    b: Seq<Seq<char>>,
    line: Seq<char>,
    eol: Seq<char>,
)
    ensures
        text::terminated(Seq::empty(), eol) == Seq::<char>::empty(),
        text::terminated(seq![line], eol) == line + eol,
        text::terminated(a + b, eol) == text::terminated(a, eol) + text::terminated(b, eol),
    decreases b.len(),
{
    let none = Seq::<Seq<char>>::empty();
    assert(seq![line].drop_last() == none);
    assert(text::terminated(none, eol) == Seq::<char>::empty());
    assert(text::terminated(seq![line], eol) == line + eol);
    if b.len() == 0 {
        assert(a + b == a);
        assert(text::terminated(a, eol) + text::terminated(b, eol) == text::terminated(a, eol));
    } else {
        let init = b.drop_last();
        law_terminated_lines(a, init, line, eol);
        assert((a + b).drop_last() == a + init);
        assert((a + b).last() == b.last());
        let x = text::terminated(a, eol);
        let y = text::terminated(init, eol);
        assert((x + y) + b.last() + eol == x + (y + b.last() + eol));
    }
}

/// Changing the case changes the ASCII letters, by their distance in the code,
/// and nothing else.
pub proof fn law_ascii_case(s: Seq<char>)
    ensures
        text::ascii_lower(s).len() == s.len(),
        text::ascii_upper(s).len() == s.len(),
        forall|i: int|
            0 <= i < s.len() ==> #[trigger] text::ascii_lower(s)[i] as int == s[i] as int + (if 65
                <= s[i] as int <= 90 {
                32int
            } else {
                0
            }),
        forall|i: int|
            0 <= i < s.len() ==> #[trigger] text::ascii_upper(s)[i] as int == s[i] as int - (if 97
                <= s[i] as int <= 122 {
                32int
            } else {
                0
            }),
{
}

/// A text stands in another where that is made of something, the text, and
/// something, and nowhere else.
pub proof fn law_has_text(hay: Seq<char>, needle: Seq<char>)
    ensures
        text::has_text(hay, needle) <==> exists|pre: Seq<char>, post: Seq<char>|
            hay == #[trigger] (pre + needle + post),
{
    if text::has_text(hay, needle) {
        let i = choose|i: int|
            0 <= i <= hay.len() - needle.len() && #[trigger] hay.subrange(i, i + needle.len())
                == needle;
        let pre = hay.take(i);
        let post = hay.skip(i + needle.len());
        assert(hay == pre + hay.subrange(i, i + needle.len()) + post);
    }
    if exists|pre: Seq<char>, post: Seq<char>| hay == #[trigger] (pre + needle + post) {
        let (pre, post) = choose|pre: Seq<char>, post: Seq<char>|
            hay == #[trigger] (pre + needle + post);
        let i = pre.len() as int;
        assert(hay.subrange(i, i + needle.len()) == needle);
    }
}

/// A number in decimal notation is its tens in decimal notation, if there are
/// any, and the digit of its ones.
pub proof fn law_decimal_digits(tens: nat, ones: nat)
    requires
        ones < 10,
    ensures
        text::decimal(ones).len() == 1,
        text::decimal(ones)[0] as int == 48 + ones,
        tens > 0 ==> text::decimal(10 * tens + ones) == text::decimal(tens) + text::decimal(ones),
{
    if tens > 0 {
        let n = 10 * tens + ones;
        assert(n / 10 == tens && n % 10 == ones);
        assert(text::decimal(n) == text::decimal(tens) + text::decimal(ones));
    }
}

/// What a list of strings or of slices holds: as many texts, each in its place.
pub proof fn law_lists_of_texts(v: Seq<String>, w: Seq<&[char]>)
    ensures
        text::texts(v).len() == v.len(),
        forall|i: int| 0 <= i < v.len() ==> #[trigger] text::texts(v)[i] == v[i]@,
        text::slice_texts(w).len() == w.len(),
        forall|i: int| 0 <= i < w.len() ==> #[trigger] text::slice_texts(w)[i] == w[i]@,
{
}

} // verus!
