//! Laws of the message parser.

use vstd::prelude::*;

use crate::laws::text as text_laws;
use crate::message;
use crate::message::HeaderView;
use crate::text;
use crate::text::Strip;

verus! {

/// Whether a line is a header of its own: `name: value`, not indented.
pub open spec fn is_header_line(line: Seq<char>) -> bool {
    !message::is_indented(line) && text::split_once(line, ':') is Some
}

/// Whether a line is a `Subject` header, in whatever case, with the value `s`.
pub open spec fn is_subject_line(line: Seq<char>, s: Seq<char>) -> bool {
    &&& is_header_line(line)
    &&& text::split_once(line, ':') matches Some((k, v)) && text::ascii_lower(text::trim(k))
        == "subject"@ && text::trim(v) == s
}

/// How many lines stand before the first that is a header of its own.
pub open spec fn to_header(lines: Seq<Seq<char>>) -> nat
    decreases lines.len(),
{
    if lines.len() == 0 || is_header_line(lines[0]) {
        0
    } else {
        1 + to_header(lines.drop_first())
    }
}

/// A header value `s` after the lines behind it: the indented ones continue it,
/// the others are passed over.
pub open spec fn continued(s: Seq<char>, more: Seq<Seq<char>>) -> Seq<char>
    decreases more.len(),
{
    if more.len() == 0 {
        s
    } else if message::is_indented(more.last()) {
        continued(s, more.drop_last()).push(' ') + text::trim(more.last())
    } else {
        continued(s, more.drop_last())
    }
}

/// Whether each line has a character that is not white space.
pub open spec fn none_blank(lines: Seq<Seq<char>>) -> bool {
    forall|i: int| 0 <= i < lines.len() ==> !message::is_blank(#[trigger] lines[i])
}

/// A text in which a character is not white space does not trim to nothing.
proof fn lemma_not_blank(s: Seq<char>, i: int)
    requires
        0 <= i < s.len(),
        !text::is_white(s[i]),
    ensures
        !message::is_blank(s),
    decreases s.len(),
{
    let class = Strip::Whitespace;
    if class.covers(s[0]) {
        lemma_not_blank(s.drop_first(), i - 1);
    } else {
        lemma_strip_end_keeps(s, class, 0);
    }
}

proof fn lemma_strip_end_keeps(s: Seq<char>, class: Strip, i: int)
    requires
        0 <= i < s.len(),
        !class.covers(s[i]),
    ensures
        text::strip_end(s, class).len() > i,
    decreases s.len(),
{
    if class.covers(s.last()) {
        lemma_strip_end_keeps(s.drop_last(), class, i);
    }
}

proof fn lemma_block_len(block: Seq<Seq<char>>, rest: Seq<Seq<char>>)
    requires
        none_blank(block),
        rest.len() > 0 ==> message::is_blank(rest[0]),
    ensures
        message::block_len(block + rest) == block.len(),
    decreases block.len(),
{
    if block.len() == 0 {
        assert(block + rest == rest);
    } else {
        let tail = block.drop_first();
        assert forall|i: int| 0 <= i < tail.len() implies !message::is_blank(
            #[trigger] tail[i],
        ) by {
            assert(tail[i] == block[i + 1]);
        }
        lemma_block_len(tail, rest);
        assert((block + rest).drop_first() == tail + rest);
        assert((block + rest)[0] == block[0]);
    }
}

/// The first value in `a + b` is that in `a`, or else that in `b`.
proof fn lemma_first_value_of_sum(a: Seq<HeaderView>, b: Seq<HeaderView>, name: Seq<char>)
    ensures
        message::first_value(a + b, name) == (match message::first_value(a, name) {
            Some(v) => Some(v),
            None => message::first_value(b, name),
        }),
    decreases a.len(),
{
    if a.len() == 0 {
        assert(a + b == b);
    } else {
        lemma_first_value_of_sum(a.drop_first(), b, name);
        assert((a + b).drop_first() == a.drop_first() + b);
        assert((a + b)[0] == a[0]);
    }
}

/// More lines leave all headers but the last as they are.
proof fn lemma_earlier_headers_stay(block: Seq<Seq<char>>, more: Seq<Seq<char>>)
    requires
        message::headers_of(block).len() > 0,
    ensures
        message::headers_of(block + more).len() >= message::headers_of(block).len(),
        message::headers_of(block + more).take(message::headers_of(block).len() - 1)
            == message::headers_of(block).drop_last(),
    decreases more.len(),
{
    let h = message::headers_of(block);
    if more.len() == 0 {
        assert(block + more == block);
        assert(h.take(h.len() - 1) == h.drop_last());
    } else {
        lemma_earlier_headers_stay(block, more.drop_last());
        assert((block + more).drop_last() == block + more.drop_last());
        let before = message::headers_of(block + more.drop_last());
        let after = message::with_line(before, more.last());
        assert(after.take(h.len() - 1) == before.take(h.len() - 1));
    }
}

/// First `Subject` wins: once another header has followed it, no further line
/// of the header block changes the subject.
pub proof fn law_first_subject_wins(block: Seq<Seq<char>>, more: Seq<Seq<char>>)
    requires
        message::headers_of(block).len() > 0,
        message::first_value(message::headers_of(block).drop_last(), "subject"@) is Some,
    ensures
        message::first_value(message::headers_of(block + more), "subject"@)
            == message::first_value(message::headers_of(block), "subject"@),
{
    let name = "subject"@;
    let h = message::headers_of(block);
    let all = message::headers_of(block + more);
    let k = h.len() - 1;
    lemma_earlier_headers_stay(block, more);
    assert(h.drop_last() + seq![h.last()] == h);
    lemma_first_value_of_sum(h.drop_last(), seq![h.last()], name);
    assert(all.take(k) + all.skip(k) == all);
    lemma_first_value_of_sum(all.take(k), all.skip(k), name);
}

pub(crate) proof fn lemma_to_header(lines: Seq<Seq<char>>)
    ensures
        to_header(lines) <= lines.len(),
        forall|i: int| 0 <= i < to_header(lines) ==> !is_header_line(#[trigger] lines[i]),
        to_header(lines) < lines.len() ==> is_header_line(lines[to_header(lines) as int]),
    decreases lines.len(),
{
    if lines.len() > 0 && !is_header_line(lines[0]) {
        let rest = lines.drop_first();
        lemma_to_header(rest);
        assert forall|i: int| 0 <= i < to_header(lines) implies !is_header_line(
            #[trigger] lines[i],
        ) by {
            if i > 0 {
                assert(lines[i] == rest[i - 1]);
            }
        }
    }
}

proof fn lemma_continued(pre: Seq<Seq<char>>, line: Seq<char>, s: Seq<char>, more: Seq<Seq<char>>)
    requires
        is_subject_line(line, s),
        forall|i: int| 0 <= i < more.len() ==> !is_header_line(#[trigger] more[i]),
    ensures
        message::headers_of(pre + seq![line] + more) == message::headers_of(pre).push(
            HeaderView { name: "subject"@, value: continued(s, more) },
        ),
    decreases more.len(),
{
    let block = pre + seq![line] + more;
    if more.len() == 0 {
        assert(block.drop_last() == pre);
        assert(block.last() == line);
    } else {
        let init = more.drop_last();
        assert forall|i: int| 0 <= i < init.len() implies !is_header_line(#[trigger] init[i]) by {
            assert(init[i] == more[i]);
        }
        lemma_continued(pre, line, s, init);
        assert(block.drop_last() == pre + seq![line] + init);
        assert(block.last() == more.last());
        assert(!is_header_line(more[more.len() - 1]));
        let before = message::headers_of(pre + seq![line] + init);
        assert(before.drop_last() == message::headers_of(pre));
    }
}

/// The subject of a message is the value of its first `Subject` header, with
/// the indented lines appended that follow it before the next header, whatever
/// headers stand before and after it; and the body is what stands behind the
/// first blank line, if there is one.
pub proof fn law_subject_is_found(
    pre: Seq<Seq<char>>,
    line: Seq<char>,
    s: Seq<char>,
    post: Seq<Seq<char>>,
    blank: Seq<char>,
    body: Seq<Seq<char>>,
)
    requires
        none_blank(pre) && none_blank(post),
        message::is_blank(blank),
        message::first_value(message::headers_of(pre), "subject"@) is None,
        is_subject_line(line, s),
    ensures
        message::subject_of_lines(pre + seq![line] + post + seq![blank] + body) == continued(
            s,
            post.take(to_header(post) as int),
        ),
        message::body_lines(pre + seq![line] + post + seq![blank] + body) == body,
        message::subject_of_lines(pre + seq![line] + post) == continued(
            s,
            post.take(to_header(post) as int),
        ),
        message::body_lines(pre + seq![line] + post) == Seq::<Seq<char>>::empty(),
{
    let name = "subject"@;
    let k = to_header(post) as int;
    lemma_to_header(post);
    let more = post.take(k);
    let later = post.skip(k);
    assert(more + later == post);
    let head = pre + seq![line] + more;
    let block = pre + seq![line] + post;
    assert(block == head + later);
    let all = block + seq![blank] + body;
    let value = continued(s, more);
    let subject = HeaderView { name, value };

    assert forall|i: int| 0 <= i < more.len() implies !is_header_line(#[trigger] more[i]) by {
        assert(more[i] == post[i]);
    }
    lemma_continued(pre, line, s, more);
    let h = message::headers_of(head);
    assert(message::headers_of(pre) + seq![subject] == h);
    lemma_first_value_of_sum(message::headers_of(pre), seq![subject], name);
    if later.len() > 0 {
        let next = head + seq![later[0]];
        assert(later[0] == post[k]);
        assert(next.drop_last() == head);
        let n = message::headers_of(next);
        assert(n == message::with_line(h, later[0]));
        assert(n.drop_last() == h);
        assert(next + later.drop_first() == block);
        assert(n.drop_last() + seq![n.last()] == n);
        lemma_first_value_of_sum(n.drop_last(), seq![n.last()], name);
        law_first_subject_wins(next, later.drop_first());
    } else {
        assert(block == head);
    }
    assert(message::first_value(message::headers_of(block), name) == Some(value));

    assert(!message::is_blank(line)) by {
        text_laws::lemma_first_at_is_first(line, ':');
        lemma_not_blank(line, text::first_at(line, ':') as int);
    }
    assert forall|i: int| 0 <= i < block.len() implies !message::is_blank(#[trigger] block[i]) by {
        if i < pre.len() {
            assert(block[i] == pre[i]);
        } else if i == pre.len() {
            assert(block[i] == line);
        } else {
            assert(block[i] == post[i - pre.len() - 1]);
        }
    }
    assert(all == block + (seq![blank] + body));
    lemma_block_len(block, seq![blank] + body);
    assert(all.take(block.len() as int) == block);
    assert(all.skip(block.len() as int + 1) == body);
    assert(block + Seq::<Seq<char>>::empty() == block);
    lemma_block_len(block, Seq::empty());
    assert(block.take(block.len() as int) == block);
}

/// Lines that are not indented do not continue a header.
pub proof fn law_only_indented_lines_continue(s: Seq<char>, more: Seq<Seq<char>>)
    requires
        forall|i: int| 0 <= i < more.len() ==> !message::is_indented(#[trigger] more[i]),
    ensures
        continued(s, more) == s,
    decreases more.len(),
{
    if more.len() > 0 {
        let init = more.drop_last();
        assert forall|i: int| 0 <= i < init.len() implies !message::is_indented(
            #[trigger] init[i],
        ) by {
            assert(init[i] == more[i]);
        }
        law_only_indented_lines_continue(s, init);
        assert(!message::is_indented(more[more.len() - 1]));
    }
}

/// `Subject: ` and a text without white space around it make a `Subject` line.
pub proof fn law_plain_subject_line(s: Seq<char>)
    requires
        text_laws::bare(s, Strip::Whitespace),
    ensures
        is_subject_line("Subject: "@ + s, s),
{
    reveal_strlit("Subject: ");
    reveal_strlit("subject");
    let line = "Subject: "@ + s;
    text_laws::lemma_first_at(line, ':', 7);
    let k = line.take(7);
    assert(text_laws::bare(k, Strip::Whitespace));
    text_laws::law_bare_stays(k, Strip::Whitespace);
    assert(text::ascii_lower(k) == "subject"@);
    assert(line.skip(8) == seq![' '] + s);
    text_laws::law_strip_ignores_wrapping(' ', s, ' ', Strip::Whitespace);
    text_laws::law_bare_stays(s, Strip::Whitespace);
}

/// What was written as a message with a subject and a body is read back as that
/// subject and that body. White space around either, line breaks in the
/// subject and `\r\n` in the body are not kept, so they are left out.
pub proof fn law_message_round_trip(s: Seq<char>, t: Seq<char>)
    requires
        text_laws::bare(s, Strip::Whitespace),
        text_laws::lacks(s, '\n'),
        text_laws::bare(t, Strip::Whitespace),
        text_laws::lacks_crlf(t),
    ensures
        message::subject_of("Subject: "@ + s + "\n\n"@ + t) == s,
        message::body_of("Subject: "@ + s + "\n\n"@ + t) == t,
{
    reveal_strlit("Subject: ");
    reveal_strlit("\n\n");
    let line = "Subject: "@ + s;
    let raw = line + "\n\n"@ + t;
    let none = Seq::<Seq<char>>::empty();
    let blank = Seq::<char>::empty();
    let rest = seq!['\n'] + t;
    law_plain_subject_line(s);
    assert(raw == line + seq!['\n'] + rest);
    text_laws::lemma_first_line(line, rest);
    assert(text::without_cr(line) == line) by {
        if s.len() > 0 {
            assert(line.last() == s.last());
        }
    }
    assert(rest == blank + seq!['\n'] + t);
    text_laws::lemma_first_line(blank, t);
    let body = text::lines(t);
    assert(text::lines(raw) == none + seq![line] + none + seq![blank] + body);
    assert(message::headers_of(none) == Seq::<HeaderView>::empty());
    assert(none.take(0) == none);
    assert(continued(s, none) == s);
    law_subject_is_found(none, line, s, none, blank, body);
    text_laws::law_join_undoes_lines(t);
    text_laws::law_bare_stays(t, Strip::Whitespace);
}

/// It makes no difference to a message whether its lines end in `\r\n` or in
/// `\n`, whatever follows them: the last line may go without a line end. A line
/// that itself ends in `\r` would lose it in the second form.
pub proof fn law_line_ends_do_not_matter(lines: Seq<Seq<char>>, last: Seq<char>)
    requires
        text_laws::are_lines(lines),
    ensures
        message::subject_of(text::terminated(lines, seq!['\r', '\n']) + last)
            == message::subject_of(text::terminated(lines, seq!['\n']) + last),
        message::body_of(text::terminated(lines, seq!['\r', '\n']) + last) == message::body_of(
            text::terminated(lines, seq!['\n']) + last,
        ),
{
    text_laws::law_lines_distribute(lines, last);
}

/// There is no white space around a body.
pub proof fn law_body_is_trimmed(raw: Seq<char>)
    ensures
        text_laws::bare(message::body_of(raw), Strip::Whitespace),
{
    text_laws::law_stripped_is_bare(
        text::join(message::body_lines(text::lines(raw)), seq!['\n']),
        Strip::Whitespace,
    );
}

/// A line is blank where it holds nothing but white space.
pub proof fn law_blank_lines(line: Seq<char>)
    ensures
        message::is_blank(line) <==> forall|i: int|
            0 <= i < line.len() ==> text::is_white(#[trigger] line[i]),
{
    let none = Seq::<char>::empty();
    if forall|i: int| 0 <= i < line.len() ==> text::is_white(#[trigger] line[i]) {
        assert(line == line + none + none);
        text_laws::law_strip_takes_the_ends(line, none, none, Strip::Whitespace);
    } else {
        let i = choose|i: int| 0 <= i < line.len() && !text::is_white(#[trigger] line[i]);
        lemma_not_blank(line, i);
    }
}

/// The header block reaches to the first blank line. Behind that stands the
/// body; the subject comes from before it.
pub proof fn law_first_blank_line_parts(
    block: Seq<Seq<char>>,
    blank: Seq<char>,
    body: Seq<Seq<char>>,
)
    requires
        none_blank(block),
        message::is_blank(blank),
    ensures
        message::body_lines(block + seq![blank] + body) == body,
        message::body_lines(block) == Seq::<Seq<char>>::empty(),
        message::subject_of_lines(block + seq![blank] + body) == message::subject_of_lines(block),
{
    let none = Seq::<Seq<char>>::empty();
    let all = block + seq![blank] + body;
    assert(all == block + (seq![blank] + body));
    lemma_block_len(block, seq![blank] + body);
    assert(all.take(block.len() as int) == block);
    assert(all.skip(block.len() as int + 1) == body);
    assert(block + none == block);
    lemma_block_len(block, none);
    assert(block.take(block.len() as int) == block);
}

/// What a lookup finds: the value of the header that has the name while none
/// before it has; nothing where no header has it.
pub proof fn law_lookup_is_by_name(headers: Seq<HeaderView>, name: Seq<char>, v: Seq<char>)
    ensures
        message::first_value(headers, name) == Some(v) <==> exists|i: int|
            0 <= i < headers.len() && (#[trigger] headers[i]).name == name && headers[i].value == v
                && forall|j: int| 0 <= j < i ==> (#[trigger] headers[j]).name != name,
        message::first_value(headers, name) is None <==> forall|i: int|
            0 <= i < headers.len() ==> (#[trigger] headers[i]).name != name,
    decreases headers.len(),
{
    if headers.len() > 0 {
        let rest = headers.drop_first();
        law_lookup_is_by_name(rest, name, v);
        if headers[0].name == name {
            if headers[0].value == v {
                assert(forall|j: int| 0 <= j < 0 ==> (#[trigger] headers[j]).name != name);
            }
        } else {
            if message::first_value(rest, name) == Some(v) {
                let i = choose|i: int|
                    0 <= i < rest.len() && (#[trigger] rest[i]).name == name && rest[i].value == v
                        && forall|j: int| 0 <= j < i ==> (#[trigger] rest[j]).name != name;
                assert(headers[i + 1] == rest[i]);
                assert forall|j: int| 0 <= j < i + 1 implies (#[trigger] headers[j]).name
                    != name by {
                    if j > 0 {
                        assert(headers[j] == rest[j - 1]);
                    }
                }
            }
            if exists|i: int|
                0 <= i < headers.len() && (#[trigger] headers[i]).name == name && headers[i].value
                    == v && forall|j: int| 0 <= j < i ==> (#[trigger] headers[j]).name != name {
                let i = choose|i: int|
                    0 <= i < headers.len() && (#[trigger] headers[i]).name == name
                        && headers[i].value == v && forall|j: int|
                        0 <= j < i ==> (#[trigger] headers[j]).name != name;
                assert(rest[i - 1] == headers[i]);
                assert forall|j: int| 0 <= j < i - 1 implies (#[trigger] rest[j]).name != name by {
                    assert(rest[j] == headers[j + 1]);
                }
            }
            if message::first_value(headers, name) is None {
                assert forall|i: int| 0 <= i < headers.len() implies (#[trigger] headers[i]).name
                    != name by {
                    if i > 0 {
                        assert(headers[i] == rest[i - 1]);
                    }
                }
            } else {
                let i = choose|i: int| 0 <= i < rest.len() && (#[trigger] rest[i]).name == name;
                assert(headers[i + 1] == rest[i]);
            }
        }
    }
}

/// The subject of a header block is the value of its first header that is
/// named `subject`, and empty where there is none.
pub proof fn law_subject_is_by_name(block: Seq<Seq<char>>, i: int)
    requires
        none_blank(block),
    ensures
        0 <= i < message::headers_of(block).len() && message::headers_of(block)[i].name
            == "subject"@ && (forall|j: int|
            0 <= j < i ==> (#[trigger] message::headers_of(block)[j]).name != "subject"@)
            ==> message::subject_of_lines(block) == message::headers_of(block)[i].value,
        (forall|j: int|
            0 <= j < message::headers_of(block).len() ==> (#[trigger] message::headers_of(
                block,
            )[j]).name != "subject"@) ==> message::subject_of_lines(block) == Seq::<char>::empty(),
{
    let none = Seq::<Seq<char>>::empty();
    let h = message::headers_of(block);
    assert(block + none == block);
    lemma_block_len(block, none);
    assert(block.take(block.len() as int) == block);
    if 0 <= i < h.len() {
        law_lookup_is_by_name(h, "subject"@, h[i].value);
    } else {
        law_lookup_is_by_name(h, "subject"@, Seq::empty());
    }
}

/// A line `name: value` that is not indented, or that no header precedes, is a
/// header: its name is what stands before the first colon, trimmed and in lower
/// case, its value what stands behind that colon, trimmed.
pub proof fn law_header_line_is_added(block: Seq<Seq<char>>, k: Seq<char>, v: Seq<char>)
    requires
        text_laws::lacks(k, ':'),
        (k.len() > 0 && (k[0] == ' ' || k[0] == '\t')) ==> message::headers_of(block).len() == 0,
    ensures
        message::headers_of(block.push(k + seq![':'] + v)) == message::headers_of(block).push(
            HeaderView { name: text::ascii_lower(text::trim(k)), value: text::trim(v) },
        ),
        message::headers_of(Seq::empty()) == Seq::<HeaderView>::empty(),
{
    let line = k + seq![':'] + v;
    text_laws::law_split_at_first(k, ':', v);
    assert(block.push(line).drop_last() == block);
    if k.len() > 0 {
        assert(line[0] == k[0]);
    } else {
        assert(line[0] == ':');
    }
}

/// A line that starts with a space or a tab continues the header before it: it
/// is appended to its value, trimmed, behind a space.
pub proof fn law_indented_line_continues(block: Seq<Seq<char>>, c: char, rest: Seq<char>)
    requires
        c == ' ' || c == '\t',
        message::headers_of(block).len() > 0,
    ensures
        ({
            let before = message::headers_of(block);
            let after = message::headers_of(block.push(seq![c] + rest));
            &&& after.len() == before.len()
            &&& after.drop_last() == before.drop_last()
            &&& after.last().name == before.last().name
            &&& after.last().value == before.last().value + seq![' '] + text::trim(rest)
        }),
{
    let line = seq![c] + rest;
    let before = message::headers_of(block);
    assert(block.push(line).drop_last() == block);
    text_laws::law_strip_ignores_wrapping(c, rest, c, Strip::Whitespace);
    let after = message::headers_of(block.push(line));
    assert(after == message::with_line(before, line));
    assert(after.drop_last() == before.drop_last());
    assert(before.last().value.push(' ') + text::trim(rest) == before.last().value + seq![' ']
        + text::trim(rest));
}

/// Any other line leaves the headers as they are.
pub proof fn law_other_lines_are_passed_over(block: Seq<Seq<char>>, line: Seq<char>)
    requires
        text_laws::lacks(line, ':'),
        line.len() == 0 || (line[0] != ' ' && line[0] != '\t') || message::headers_of(block).len()
            == 0,
    ensures
        message::headers_of(block.push(line)) == message::headers_of(block),
{
    text_laws::law_split_at_first(line, ':', Seq::empty());
    assert(block.push(line).drop_last() == block);
}

/// Whether no line has, before its first colon, the name `subject`, in whatever
/// case and with white space around it or not.
pub open spec fn none_names_subject(lines: Seq<Seq<char>>) -> bool {
    forall|i: int, k: Seq<char>, v: Seq<char>|
        0 <= i < lines.len() && #[trigger] lines[i] == #[trigger] (k + seq![':'] + v) && text_laws::lacks(
            k,
            ':',
        ) ==> text::ascii_lower(text::trim(k)) != "subject"@
}

proof fn lemma_none_names_subject(lines: Seq<Seq<char>>)
    requires
        none_names_subject(lines),
    ensures
        forall|j: int|
            0 <= j < message::headers_of(lines).len() ==> (#[trigger] message::headers_of(
                lines,
            )[j]).name != "subject"@,
    decreases lines.len(),
{
    if lines.len() > 0 {
        let init = lines.drop_last();
        let line = lines.last();
        assert(none_names_subject(init)) by {
            assert forall|i: int, k: Seq<char>, v: Seq<char>|
                0 <= i < init.len() && #[trigger] init[i] == #[trigger] (k + seq![':'] + v)
                    && text_laws::lacks(k, ':') implies text::ascii_lower(text::trim(k))
                != "subject"@ by {
                assert(lines[i] == init[i]);
            }
        }
        lemma_none_names_subject(init);
        let before = message::headers_of(init);
        let after = message::headers_of(lines);
        assert(after == message::with_line(before, line));
        text_laws::lemma_first_at_is_first(line, ':');
        let at = text::first_at(line, ':') as int;
        if at < line.len() {
            let k = line.take(at);
            let v = line.skip(at + 1);
            assert(line == k + seq![':'] + v);
            assert(lines[lines.len() - 1] == k + seq![':'] + v);
            assert(text::ascii_lower(text::trim(k)) != "subject"@);
        }
        assert forall|j: int| 0 <= j < after.len() implies (#[trigger] after[j]).name
            != "subject"@ by {
            if j < before.len() {
                assert(before[j].name != "subject"@);
            }
        }
    }
}

/// Only a header named `Subject` gives the subject: where no line of the header
/// block has that name, the subject is empty.
pub proof fn law_no_other_header_is_the_subject(
    block: Seq<Seq<char>>,
    blank: Seq<char>,
    body: Seq<Seq<char>>,
)
    requires
        none_blank(block),
        none_names_subject(block),
        message::is_blank(blank),
    ensures
        message::subject_of_lines(block) == Seq::<char>::empty(),
        message::subject_of_lines(block + seq![blank] + body) == Seq::<char>::empty(),
{
    lemma_none_names_subject(block);
    law_subject_is_by_name(block, -1);
    law_first_blank_line_parts(block, blank, body);
}

/// The subject is what follows the colon of the first line named `subject`, in
/// whatever case, whichever other headers stand before it, where it ends the
/// message or the next line is a header or blank.
pub proof fn law_subject_among_other_headers(
    pre: Seq<Seq<char>>,
    k: Seq<char>,
    v: Seq<char>,
    next: Seq<char>,
    rest: Seq<Seq<char>>,
)
    requires
        none_blank(pre),
        none_names_subject(pre),
        text_laws::lacks(k, ':'),
        k.len() > 0 ==> k[0] != ' ' && k[0] != '\t',
        text::ascii_lower(text::trim(k)) == "subject"@,
        message::is_blank(next) || (next.len() > 0 && next[0] != ' ' && next[0] != '\t'
            && next.contains(':')),
    ensures
        message::subject_of_lines(pre + seq![k + seq![':'] + v]) == text::trim(v),
        message::subject_of_lines(pre + seq![k + seq![':'] + v] + (seq![next] + rest))
            == text::trim(v),
{
    let name = "subject"@;
    let none = Seq::<Seq<char>>::empty();
    let line = k + seq![':'] + v;
    let s = text::trim(v);
    lemma_none_names_subject(pre);
    law_lookup_is_by_name(message::headers_of(pre), name, Seq::empty());
    text_laws::law_split_at_first(k, ':', v);
    if k.len() > 0 {
        assert(line[0] == k[0]);
    } else {
        assert(line[0] == ':');
    }
    assert(is_subject_line(line, s));
    let e = Seq::<char>::empty();
    law_blank_lines(e);
    law_subject_is_found(pre, line, s, none, e, none);
    assert(none.take(0) == none);
    assert(continued(s, none) == s);
    assert(pre + seq![line] + none == pre + seq![line]);
    let all = pre + seq![line] + (seq![next] + rest);
    if message::is_blank(next) {
        law_subject_is_found(pre, line, s, none, next, rest);
        assert(all == pre + seq![line] + none + seq![next] + rest);
    } else {
        let behind = seq![next] + rest;
        assert(is_header_line(next)) by {
            text_laws::lemma_first_at_is_first(next, ':');
            if text::first_at(next, ':') >= next.len() {
                assert(next.take(next.len() as int) == next);
                let i = choose|i: int| 0 <= i < next.len() && next[i] == ':';
                assert(next.take(next.len() as int)[i] != ':');
            }
        }
        let n = message::block_len(behind) as int;
        lemma_block_of(behind);
        let post = behind.take(n);
        assert(!message::is_blank(behind[0]));
        assert(post[0] == next);
        assert(to_header(post) == 0);
        assert(post.take(0) == none);
        if n < behind.len() {
            let blank = behind[n];
            let body = behind.skip(n + 1);
            law_subject_is_found(pre, line, s, post, blank, body);
            assert(all == pre + seq![line] + post + seq![blank] + body);
        } else {
            assert(behind == post);
            law_subject_is_found(pre, line, s, post, e, none);
            assert(all == pre + seq![line] + post);
        }
    }
}

proof fn lemma_block_of(lines: Seq<Seq<char>>)
    ensures
        message::block_len(lines) <= lines.len(),
        none_blank(lines.take(message::block_len(lines) as int)),
        message::block_len(lines) < lines.len() ==> message::is_blank(
            lines[message::block_len(lines) as int],
        ),
    decreases lines.len(),
{
    if lines.len() > 0 && !message::is_blank(lines[0]) {
        let rest = lines.drop_first();
        lemma_block_of(rest);
        let n = message::block_len(lines) as int;
        assert forall|i: int| 0 <= i < n implies !message::is_blank(
            #[trigger] lines.take(n)[i],
        ) by {
            if i > 0 {
                assert(lines.take(n)[i] == rest.take(n - 1)[i - 1]);
            }
        }
    }
}

/// The lines of a text with `\n` behind it, joined, are that text.
proof fn lemma_join_undoes_ended_lines(t: Seq<char>)
    requires
        text_laws::lacks_crlf(t),
        t.len() > 0 ==> t.last() != '\r',
    ensures
        text::join(text::lines(t + seq!['\n']), seq!['\n']) == t,
        text::lines(t + seq!['\n']).len() > 0,
    decreases t.len(),
{
    let nl = seq!['\n'];
    let none = Seq::<char>::empty();
    text_laws::lemma_first_at_is_first(t, '\n');
    let at = text::first_at(t, '\n') as int;
    if at < t.len() {
        let line = t.take(at);
        let rest = t.skip(at + 1);
        if at > 0 {
            assert(t[at] == '\n');
            assert(line.last() == t[at - 1]);
        }
        assert forall|i: int| 0 < i < rest.len() && #[trigger] rest[i] == '\n' implies rest[i - 1]
            != '\r' by {
            assert(t[i + at + 1] == '\n');
        }
        if rest.len() > 0 {
            assert(rest.last() == t.last());
        }
        lemma_join_undoes_ended_lines(rest);
        assert(t + nl == line + nl + (rest + nl));
        text_laws::law_line_by_line(line, rest + nl);
        let more = text::lines(rest + nl);
        text_laws::law_join_of_parts(seq![line], more, line, nl);
        assert(line + nl + rest == t);
    } else {
        assert(t.take(at) == t);
        assert(t + nl == t + nl + none);
        text_laws::law_line_by_line(t, none);
        text_laws::law_line_by_line(none, none);
        assert(seq![t] + text::lines(none) == seq![t]);
        text_laws::law_join_of_parts(seq![t], seq![t], t, nl);
    }
}

/// The body is the text behind the first blank line, whatever it says, trimmed
/// as a whole, and the subject comes from the lines before it.
pub proof fn law_body_is_the_text_behind(
    block: Seq<Seq<char>>,
    blank: Seq<char>,
    t: Seq<char>,
)
    requires
        text_laws::are_lines(block),
        none_blank(block),
        text_laws::are_lines(seq![blank]),
        message::is_blank(blank),
        text_laws::lacks_crlf(t),
    ensures
        message::body_of(text::terminated(block, seq!['\n']) + (blank + seq!['\n'] + t))
            == text::trim(t),
        message::subject_of(text::terminated(block, seq!['\n']) + (blank + seq!['\n'] + t))
            == message::subject_of_lines(block),
{
    let body = text::lines(t);
    text_laws::law_lines_distribute(block, blank + seq!['\n'] + t);
    assert(seq![blank][0] == blank);
    text_laws::lemma_first_line(blank, t);
    assert(block + (seq![blank] + body) == block + seq![blank] + body);
    law_first_blank_line_parts(block, blank, body);
    lemma_trimmed_body(t);
}

/// Where no line is blank, all of the message is its header block, and there is
/// no body. The last line may go without a line end.
pub proof fn law_no_blank_line_no_body(block: Seq<Seq<char>>, last: Seq<char>)
    requires
        text_laws::are_lines(block),
        none_blank(block),
        text_laws::lacks(last, '\n'),
        !message::is_blank(last),
    ensures
        message::body_of(text::terminated(block, seq!['\n'])) == Seq::<char>::empty(),
        message::subject_of(text::terminated(block, seq!['\n'])) == message::subject_of_lines(
            block,
        ),
        message::body_of(text::terminated(block, seq!['\n']) + last) == Seq::<char>::empty(),
        message::subject_of(text::terminated(block, seq!['\n']) + last)
            == message::subject_of_lines(block.push(last)),
{
    let none = Seq::<char>::empty();
    let whole = block.push(last);
    let raw = text::terminated(block, seq!['\n']);
    text_laws::law_lines_read_back(block, none);
    assert(raw + none == raw);
    text_laws::law_lines_read_back(block, last);
    law_blank_lines(last);
    assert forall|i: int| 0 <= i < whole.len() implies !message::is_blank(#[trigger] whole[i]) by {
        if i < block.len() {
            assert(whole[i] == block[i]);
        }
    }
    law_blank_lines(none);
    law_first_blank_line_parts(block, none, Seq::empty());
    law_first_blank_line_parts(whole, none, Seq::empty());
    text_laws::law_join_of_parts(seq![last], seq![last], last, seq!['\n']);
    assert(none == none + none + none);
    text_laws::law_strip_takes_the_ends(none, none, none, Strip::Whitespace);
}

proof fn lemma_trimmed_body(t: Seq<char>)
    requires
        text_laws::lacks_crlf(t),
    ensures
        text::trim(text::join(text::lines(t), seq!['\n'])) == text::trim(t),
{
    let nl = seq!['\n'];
    if t.len() > 0 && t.last() == '\n' {
        let init = t.drop_last();
        assert(t == init + nl);
        assert forall|i: int| 0 < i < init.len() && #[trigger] init[i] == '\n' implies init[i - 1]
            != '\r' by {
            assert(t[i] == '\n');
        }
        if init.len() > 0 {
            assert(t[t.len() - 1] == '\n');
            assert(init.last() == t[t.len() - 2]);
        }
        lemma_join_undoes_ended_lines(init);
        text_laws::lemma_trim_drops_end(init, nl);
    } else {
        text_laws::law_join_undoes_lines(t);
    }
}

/// A message is read line by line; the lines of its body are joined again and
/// trimmed as a whole.
pub proof fn law_message_is_its_lines(raw: Seq<char>)
    ensures
        message::subject_of(raw) == message::subject_of_lines(text::lines(raw)),
        message::body_of(raw) == text::trim(
            text::join(message::body_lines(text::lines(raw)), seq!['\n']),
        ),
{
}

} // verus!
