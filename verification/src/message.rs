//! The message parser: what comes after `DATA` is split into the subject and
//! the body.

use vstd::prelude::*;
use vstd::slice::slice_subrange;

use crate::text;
use crate::text::{
    chars_of, find_char, join_lines, lower_string, same_text, split_lines, string_of, strip_chars,
    Strip,
};

verus! {

/// A header: its name in lower case and its value, both trimmed.
#[verifier::ext_equal]
pub struct HeaderView {
    pub name: Seq<char>,
    pub value: Seq<char>,
}

/// Whether a line ends the header block.
pub open spec fn is_blank(line: Seq<char>) -> bool {
    text::trim(line).len() == 0
}

/// Whether a line starts with a space or a tab.
pub open spec fn is_indented(line: Seq<char>) -> bool {
    line.len() > 0 && (line[0] == ' ' || line[0] == '\t')
}

/// How many lines stand before the first blank one.
pub open spec fn block_len(lines: Seq<Seq<char>>) -> nat
    decreases lines.len(),
{
    if lines.len() == 0 || is_blank(lines[0]) {
        0
    } else {
        1 + block_len(lines.drop_first())
    }
}

/// `headers` after one more line of the header block. An indented line is
/// appended to the header before it; `name: value` is a new header; other
/// lines are passed over.
pub open spec fn with_line(headers: Seq<HeaderView>, line: Seq<char>) -> Seq<HeaderView> {
    if is_indented(line) && headers.len() > 0 {
        let last = headers.last();
        let value = last.value.push(' ') + text::trim(line);
        headers.drop_last().push(HeaderView { name: last.name, value })
    } else {
        match text::split_once(line, ':') {
            Some((k, v)) => headers.push(
                HeaderView {
                    name: text::ascii_lower(text::trim(k)),
                    value: text::trim(v),
                },
            ),
            None => headers,
        }
    }
}

/// The headers of a header block, in order.
pub open spec fn headers_of(block: Seq<Seq<char>>) -> Seq<HeaderView>
    decreases block.len(),
{
    if block.len() == 0 {
        Seq::empty()
    } else {
        with_line(headers_of(block.drop_last()), block.last())
    }
}

/// The value of the first header with that name.
pub open spec fn first_value(headers: Seq<HeaderView>, name: Seq<char>) -> Option<Seq<char>>
    decreases headers.len(),
{
    if headers.len() == 0 {
        None
    } else if headers[0].name == name {
        Some(headers[0].value)
    } else {
        first_value(headers.drop_first(), name)
    }
}

/// The subject of a message that consists of these lines: the value of its
/// first `Subject` header, or nothing.
pub open spec fn subject_of_lines(lines: Seq<Seq<char>>) -> Seq<char> {
    match first_value(headers_of(lines.take(block_len(lines) as int)), "subject"@) {
        Some(v) => v,
        None => Seq::empty(),
    }
}

/// The lines that follow the blank line behind the header block.
pub open spec fn body_lines(lines: Seq<Seq<char>>) -> Seq<Seq<char>> {
    if block_len(lines) < lines.len() {
        lines.skip(block_len(lines) as int + 1)
    } else {
        Seq::empty()
    }
}

/// The subject of a message.
pub open spec fn subject_of(raw: Seq<char>) -> Seq<char> {
    subject_of_lines(text::lines(raw))
}

/// The body of a message: its lines behind the header block, trimmed as a whole.
pub open spec fn body_of(raw: Seq<char>) -> Seq<char> {
    text::trim(text::join(body_lines(text::lines(raw)), seq!['\n']))
}

struct Header {
    name: String,
    value: String,
}

spec fn header_views(v: Seq<Header>) -> Seq<HeaderView> {
    Seq::new(v.len(), |i: int| HeaderView { name: v[i].name@, value: v[i].value@ })
}

/// Adds one line of the header block to the headers.
fn add_line(headers: &mut Vec<Header>, line: &[char])
    ensures
        header_views(final(headers)@) == with_line(header_views(old(headers)@), line@),
{
    let ghost before = header_views(headers@);
    if line.len() > 0 && (line[0] == ' ' || line[0] == '\t') && headers.len() > 0 {
        let mut last = headers.pop().unwrap();
        last.value.push(' ');
        last.value.append(string_of(strip_chars(line, Strip::Whitespace)).as_str());
        headers.push(last);
        assert(header_views(headers@) == with_line(before, line@));
    } else {
        let at = find_char(line, ':');
        if at < line.len() {
            let name = slice_subrange(line, 0, at);
            let value = slice_subrange(line, at + 1, line.len());
            assert(name@ == line@.take(at as int));
            assert(value@ == line@.skip(at + 1));
            headers.push(
                Header {
                    name: lower_string(strip_chars(name, Strip::Whitespace)),
                    value: string_of(strip_chars(value, Strip::Whitespace)),
                },
            );
            assert(header_views(headers@) == with_line(before, line@));
        }
    }
}

/// The value of the first header named `name`, or an empty string.
fn take_first(headers: Vec<Header>, name: &str) -> (value: String)
    ensures
        value@ == (match first_value(header_views(headers@), name@) {
            Some(v) => v,
            None => Seq::empty(),
        }),
{
    let ghost all = header_views(headers@);
    assert(all.skip(0) == all);
    for i in 0..headers.len()
        invariant
            all == header_views(headers@),
            first_value(all, name@) == first_value(all.skip(i as int), name@),
    {
        let n = chars_of(headers[i].name.as_str());
        assert(all.skip(i as int)[0] == all[i as int]);
        if same_text(n.as_slice(), name) {
            return headers[i].value.clone();
        }
        assert(all.skip(i as int).drop_first() == all.skip(i + 1));
    }
    String::new()
}

/// Splits what came after `DATA` into the subject and the body.
///
/// The header block ends at the first blank line. Indented lines in it
/// continue the header before them. The first `Subject` wins, in whatever case
/// its name is written. The body is the text behind the header block, with
/// `\n` for the line ends and trimmed as a whole.
pub fn parse_message(raw: &str) -> (r: (String, String))
    ensures
        r.0@ == subject_of(raw@),
        r.1@ == body_of(raw@),
{
    let cs = chars_of(raw);
    let v = split_lines(cs.as_slice());
    let ghost all = text::lines(raw@);
    let mut headers: Vec<Header> = Vec::new();
    let mut i: usize = 0;
    assert(all.skip(0) == all);
    assert(header_views(headers@) == headers_of(all.take(0)));
    while i < v.len() && strip_chars(v[i], Strip::Whitespace).len() > 0
        invariant
            i <= v@.len(),
            text::slice_texts(v@) == all,
            block_len(all) == i + block_len(all.skip(i as int)),
            header_views(headers@) == headers_of(all.take(i as int)),
        decreases v@.len() - i,
    {
        assert(all[i as int] == v@[i as int]@);
        add_line(&mut headers, v[i]);
        assert(all.skip(i as int).drop_first() == all.skip(i + 1));
        assert(all.take(i + 1).drop_last() == all.take(i as int));
        i = i + 1;
    }
    assert(block_len(all) == i) by {
        if i < v@.len() {
            assert(all.skip(i as int)[0] == v@[i as int]@);
        }
    }
    let from = if i < v.len() {
        i + 1
    } else {
        i
    };
    let body = join_lines(&v, from);
    assert(body_lines(all) == all.skip(from as int));
    let text = chars_of(body.as_str());
    (take_first(headers, "subject"), string_of(strip_chars(text.as_slice(), Strip::Whitespace)))
}

} // verus!
