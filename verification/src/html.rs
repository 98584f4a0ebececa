//! The HTML fragments of the web page. Text that came with a message is
//! escaped wherever it stands in one.

use vstd::prelude::*;

use crate::inbox;
use crate::inbox::{Email, EmailView, Inbox};
use crate::outside;
use crate::outside::{format_utc, id_text};
use crate::search;
use crate::search::{filtered, RowsQuery};
use crate::text;
use crate::text::{decimal_text, join_strings};

verus! {

/// The format in which the page shows a time: day, month, time of day.
pub const ROW_TIME_FORMAT: &'static str = "%d %b %H:%M:%S";

/// What stands for a character in escaped text.
pub open spec fn escaped_char(c: char) -> Seq<char> {
    if c == '&' {
        "&amp;"@
    } else if c == '<' {
        "&lt;"@
    } else if c == '>' {
        "&gt;"@
    } else if c == '"' {
        "&quot;"@
    } else {
        seq![c]
    }
}

/// `s` with `&`, `<`, `>` and `"` replaced by their HTML entities.
pub open spec fn escaped(s: Seq<char>) -> Seq<char>
    decreases s.len(),
{
    if s.len() == 0 {
        Seq::empty()
    } else {
        escaped(s.drop_last()) + escaped_char(s.last())
    }
}

/// HTML-escapes user-controlled text.
pub fn esc(s: &str) -> (r: String)
    ensures
        r@ == escaped(s@),
{
    let mut r = String::new();
    for c in iter: s.chars()
        invariant
            iter.seq() == s@,
            r@ == escaped(s@.take(iter.index() as int)),
    {
        let ghost done = s@.take(iter.index() as int);
        let ghost before = r@;
        if c == '&' {
            r.append("&amp;");
        } else if c == '<' {
            r.append("&lt;");
        } else if c == '>' {
            r.append("&gt;");
        } else if c == '"' {
            r.append("&quot;");
        } else {
            r.push(c);
        }
        assert(r@ == before + escaped_char(c));
        assert(s@.take(iter.index() + 1).drop_last() == done);
    }
    assert(s@.take(s@.len() as int) == s@);
    r
}

/// The subject as the page shows it.
pub open spec fn shown_subject(subject: Seq<char>) -> Seq<char> {
    if subject.len() == 0 {
        "(no subject)"@
    } else {
        subject
    }
}

/// The subject as the page shows it.
pub fn short_subject(subject: &str) -> (s: String)
    ensures
        s@ == shown_subject(subject@),
{
    if subject.is_empty() {
        "(no subject)".to_string()
    } else {
        subject.to_string()
    }
}

/// The table rows of one message, with its time and its identifier as text.
pub open spec fn row(m: EmailView, at: Seq<char>, id: Seq<char>) -> Seq<char> {
    "<tr><td>"@ + escaped(text::join(m.to, ", "@)) + "</td><td>"@ + escaped(
        shown_subject(m.subject),
    ) + "</td><td class=\"at\">"@ + at
        + "</td></tr><tr class=\"detail\"><td colspan=\"3\"><details><summary>from: "@ + escaped(
        m.from,
    ) + "</summary><div class=\"full\">"@ + escaped(m.body) + "</div><div class=\"meta\">id: "@ + id
        + "</div></details></td></tr>"@
}

/// The time of a message as the page shows it.
pub open spec fn shown_time(m: EmailView) -> Seq<char> {
    outside::utc_text(m.received_at.0, m.received_at.1, ROW_TIME_FORMAT@)
}

/// Whether the time of each message is shown as a day, a month and its time of
/// day.
pub open spec fn times_are_shown(items: Seq<EmailView>) -> bool {
    forall|i: int|
        0 <= i < items.len() ==> outside::is_row_time(
            shown_time(#[trigger] items[i]),
            items[i].received_at.0,
            items[i].received_at.1,
        )
}

/// The table rows of one message.
pub open spec fn row_of(m: EmailView) -> Seq<char> {
    row(m, shown_time(m), outside::hyphenated(m.id))
}

/// The table rows of some messages, one after the other.
pub open spec fn rows_of(items: Seq<EmailView>) -> Seq<char>
    decreases items.len(),
{
    if items.len() == 0 {
        Seq::empty()
    } else {
        rows_of(items.drop_last()) + row_of(items.last())
    }
}

/// The row that says that there is nothing to show.
pub open spec fn empty_row() -> Seq<char> {
    "<tr><td colspan=\"3\" class=\"empty\">No mail yet — point an SMTP client at :1025 and it lands here.</td></tr>"@
}

/// The body of the table.
pub open spec fn table_of(items: Seq<EmailView>) -> Seq<char> {
    if items.len() == 0 {
        empty_row()
    } else {
        rows_of(items)
    }
}

/// The table rows of one message, with its time and its identifier as text.
pub fn row_html(m: &Email, at: &str, id: &str) -> (s: String)
    ensures
        s@ == row(m@, at@, id@),
{
    let mut s = String::new();
    s.append("<tr><td>");
    s.append(esc(join_strings(&m.to, ", ").as_str()).as_str());
    s.append("</td><td>");
    s.append(esc(short_subject(m.subject.as_str()).as_str()).as_str());
    s.append("</td><td class=\"at\">");
    s.append(at);
    s.append("</td></tr><tr class=\"detail\"><td colspan=\"3\"><details><summary>from: ");
    s.append(esc(m.from.as_str()).as_str());
    s.append("</summary><div class=\"full\">");
    s.append(esc(m.body.as_str()).as_str());
    s.append("</div><div class=\"meta\">id: ");
    s.append(id);
    s.append("</div></details></td></tr>");
    assert(s@ == row(m@, at@, id@));
    s
}

/// The body of the table for these messages.
pub fn rows_html(items: &[Email]) -> (s: String)
    ensures
        s@ == table_of(inbox::emails(items@)),
        times_are_shown(inbox::emails(items@)),
{
    if items.len() == 0 {
        return
            "<tr><td colspan=\"3\" class=\"empty\">No mail yet — point an SMTP client at :1025 and it lands here.</td></tr>".to_string();
    }
    let ghost all = inbox::emails(items@);
    let mut s = String::new();
    for i in 0..items.len()
        invariant
            all == inbox::emails(items@),
            s@ == rows_of(all.take(i as int)),
            times_are_shown(all.take(i as int)),
    {
        let m = &items[i];
        let nanos = m.received_at.nanos();
        let at = format_utc(m.received_at.secs(), nanos, ROW_TIME_FORMAT);
        let id = id_text(m.id);
        s.append(row_html(m, at.as_str(), id.as_str()).as_str());
        let ghost done = all.take(i + 1);
        assert(done.drop_last() == all.take(i as int));
        assert(done.last() == m@);
        assert forall|k: int| 0 <= k < done.len() implies outside::is_row_time(
            shown_time(#[trigger] done[k]),
            done[k].received_at.0,
            done[k].received_at.1,
        ) by {
            if k < i {
                assert(done[k] == all.take(i as int)[k]);
            }
        }
    }
    assert(all.take(all.len() as int) == all);
    s
}

/// How many messages there are, for the head of the page.
pub open spec fn stats_of(n: nat) -> Seq<char> {
    "<strong>"@ + text::decimal(n) + "</strong> "@ + (if n == 1 {
        "message"@
    } else {
        "messages"@
    })
}

/// How many messages there are, for the head of the page.
pub fn stats_html(inbox: &Inbox) -> (s: String)
    ensures
        s@ == stats_of(inbox@.len()),
{
    let n = inbox.len();
    let plural = if n == 1 {
        "message"
    } else {
        "messages"
    };
    let mut s = String::new();
    s.append("<strong>");
    s.append(decimal_text(n).as_str());
    s.append("</strong> ");
    s.append(plural);
    assert(s@ == stats_of(inbox@.len()));
    s
}

/// The body of the table for a search.
pub fn rows(inbox: &Inbox, query: &RowsQuery) -> (s: String)
    ensures
        s@ == table_of(search::found(inbox@, search::needle_of(query@))),
        times_are_shown(search::found(inbox@, search::needle_of(query@))),
        vstd::utf8::is_ascii_chars(search::asked(query@)) ==> s@ == table_of(
            search::found(inbox@, text::ascii_lower(search::asked(query@))),
        ),
        search::all_ascii(inbox@, search::asked(query@)) ==> s@ == table_of(
            search::ascii_found(inbox@, search::asked(query@)),
        ),
{
    rows_html(filtered(inbox, query).as_slice())
}

/// Empties the inbox; the body of the table after that.
pub fn clear(inbox: &mut Inbox) -> (s: String)
    ensures
        final(inbox).wf(),
        final(inbox)@ == Seq::<EmailView>::empty(),
        s@ == table_of(final(inbox)@),
{
    inbox.clear();
    let none: Vec<Email> = Vec::new();
    rows_html(none.as_slice())
}

} // verus!
