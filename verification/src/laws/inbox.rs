//! Laws of the inbox.

use vstd::prelude::*;

use crate::inbox;
use crate::inbox::{Email, EmailView, MAX_KEPT};
use crate::laws::message as message_laws;
use crate::laws::search as search_laws;
use crate::laws::smtp as smtp_laws;
use crate::laws::text as text_laws;
use crate::message;
use crate::outside;
use crate::search;
use crate::smtp::{ActionView, Reply, SessionView};
use crate::text;
use crate::text::Strip;

verus! {

/// The inbox `s` after the messages of a list have been stored one by one.
pub open spec fn stored(s: Seq<EmailView>, list: Seq<EmailView>) -> Seq<EmailView>
    decreases list.len(),
{
    if list.len() == 0 {
        s
    } else {
        inbox::kept(stored(s, list.drop_last()).push(list.last()))
    }
}

/// Newest wins, oldest evicted: the inbox holds the last messages of all that
/// ever came in, as many as it may hold, in the order in which they came.
pub proof fn law_newest_are_kept(s: Seq<EmailView>, list: Seq<EmailView>)
    requires
        s.len() <= MAX_KEPT,
    ensures
        stored(s, list) == inbox::kept(s + list),
    decreases list.len(),
{
    if list.len() == 0 {
        assert(s + list == s);
    } else {
        law_newest_are_kept(s, list.drop_last());
        let before = s + list.drop_last();
        assert(before.push(list.last()) == s + list);
        assert(inbox::kept(inbox::kept(before).push(list.last())) == inbox::kept(s + list));
    }
}

/// A stored message is the last of the inbox, and the bound is kept.
pub proof fn law_stored_is_last(s: Seq<EmailView>, m: EmailView)
    ensures
        inbox::kept(s.push(m)).len() > 0,
        inbox::kept(s.push(m)).len() <= MAX_KEPT,
        inbox::kept(s.push(m)).last() == m,
{
}

/// A stored message is listed, and where it is newer than all others it stands
/// on top.
pub proof fn law_stored_is_listed(s: Seq<EmailView>, m: EmailView)
    ensures
        ({
            let now = inbox::kept(s.push(m));
            let listed = search::found(now, search::needle_of(None));
            &&& listed.contains(m)
            &&& listed.len() == now.len()
            &&& (forall|i: int|
                0 <= i < s.len() ==> search::earlier((#[trigger] s[i]).received_at, m.received_at))
                ==> listed[0] == m
        }),
{
    let now = inbox::kept(s.push(m));
    let listed = search::found(now, search::needle_of(None));
    search_laws::law_no_query_shows_all(now);
    search_laws::law_order_is_permutation(now);
    search_laws::law_order_is_newest_first(now);
    law_stored_is_last(s, m);
    assert(now[now.len() - 1] == m);
    assert(now.contains(m));
    assert(search::newest_first(now).contains(m));
    if forall|i: int|
        0 <= i < s.len() ==> search::earlier((#[trigger] s[i]).received_at, m.received_at) {
        let at = choose|at: int| 0 <= at < listed.len() && listed[at] == m;
        if at > 0 {
            assert(listed.contains(listed[0]));
            assert(now.contains(listed[0]));
            let k = choose|k: int| 0 <= k < now.len() && now[k] == listed[0];
            let from = s.len() + 1 - now.len();
            assert(now[k] == s.push(m)[from + k]);
            assert(!search::earlier(listed[0].received_at, listed[at].received_at));
            if from + k < s.len() {
                assert(s[from + k] == listed[0]);
            }
        }
    }
}

proof fn lemma_lines_are_clean(t: Seq<char>)
    requires
        text_laws::lacks_crlf(t),
        t.len() > 0 ==> t.last() != '\r',
    ensures
        text_laws::are_lines(text::lines(t)),
    decreases t.len(),
{
    if t.len() > 0 {
        text_laws::lemma_first_at_is_first(t, '\n');
        let at = text::first_at(t, '\n') as int;
        if at < t.len() {
            let line = t.take(at);
            let rest = t.skip(at + 1);
            assert(text::without_cr(line) == line) by {
                if at > 0 {
                    assert(t[at] == '\n');
                    assert(line.last() == t[at - 1]);
                }
            }
            assert forall|i: int| 0 < i < rest.len() && #[trigger] rest[i] == '\n' implies rest[i
                - 1] != '\r' by {
                assert(t[i + at + 1] == '\n');
            }
            if rest.len() > 0 {
                assert(rest.last() == t.last());
            }
            lemma_lines_are_clean(rest);
            assert forall|i: int| 0 <= i < text::lines(t).len() implies text_laws::lacks(
                #[trigger] text::lines(t)[i],
                '\n',
            ) && text::without_cr(text::lines(t)[i]) == text::lines(t)[i] by {
                if i > 0 {
                    assert(text::lines(t)[i] == text::lines(rest)[i - 1]);
                } else {
                    assert(text::lines(t)[0] == line);
                }
            }
        } else {
            assert(t.take(at) == t);
            assert(text::lines(t) == seq![t]);
        }
    }
}

/// The lines of a message: other headers, the subject, other headers, a blank
/// line and the body.
pub open spec fn mail_lines(
    pre: Seq<Seq<char>>,
    subject: Seq<char>,
    post: Seq<Seq<char>>,
    body: Seq<char>,
) -> Seq<Seq<char>> {
    pre + seq!["Subject: "@ + subject] + post + seq![Seq::empty()] + text::lines(body)
}

/// Whether each line is one line and not blank.
pub open spec fn are_header_lines(lines: Seq<Seq<char>>) -> bool {
    &&& message_laws::none_blank(lines)
    &&& text_laws::are_lines(lines)
}

/// A mail that a client sends lands in the inbox: at its final dot it is
/// stored, and what is stored becomes the last message of the inbox, with the
/// sender, the recipients, the subject and the body that were sent.
///
/// White space around the subject or the body and `\r\n` within the body are
/// not kept, nor are brackets and white space around an address, so they are
/// left out; before the subject there is no other `Subject`, and no indented
/// line follows it before the next header.
pub proof fn law_sent_mail_lands(
    s: SessionView,
    inbox: Seq<EmailView>,
    from: Seq<char>,
    to: Seq<Seq<char>>,
    pre: Seq<Seq<char>>,
    subject: Seq<char>,
    post: Seq<Seq<char>>,
    body: Seq<char>,
    id: u128,
    at: (i64, u32),
)
    requires
        s.data is None,
        smtp_laws::is_plain(from),
        forall|i: int| 0 <= i < to.len() ==> smtp_laws::is_plain(#[trigger] to[i]),
        are_header_lines(pre),
        message::first_value(message::headers_of(pre), "subject"@) is None,
        text_laws::bare(subject, Strip::Whitespace),
        text_laws::lacks(subject, '\n'),
        are_header_lines(post),
        forall|i: int|
            0 <= i < message_laws::to_header(post) ==> !message::is_indented(#[trigger] post[i]),
        text_laws::bare(body, Strip::Whitespace),
        text_laws::lacks_crlf(body),
    ensures
        ({
            let sent = smtp_laws::sending(from, to, mail_lines(pre, subject, post, body));
            let raw = text::terminated(mail_lines(pre, subject, post, body), seq!['\n']);
            let now = inbox::kept(inbox.push(inbox::received(from, to, raw, id, at)));
            &&& s.actions(sent).last() == ActionView::Store { from, to, raw, reply: Reply::Queued }
            &&& now.last() == EmailView { id, from, to, subject, body, received_at: at }
        }),
{
    let lines = mail_lines(pre, subject, post, body);
    let raw = text::terminated(lines, seq!['\n']);
    let line = "Subject: "@ + subject;
    let blank = Seq::<char>::empty();
    smtp_laws::law_sent_message_is_stored(s, from, to, lines);

    reveal_strlit("Subject: ");
    assert(text_laws::lacks(line, '\n'));
    assert(text::without_cr(line) == line) by {
        if subject.len() > 0 {
            assert(line.last() == subject.last());
        }
    }
    lemma_lines_are_clean(body);
    assert forall|i: int| 0 <= i < lines.len() implies text_laws::lacks(#[trigger] lines[i], '\n')
        && text::without_cr(lines[i]) == lines[i] by {
        let p = pre.len() as int;
        let q = post.len() as int;
        if i < p {
            assert(lines[i] == pre[i]);
        } else if i == p {
            assert(lines[i] == line);
        } else if i < p + 1 + q {
            assert(lines[i] == post[i - p - 1]);
        } else if i == p + 1 + q {
            assert(lines[i] == blank);
        } else {
            assert(lines[i] == text::lines(body)[i - p - q - 2]);
        }
    }
    text_laws::law_lines_read_back(lines, Seq::empty());
    assert(raw + Seq::<char>::empty() == raw);
    message_laws::law_plain_subject_line(subject);
    message_laws::law_subject_is_found(pre, line, subject, post, blank, text::lines(body));
    let more = post.take(message_laws::to_header(post) as int);
    message_laws::lemma_to_header(post);
    assert forall|i: int| 0 <= i < more.len() implies !message::is_indented(#[trigger] more[i]) by {
        assert(more[i] == post[i]);
    }
    message_laws::law_only_indented_lines_continue(subject, more);
    text_laws::law_join_undoes_lines(body);
    text_laws::law_bare_stays(body, Strip::Whitespace);
    law_stored_is_last(inbox, inbox::received(from, to, raw, id, at));
}

/// The inbox holds a thousand messages: up to as many are all kept, and of more
/// the last thousand are.
pub proof fn law_a_thousand_are_kept(older: Seq<EmailView>, newer: Seq<EmailView>)
    ensures
        newer.len() <= 1000 ==> inbox::kept(newer) == newer,
        newer.len() == 1000 ==> inbox::kept(older + newer) == newer,
{
    let all = older + newer;
    if newer.len() == 1000 {
        assert(all.skip(older.len() as int) == newer);
        assert(older.len() == 0 ==> all == newer);
    }
}

/// A delivery becomes a message with the sender and the recipients of its
/// envelope, with the identifier and the time that it is given, and with the
/// subject and the body of its text.
pub proof fn law_delivery_becomes_message(
    from: Seq<char>,
    to: Seq<Seq<char>>,
    raw: Seq<char>,
    id: u128,
    at: (i64, u32),
)
    ensures
        ({
            let m = inbox::received(from, to, raw, id, at);
            &&& m.from == from
            &&& m.to == to
            &&& m.id == id
            &&& m.received_at == at
            &&& m.subject == message::subject_of(raw)
            &&& m.body == message::body_of(raw)
        }),
{
}

/// What a message and a list of messages hold is all that their fields hold.
pub proof fn law_views_hold_all(m: Email, v: Seq<Email>, r: Seq<&Email>)
    ensures
        m@.id == m.id,
        m@.from == m.from@,
        m@.to.len() == m.to@.len(),
        forall|i: int| 0 <= i < m.to@.len() ==> #[trigger] m@.to[i] == m.to@[i]@,
        m@.subject == m.subject@,
        m@.body == m.body@,
        m@.received_at == m.received_at@,
        inbox::emails(v).len() == v.len(),
        forall|i: int| 0 <= i < v.len() ==> #[trigger] inbox::emails(v)[i] == v[i]@,
        search::email_refs(r).len() == r.len(),
        forall|i: int| 0 <= i < r.len() ==> #[trigger] search::email_refs(r)[i] == r[i]@,
{
}

/// A point in time has a year from -262143 to 262142 and nanoseconds below a
/// billion, or below two where its second is the last of a minute.
pub proof fn law_range_of_times(secs: i64, nanos: u32)
    ensures
        outside::representable(secs, nanos) <==> {
            &&& -96_465_292 * 86_400 <= secs < 95_026_237 * 86_400
            &&& nanos < 1_000_000_000 || nanos < 2_000_000_000 && (secs + 1) % 60 == 0
        },
{
}

} // verus!
