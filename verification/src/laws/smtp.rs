//! Laws of the SMTP dialogue.

use vstd::prelude::*;

use crate::laws::text as text_laws;
use crate::smtp;
use crate::smtp::{Action, ActionView, Command, Reply, SessionView};
use crate::text;
use crate::text::Strip;

verus! {

/// Whether an address has neither white space nor angle brackets around it.
pub open spec fn is_plain(a: Seq<char>) -> bool {
    text_laws::bare(a, Strip::Whitespace) && text_laws::bare(a, Strip::AngleBrackets)
}

/// A line of a message as a client sends it: a leading dot is doubled.
pub open spec fn stuffed(line: Seq<char>) -> Seq<char> {
    if line.len() > 0 && line[0] == '.' {
        seq!['.'] + line
    } else {
        line
    }
}

/// The line that names the sender.
pub open spec fn mail_line(a: Seq<char>) -> Seq<char> {
    "MAIL FROM:<"@ + a + seq!['>']
}

/// The line that names a recipient.
pub open spec fn rcpt_line(a: Seq<char>) -> Seq<char> {
    "RCPT TO:<"@ + a + seq!['>']
}

/// The lines that name the recipients.
pub open spec fn rcpt_lines(to: Seq<Seq<char>>) -> Seq<Seq<char>> {
    Seq::new(to.len(), |i: int| rcpt_line(to[i]))
}

/// The lines of a message as a client sends them.
pub open spec fn stuffed_lines(lines: Seq<Seq<char>>) -> Seq<Seq<char>> {
    Seq::new(lines.len(), |i: int| stuffed(lines[i]))
}

/// All that a client says to send a message that consists of `lines`.
pub open spec fn sending(
    from: Seq<char>,
    to: Seq<Seq<char>>,
    lines: Seq<Seq<char>>,
) -> Seq<Seq<char>> {
    seq![mail_line(from)] + rcpt_lines(to) + seq!["DATA"@] + stuffed_lines(lines) + seq!["."@]
}

/// An address comes out of a command line whether it stands in angle brackets,
/// behind a space or right behind the colon.
pub proof fn law_addr_is_read_back(verb: Seq<char>, a: Seq<char>)
    requires
        text_laws::lacks(verb, ':'),
        is_plain(a),
    ensures
        smtp::addr_of(verb + seq![':'] + a) == a,
        smtp::addr_of(verb + seq![':', ' '] + a) == a,
        smtp::addr_of(verb + seq![':', '<'] + a + seq!['>']) == a,
{
    let white = Strip::Whitespace;
    let angle = Strip::AngleBrackets;
    let at = verb.len();
    text_laws::law_bare_stays(a, white);
    text_laws::law_bare_stays(a, angle);

    let plain = verb + seq![':'] + a;
    assert(plain.take(at as int) == verb);
    text_laws::lemma_first_at(plain, ':', at);
    assert(plain.skip(at as int + 1) == a);

    let spaced = verb + seq![':', ' '] + a;
    assert(spaced.take(at as int) == verb);
    text_laws::lemma_first_at(spaced, ':', at);
    assert(spaced.skip(at as int + 1) == seq![' '] + a);
    text_laws::law_strip_ignores_wrapping(' ', a, ' ', white);

    let bracketed = verb + seq![':', '<'] + a + seq!['>'];
    assert(bracketed.take(at as int) == verb);
    text_laws::lemma_first_at(bracketed, ':', at);
    let v = seq!['<'] + a + seq!['>'];
    assert(bracketed.skip(at as int + 1) == v);
    assert(text_laws::bare(v, white));
    text_laws::law_bare_stays(v, white);
    text_laws::law_strip_ignores_wrapping('<', a, '>', angle);
}

/// There is no white space around the address that comes out of a line.
pub proof fn law_addr_is_trimmed(line: Seq<char>)
    ensures
        text_laws::bare(smtp::addr_of(line), Strip::Whitespace),
{
    if let Some((_, v)) = text::split_once(line, ':') {
        text_laws::law_stripped_is_bare(
            text::strip(text::trim(v), Strip::AngleBrackets),
            Strip::Whitespace,
        );
    }
}

/// Doubling a leading dot is undone, and keeps a line from being taken for the
/// end of the message.
pub proof fn law_dot_stuffing(line: Seq<char>)
    ensures
        smtp::unstuffed(stuffed(line)) == line,
        stuffed(line) != "."@,
{
    reveal_strlit(".");
    assert((seq!['.'] + line).drop_first() == line);
    if line.len() > 0 && line[0] == '.' {
        assert(stuffed(line).len() >= 2);
    } else if line.len() == 1 {
        assert(stuffed(line)[0] != '.');
    }
}

proof fn lemma_after_sum(s: SessionView, a: Seq<Seq<char>>, b: Seq<Seq<char>>)
    ensures
        s.after(a + b) == s.after(a).after(b),
        s.actions(a + b) == s.actions(a) + s.after(a).actions(b),
    decreases b.len(),
{
    if b.len() == 0 {
        assert(a + b == a);
        assert(s.actions(a) + s.after(a).actions(b) == s.actions(a));
    } else {
        lemma_after_sum(s, a, b.drop_last());
        assert((a + b).drop_last() == a + b.drop_last());
        assert((a + b).last() == b.last());
    }
}

proof fn lemma_one_line(s: SessionView, line: Seq<char>)
    ensures
        s.after(seq![line]) == s.next(line).0,
        s.actions(seq![line]) == seq![s.next(line).1],
{
    let one = seq![line];
    assert(one.drop_last() == Seq::<Seq<char>>::empty());
    assert(s.after(one.drop_last()) == s);
    assert(s.actions(one.drop_last()) == Seq::<ActionView>::empty());
}

proof fn lemma_mail(a: Seq<char>)
    requires
        is_plain(a),
    ensures
        smtp::command_of(mail_line(a)) == Command::Mail,
        smtp::addr_of(mail_line(a)) == a,
{
    reveal_strlit("MAIL FROM:<");
    reveal_strlit("MAIL FROM:");
    reveal_strlit("EHLO");
    reveal_strlit("HELO");
    let verb = seq!['M', 'A', 'I', 'L', ' ', 'F', 'R', 'O', 'M'];
    assert(mail_line(a) == verb + seq![':', '<'] + a + seq!['>']);
    law_addr_is_read_back(verb, a);
    let upper = text::ascii_upper(mail_line(a));
    assert("MAIL FROM:"@ == upper.subrange(0, 10));
    assert(!"EHLO"@.is_prefix_of(upper)) by {
        if "EHLO"@.is_prefix_of(upper) {
            assert(upper.subrange(0, 4)[0] == upper[0]);
        }
    }
    assert(!"HELO"@.is_prefix_of(upper)) by {
        if "HELO"@.is_prefix_of(upper) {
            assert(upper.subrange(0, 4)[0] == upper[0]);
        }
    }
}

proof fn lemma_rcpt(a: Seq<char>)
    requires
        is_plain(a),
    ensures
        smtp::command_of(rcpt_line(a)) == Command::Recipient,
        smtp::addr_of(rcpt_line(a)) == a,
{
    reveal_strlit("RCPT TO:<");
    reveal_strlit("RCPT TO:");
    reveal_strlit("MAIL FROM:");
    reveal_strlit("EHLO");
    reveal_strlit("HELO");
    let verb = seq!['R', 'C', 'P', 'T', ' ', 'T', 'O'];
    assert(rcpt_line(a) == verb + seq![':', '<'] + a + seq!['>']);
    law_addr_is_read_back(verb, a);
    let upper = text::ascii_upper(rcpt_line(a));
    assert("RCPT TO:"@ == upper.subrange(0, 8));
    assert(!"EHLO"@.is_prefix_of(upper)) by {
        if "EHLO"@.is_prefix_of(upper) {
            assert(upper.subrange(0, 4)[0] == upper[0]);
        }
    }
    assert(!"HELO"@.is_prefix_of(upper)) by {
        if "HELO"@.is_prefix_of(upper) {
            assert(upper.subrange(0, 4)[0] == upper[0]);
        }
    }
    assert(!"MAIL FROM:"@.is_prefix_of(upper)) by {
        if "MAIL FROM:"@.is_prefix_of(upper) {
            assert(upper.subrange(0, 10)[0] == upper[0]);
        }
    }
}

proof fn lemma_data()
    ensures
        smtp::command_of("DATA"@) == Command::Data,
{
    reveal_strlit("RCPT TO:");
    reveal_strlit("MAIL FROM:");
    reveal_strlit("EHLO");
    reveal_strlit("HELO");
    reveal_strlit("DATA");
    let upper = text::ascii_upper("DATA"@);
    assert(upper == "DATA"@);
    assert(upper.subrange(0, 4)[0] == 'D');
    assert("EHLO"@[0] == 'E');
    assert("HELO"@[0] == 'H');
}

proof fn lemma_recipients(s: SessionView, to: Seq<Seq<char>>)
    requires
        s.data is None,
        forall|i: int| 0 <= i < to.len() ==> is_plain(#[trigger] to[i]),
    ensures
        s.after(rcpt_lines(to)) == (SessionView { to: s.to + to, ..s }),
        s.actions(rcpt_lines(to)) == Seq::new(to.len(), |i: int| ActionView::Send(Reply::Okay)),
    decreases to.len(),
{
    let lines = rcpt_lines(to);
    if to.len() == 0 {
        assert(s.to + to == s.to);
    } else {
        let init = to.drop_last();
        assert forall|i: int| 0 <= i < init.len() implies is_plain(#[trigger] init[i]) by {
            assert(init[i] == to[i]);
        }
        lemma_recipients(s, init);
        assert(lines.drop_last() == rcpt_lines(init));
        lemma_rcpt(to.last());
        assert((s.to + init).push(to.last()) == s.to + to);
    }
}

proof fn lemma_message_lines(s: SessionView, raw: Seq<char>, lines: Seq<Seq<char>>)
    requires
        s.data == Some(raw),
    ensures
        s.after(stuffed_lines(lines)) == (SessionView {
            data: Some(raw + text::terminated(lines, seq!['\n'])),
            ..s
        }),
        s.actions(stuffed_lines(lines)) == Seq::new(lines.len(), |i: int| ActionView::Wait),
    decreases lines.len(),
{
    let sent = stuffed_lines(lines);
    if lines.len() == 0 {
        assert(raw + text::terminated(lines, seq!['\n']) == raw);
    } else {
        let init = lines.drop_last();
        lemma_message_lines(s, raw, init);
        assert(sent.drop_last() == stuffed_lines(init));
        law_dot_stuffing(lines.last());
        let done = text::terminated(init, seq!['\n']);
        assert((raw + done) + lines.last().push('\n') == raw + (done + lines.last() + seq!['\n']));
    }
}

/// A client that names a sender and recipients and sends a message gets a
/// positive reply to each command; at the final dot the message is stored with
/// that sender and those recipients, its lines as they were before their
/// leading dots were doubled. The dialogue then stands as at its start.
pub proof fn law_sent_message_is_stored(
    s: SessionView,
    from: Seq<char>,
    to: Seq<Seq<char>>,
    lines: Seq<Seq<char>>,
)
    requires
        s.data is None,
        is_plain(from),
        forall|i: int| 0 <= i < to.len() ==> is_plain(#[trigger] to[i]),
    ensures
        s.after(sending(from, to, lines)) == SessionView::fresh(),
        s.actions(sending(from, to, lines)) == seq![ActionView::Send(Reply::Okay)] + Seq::new(
            to.len(),
            |i: int| ActionView::Send(Reply::Okay),
        ) + seq![ActionView::Send(Reply::StartData)] + Seq::new(
            lines.len(),
            |i: int| ActionView::Wait,
        ) + seq![
            ActionView::Store {
                from,
                to,
                raw: text::terminated(lines, seq!['\n']),
                reply: Reply::Queued,
            },
        ],
{
    let none = Seq::<Seq<char>>::empty();
    let raw = text::terminated(lines, seq!['\n']);
    let a = seq![mail_line(from)];
    let b = a + rcpt_lines(to);
    let c = b + seq!["DATA"@];
    let d = c + stuffed_lines(lines);

    lemma_mail(from);
    lemma_one_line(s, mail_line(from));
    let s1 = SessionView { from, to: none, data: None };
    assert(s.after(a) == s1);

    lemma_recipients(s1, to);
    lemma_after_sum(s, a, rcpt_lines(to));
    assert(none + to == to);
    let s2 = SessionView { from, to, data: None };
    assert(s.after(b) == s2);

    lemma_data();
    lemma_one_line(s2, "DATA"@);
    lemma_after_sum(s, b, seq!["DATA"@]);
    let s3 = SessionView { from, to, data: Some(Seq::empty()) };
    assert(s.after(c) == s3);

    lemma_message_lines(s3, Seq::empty(), lines);
    lemma_after_sum(s, c, stuffed_lines(lines));
    assert(Seq::<char>::empty() + raw == raw);
    let s4 = SessionView { from, to, data: Some(raw) };
    assert(s.after(d) == s4);

    lemma_one_line(s4, "."@);
    lemma_after_sum(s, d, seq!["."@]);
}

/// Every line outside a message gets exactly one reply; within a message only
/// the final dot does, and nothing but that dot makes a message be stored.
pub proof fn law_one_reply_per_line(s: SessionView, line: Seq<char>)
    ensures
        s.next(line).1 is Wait <==> s.data is Some && line != "."@,
        s.next(line).1 is Store <==> s.data is Some && line == "."@,
{
}

/// Every reply is a single line that starts with three digits and a space, the
/// form of a last line, so that a client knows that nothing follows.
pub proof fn law_replies_are_single_lines(r: Reply)
    ensures
        r.line().len() > 4,
        forall|i: int| 0 <= i < 3 ==> '0' <= #[trigger] r.line()[i] <= '9',
        r.line()[3] == ' ',
        text_laws::lacks(r.line(), '\r'),
        text_laws::lacks(r.line(), '\n'),
{
    reveal_strlit("220 fake-email-server ESMTP");
    reveal_strlit("250 Hello");
    reveal_strlit("250 OK");
    reveal_strlit("354 End with . on its own line");
    reveal_strlit("250 OK queued");
    reveal_strlit("221 Bye");
    reveal_strlit("502 Command not implemented");
}

/// The connection is closed at `QUIT` and at no other line; `QUIT` within a
/// message is part of that message.
pub proof fn law_only_quit_closes(s: SessionView, line: Seq<char>)
    ensures
        s.next(line).1 is Close <==> s.data is None && smtp::command_of(line) == Command::Quit,
        s.next(line).1 matches ActionView::Close(r) ==> r == Reply::Bye,
{
}

/// `RSET` clears the envelope, whatever came before it.
pub proof fn law_reset_clears_envelope(s: SessionView, lines: Seq<Seq<char>>, reset: Seq<char>)
    requires
        s.after(lines).data is None,
        smtp::command_of(reset) == Command::Reset,
    ensures
        s.after(lines + seq![reset]) == SessionView::fresh(),
        s.actions(lines + seq![reset]).last() == ActionView::Send(Reply::Okay),
{
    lemma_after_sum(s, lines, seq![reset]);
    lemma_one_line(s.after(lines), reset);
}

/// A command that is not known is refused and changes nothing.
pub proof fn law_unknown_is_refused(s: SessionView, line: Seq<char>)
    requires
        s.data is None,
        smtp::command_of(line) == Command::Unknown,
    ensures
        s.next(line) == (s, ActionView::Send(Reply::NotImplemented)),
{
}

/// `MAIL FROM:` forgets the recipients of an earlier envelope.
pub proof fn law_mail_starts_an_envelope(s: SessionView, line: Seq<char>)
    requires
        s.data is None,
        smtp::command_of(line) == Command::Mail,
    ensures
        s.next(line).0 == (SessionView {
            from: smtp::addr_of(line),
            to: Seq::empty(),
            data: None,
        }),
        s.next(line).1 == ActionView::Send(Reply::Okay),
{
}

/// Commands are the same in upper and lower case.
pub proof fn law_commands_in_any_case(a: Seq<char>, b: Seq<char>)
    requires
        text::ascii_lower(a) == text::ascii_lower(b),
    ensures
        smtp::command_of(a) == smtp::command_of(b),
{
    assert(a.len() == b.len()) by {
        assert(text::ascii_lower(a).len() == a.len());
        assert(text::ascii_lower(b).len() == b.len());
    }
    assert forall|i: int| 0 <= i < a.len() implies text::ascii_upper(a)[i] == text::ascii_upper(
        b,
    )[i] by {
        assert(text::ascii_lower(a)[i] == text::lower_char(a[i]));
        assert(text::ascii_lower(b)[i] == text::lower_char(b[i]));
    }
    assert(text::ascii_upper(a) == text::ascii_upper(b));
}

/// An address comes out of a command line whatever stands around it: white
/// space, then angle brackets, then white space on either side, as much of each
/// as there is, or none. Brackets that belong to the address are kept where
/// white space parts them from those around it.
pub proof fn law_addr_in_any_wrapping(
    verb: Seq<char>,
    w1: Seq<char>,
    b1: Seq<char>,
    w2: Seq<char>,
    a: Seq<char>,
    w3: Seq<char>,
    b2: Seq<char>,
    w4: Seq<char>,
)
    requires
        text_laws::lacks(verb, ':'),
        forall|i: int| 0 <= i < w1.len() ==> text::is_white(#[trigger] w1[i]),
        forall|i: int| 0 <= i < w2.len() ==> text::is_white(#[trigger] w2[i]),
        forall|i: int| 0 <= i < w3.len() ==> text::is_white(#[trigger] w3[i]),
        forall|i: int| 0 <= i < w4.len() ==> text::is_white(#[trigger] w4[i]),
        forall|i: int| 0 <= i < b1.len() ==> (#[trigger] b1[i] == '<' || b1[i] == '>'),
        forall|i: int| 0 <= i < b2.len() ==> (#[trigger] b2[i] == '<' || b2[i] == '>'),
        a.len() > 0 ==> !text::is_white(a[0]) && !text::is_white(a.last()),
        a.len() > 0 && (a[0] == '<' || a[0] == '>') ==> b1.len() > 0 && w2.len() > 0,
        a.len() > 0 && (a.last() == '<' || a.last() == '>') ==> b2.len() > 0 && w3.len() > 0,
    ensures
        smtp::addr_of(verb + seq![':'] + (w1 + b1 + w2 + a + w3 + b2 + w4)) == a,
{
    let white = Strip::Whitespace;
    let angle = Strip::AngleBrackets;
    let none = Seq::<char>::empty();
    let v = w1 + b1 + w2 + a + w3 + b2 + w4;
    text_laws::law_split_at_first(verb, ':', v);
    if a.len() == 0 {
        let inner = w2 + w3;
        if b1.len() == 0 && b2.len() == 0 {
            assert(v == v + none + none);
            text_laws::law_strip_takes_the_ends(v, none, none, white);
            assert(text::trim(v) == none);
            text_laws::law_strip_takes_the_ends(none, none, none, angle);
            assert(none + none + none == none);
            text_laws::law_strip_takes_the_ends(none, none, none, white);
        } else if b1.len() == 0 || b2.len() == 0 {
            let b = b1 + b2;
            let left = if b1.len() == 0 {
                w1 + w2 + w3
            } else {
                w1
            };
            let right = if b1.len() == 0 {
                w4
            } else {
                w2 + w3 + w4
            };
            assert(v == left + b + right);
            text_laws::law_strip_takes_the_ends(left, b, right, white);
            assert(b == b + none + none);
            text_laws::law_strip_takes_the_ends(b, none, none, angle);
            assert(none + none + none == none);
            text_laws::law_strip_takes_the_ends(none, none, none, white);
        } else {
            let t = b1 + inner + b2;
            assert(v == w1 + t + w4);
            text_laws::law_strip_takes_the_ends(w1, t, w4, white);
            text_laws::law_strip_takes_the_ends(b1, inner, b2, angle);
            assert(inner == inner + none + none);
            text_laws::law_strip_takes_the_ends(inner, none, none, white);
        }
        assert(a == none);
    } else {
        let l1 = if b1.len() == 0 {
            w1 + w2
        } else {
            w1
        };
        let l2 = if b1.len() == 0 {
            none
        } else {
            w2
        };
        let r1 = if b2.len() == 0 {
            w3 + w4
        } else {
            w4
        };
        let r2 = if b2.len() == 0 {
            none
        } else {
            w3
        };
        let inner = l2 + a + r2;
        let t = b1 + inner + b2;
        assert(v == l1 + t + r1);
        assert(t[0] == (if b1.len() > 0 {
            b1[0]
        } else {
            a[0]
        }));
        assert(t.last() == (if b2.len() > 0 {
            b2[b2.len() - 1]
        } else {
            a.last()
        }));
        text_laws::law_strip_takes_the_ends(l1, t, r1, white);
        assert(inner[0] == (if l2.len() > 0 {
            l2[0]
        } else {
            a[0]
        }));
        assert(inner.last() == (if r2.len() > 0 {
            r2[r2.len() - 1]
        } else {
            a.last()
        }));
        text_laws::law_strip_takes_the_ends(b1, inner, b2, angle);
        text_laws::law_strip_takes_the_ends(l2, a, r2, white);
    }
}

/// A line without a colon holds no address.
pub proof fn law_no_colon_no_addr(line: Seq<char>)
    requires
        text_laws::lacks(line, ':'),
    ensures
        smtp::addr_of(line) == Seq::<char>::empty(),
{
    text_laws::law_split_at_first(line, ':', Seq::empty());
}

proof fn lemma_upper_sum(word: Seq<char>, rest: Seq<char>)
    ensures
        text::ascii_upper(word).is_prefix_of(text::ascii_upper(word + rest)),
        text::ascii_upper(word).len() == word.len(),
{
    let u = text::ascii_upper(word + rest);
    assert(u.subrange(0, word.len() as int) == text::ascii_upper(word));
}

/// A dialogue starts with an empty envelope and outside a message.
pub proof fn law_fresh_dialogue()
    ensures
        SessionView::fresh().from == Seq::<char>::empty(),
        SessionView::fresh().to == Seq::<Seq<char>>::empty(),
        SessionView::fresh().data is None,
{
}

/// `EHLO` and `HELO`, in whatever case and whatever follows them, are greeted
/// and change nothing.
pub proof fn law_greetings_are_answered(s: SessionView, word: Seq<char>, rest: Seq<char>)
    requires
        s.data is None,
        text::ascii_upper(word) == "EHLO"@ || text::ascii_upper(word) == "HELO"@,
    ensures
        s.next(word + rest) == (s, ActionView::Send(Reply::Hello)),
{
    lemma_upper_sum(word, rest);
}

/// `MAIL FROM:`, in whatever case, takes what follows it for the sender of a
/// new envelope; `RCPT TO:` takes it for one more recipient. Both are accepted.
pub proof fn law_envelope_lines(s: SessionView, word: Seq<char>, rest: Seq<char>)
    requires
        s.data is None,
    ensures
        text::ascii_upper(word) == "MAIL FROM:"@ ==> s.next(word + rest) == (
            SessionView { from: smtp::addr_of(word + rest), to: Seq::empty(), data: None },
            ActionView::Send(Reply::Okay),
        ),
        text::ascii_upper(word) == "RCPT TO:"@ ==> s.next(word + rest) == (
            SessionView { from: s.from, to: s.to.push(smtp::addr_of(word + rest)), data: None },
            ActionView::Send(Reply::Okay),
        ),
{
    reveal_strlit("EHLO");
    reveal_strlit("HELO");
    reveal_strlit("MAIL FROM:");
    reveal_strlit("RCPT TO:");
    lemma_upper_sum(word, rest);
    let w = text::ascii_upper(word);
    let u = text::ascii_upper(word + rest);
    if w == "MAIL FROM:"@ || w == "RCPT TO:"@ {
        assert(u.subrange(0, w.len() as int)[0] == u[0]);
        assert(u.subrange(0, 4)[0] == u[0]);
        assert("EHLO"@[0] == 'E' && "HELO"@[0] == 'H');
        if w == "RCPT TO:"@ {
            assert("MAIL FROM:"@[0] == 'M');
            if "MAIL FROM:"@.is_prefix_of(u) {
                assert(u.subrange(0, 10)[0] == u[0]);
            }
        }
    }
}

/// An address in brackets behind `MAIL FROM:` or `RCPT TO:`, in whatever case
/// and with white space before it or not, is the sender or one more recipient.
pub proof fn law_bracketed_address_is_taken(
    s: SessionView,
    word: Seq<char>,
    space: Seq<char>,
    a: Seq<char>,
)
    requires
        s.data is None,
        forall|i: int| 0 <= i < space.len() ==> text::is_white(#[trigger] space[i]),
        a.len() > 0 ==> !text::is_white(a[0]) && !text::is_white(a.last()),
        a.len() > 0 ==> a[0] != '<' && a[0] != '>' && a.last() != '<' && a.last() != '>',
    ensures
        text::ascii_upper(word) == "MAIL FROM:"@ ==> s.next(
            word + (space + seq!['<'] + a + seq!['>']),
        ).0 == (SessionView { from: a, to: Seq::empty(), data: None }),
        text::ascii_upper(word) == "RCPT TO:"@ ==> s.next(
            word + (space + seq!['<'] + a + seq!['>']),
        ).0 == (SessionView { from: s.from, to: s.to.push(a), data: None }),
{
    reveal_strlit("MAIL FROM:");
    reveal_strlit("RCPT TO:");
    let none = Seq::<char>::empty();
    let rest = space + seq!['<'] + a + seq!['>'];
    law_envelope_lines(s, word, rest);
    let u = text::ascii_upper(word);
    if u == "MAIL FROM:"@ || u == "RCPT TO:"@ {
        let n = word.len() - 1;
        assert(word.len() == u.len());
        let verb = word.take(n);
        assert(u[n] == ':');
        assert(word[n] == ':') by {
            text_laws::law_ascii_case(word);
            assert(text::ascii_upper(word)[n] as int == word[n] as int - (if 97 <= word[n] as int
                <= 122 {
                32int
            } else {
                0
            }));
        }
        assert forall|i: int| 0 <= i < verb.len() implies #[trigger] verb[i] != ':' by {
            assert(u[i] == text::upper_char(word[i]));
            assert(u[i] != ':');
        }
        assert(word + rest == verb + seq![':'] + (space + seq!['<'] + none + a + none + seq!['>']
            + none));
        law_addr_in_any_wrapping(verb, space, seq!['<'], none, a, none, seq!['>'], none);
    }
}

/// `DATA`, `RSET`, `NOOP` and `QUIT` stand alone on their line, in whatever
/// case.
pub proof fn law_lone_commands(s: SessionView, line: Seq<char>)
    requires
        s.data is None,
    ensures
        text::ascii_upper(line) == "DATA"@ ==> s.next(line) == (
            SessionView { from: s.from, to: s.to, data: Some(Seq::empty()) },
            ActionView::Send(Reply::StartData),
        ),
        text::ascii_upper(line) == "RSET"@ ==> s.next(line) == (
            SessionView { from: Seq::empty(), to: Seq::empty(), data: None },
            ActionView::Send(Reply::Okay),
        ),
        text::ascii_upper(line) == "NOOP"@ ==> s.next(line) == (s, ActionView::Send(Reply::Okay)),
        text::ascii_upper(line) == "QUIT"@ ==> s.next(line) == (s, ActionView::Close(Reply::Bye)),
{
    reveal_strlit("EHLO");
    reveal_strlit("HELO");
    reveal_strlit("MAIL FROM:");
    reveal_strlit("RCPT TO:");
    reveal_strlit("DATA");
    reveal_strlit("RSET");
    reveal_strlit("NOOP");
    reveal_strlit("QUIT");
    let u = text::ascii_upper(line);
    if u == "DATA"@ || u == "RSET"@ || u == "NOOP"@ || u == "QUIT"@ {
        assert(u.subrange(0, 4)[0] == u[0]);
        assert("EHLO"@[0] == 'E' && "HELO"@[0] == 'H');
        assert("DATA"@[0] == 'D' && "RSET"@[0] == 'R' && "NOOP"@[0] == 'N' && "QUIT"@[0] == 'Q');
    }
}

/// Any other line outside a message is refused and changes nothing.
pub proof fn law_other_lines_are_refused(s: SessionView, line: Seq<char>)
    requires
        s.data is None,
        !"EHLO"@.is_prefix_of(text::ascii_upper(line)),
        !"HELO"@.is_prefix_of(text::ascii_upper(line)),
        !"MAIL FROM:"@.is_prefix_of(text::ascii_upper(line)),
        !"RCPT TO:"@.is_prefix_of(text::ascii_upper(line)),
        text::ascii_upper(line) != "DATA"@,
        text::ascii_upper(line) != "RSET"@,
        text::ascii_upper(line) != "NOOP"@,
        text::ascii_upper(line) != "QUIT"@,
    ensures
        s.next(line) == (s, ActionView::Send(Reply::NotImplemented)),
{
}

/// Within a message, a line is added to it with `\n` behind it and without the
/// dot that it may start with; a line that is nothing but a dot ends the
/// message, which is stored with its envelope, and the envelope is emptied.
pub proof fn law_lines_of_a_message(s: SessionView, raw: Seq<char>, line: Seq<char>)
    requires
        s.data == Some(raw),
    ensures
        s.next(seq!['.']) == (
            SessionView { from: Seq::empty(), to: Seq::empty(), data: None },
            ActionView::Store { from: s.from, to: s.to, raw, reply: Reply::Queued },
        ),
        line.len() > 0 ==> s.next(seq!['.'] + line) == (
            SessionView { from: s.from, to: s.to, data: Some(raw + line + seq!['\n']) },
            ActionView::Wait,
        ),
        (line.len() == 0 || line[0] != '.') ==> s.next(line) == (
            SessionView { from: s.from, to: s.to, data: Some(raw + line + seq!['\n']) },
            ActionView::Wait,
        ),
{
    reveal_strlit(".");
    assert(seq!['.'] == "."@);
    let dotted = seq!['.'] + line;
    assert(dotted.drop_first() == line);
    assert(raw + line.push('\n') == raw + line + seq!['\n']);
    if line.len() > 0 {
        assert(dotted.len() != "."@.len());
        if line[0] != '.' {
            assert(line != "."@);
        }
    }
}

/// A dialogue goes on from where it stands: what its lines lead to does not
/// depend on how they are grouped, and each line has its own action.
pub proof fn law_dialogue_goes_on(
    s: SessionView,
    line: Seq<char>,
    a: Seq<Seq<char>>,
    b: Seq<Seq<char>>,
)
    ensures
        s.after(Seq::empty()) == s,
        s.actions(Seq::empty()) == Seq::<ActionView>::empty(),
        (s.after(seq![line]), s.actions(seq![line])) == (s.next(line).0, seq![s.next(line).1]),
        s.after(a + b) == s.after(a).after(b),
        s.actions(a + b) == s.actions(a) + s.after(a).actions(b),
{
    lemma_one_line(s, line);
    lemma_after_sum(s, a, b);
}

/// What an action holds is all that its fields hold.
pub proof fn law_action_view(a: Action)
    ensures
        match a {
            Action::Wait => a@ == ActionView::Wait,
            Action::Send(r) => a@ == ActionView::Send(r),
            Action::Store { from, to, raw, reply } => a@ == (ActionView::Store {
                from: from@,
                to: Seq::new(to@.len(), |i: int| to@[i]@),
                raw: raw@,
                reply,
            }),
            Action::Close(r) => a@ == ActionView::Close(r),
        },
{
}

} // verus!
