//! What the functions of the library return, whatever they are called with.

use vstd::prelude::*;

use crate::html;
use crate::html::{esc, rows, rows_html, stats_html};
use crate::inbox;
use crate::inbox::{receive_as, Email, EmailView, Inbox, Timestamp};
use crate::laws::html as html_laws;
use crate::laws::inbox as inbox_laws;
use crate::laws::message as message_laws;
use crate::laws::search as search_laws;
use crate::laws::settings as settings_laws;
use crate::laws::smtp as smtp_laws;
use crate::laws::text as text_laws;
use crate::message;
use crate::message::parse_message;
use crate::outside;
use crate::search;
use crate::search::{filtered, messages, Listing, RowsQuery, SearchText};
use crate::settings;
use crate::settings::{parse_port, Settings};
use crate::smtp::addr;
use crate::text;

verus! {

/// `addr` reads the address out of its line, whatever white space and brackets
/// stand around it.
pub proof fn law_addr(
    line: &str,
    r: String,
    verb: Seq<char>,
    w1: Seq<char>,
    w2: Seq<char>,
    a: Seq<char>,
    w3: Seq<char>,
    w4: Seq<char>,
)
    requires
        call_ensures(addr, (line,), r),
        line@ == verb + seq![':'] + (w1 + seq!['<'] + w2 + a + w3 + seq!['>'] + w4),
        text_laws::lacks(verb, ':'),
        forall|i: int| 0 <= i < w1.len() ==> text::is_white(#[trigger] w1[i]),
        forall|i: int| 0 <= i < w2.len() ==> text::is_white(#[trigger] w2[i]),
        forall|i: int| 0 <= i < w3.len() ==> text::is_white(#[trigger] w3[i]),
        forall|i: int| 0 <= i < w4.len() ==> text::is_white(#[trigger] w4[i]),
        smtp_laws::is_plain(a),
    ensures
        r@ == a,
{
    smtp_laws::law_addr_in_any_wrapping(verb, w1, seq!['<'], w2, a, w3, seq!['>'], w4);
}

/// `parse_message` gives what follows the first `Subject` and what follows the
/// first blank line, both trimmed, whichever other headers there are.
pub proof fn law_parse_message(
    raw: &str,
    r: (String, String),
    pre: Seq<Seq<char>>,
    k: Seq<char>,
    v: Seq<char>,
    post: Seq<Seq<char>>,
    t: Seq<char>,
)
    requires
        call_ensures(parse_message, (raw,), r),
        raw@ == text::terminated(pre + seq![k + seq![':'] + v] + post, seq!['\n']) + (seq!['\n'] + t),
        text_laws::are_lines(pre + seq![k + seq![':'] + v] + post),
        message_laws::none_blank(pre),
        message_laws::none_blank(post),
        message_laws::none_names_subject(pre),
        text_laws::lacks(k, ':'),
        k.len() > 0 ==> k[0] != ' ' && k[0] != '\t',
        text::ascii_lower(text::trim(k)) == "subject"@,
        post.len() > 0 ==> post[0].len() > 0 && post[0][0] != ' ' && post[0][0] != '\t'
            && post[0].contains(':'),
        text_laws::lacks_crlf(t),
    ensures
        r.0@ == text::trim(v),
        r.1@ == text::trim(t),
{
    let line = k + seq![':'] + v;
    let block = pre + seq![line] + post;
    let blank = Seq::<char>::empty();
    message_laws::law_blank_lines(blank);
    if post.len() > 0 {
        assert(seq![post[0]] + post.drop_first() == post);
        message_laws::law_subject_among_other_headers(pre, k, v, post[0], post.drop_first());
    } else {
        assert(block == pre + seq![line]);
        message_laws::law_subject_among_other_headers(pre, k, v, blank, post);
    }
    assert(!message::is_blank(line)) by {
        message_laws::law_blank_lines(line);
        assert(line[k.len() as int] == ':');
    }
    assert forall|i: int| 0 <= i < block.len() implies !message::is_blank(#[trigger] block[i]) by {
        if i < pre.len() {
            assert(block[i] == pre[i]);
        } else if i == pre.len() {
            assert(block[i] == line);
        } else {
            assert(block[i] == post[i - pre.len() - 1]);
        }
    }
    assert(text_laws::are_lines(seq![blank]));
    assert(seq!['\n'] + t == blank + seq!['\n'] + t);
    message_laws::law_body_is_the_text_behind(block, blank, t);
}

/// `filtered` gives the messages of the inbox in which the text that is asked
/// for stands, in lower case, and no others, newest first.
pub proof fn law_filtered(inbox: &Inbox, query: &RowsQuery, r: Vec<Email>, m: EmailView)
    requires
        call_ensures(filtered, (inbox, query), r),
    ensures
        search_laws::is_newest_first(inbox::emails(r@)),
        inbox::emails(r@).contains(m) <==> inbox@.contains(m) && (match query@ {
            None => true,
            Some(p) => outside::unicode_lowercase(p).len() == 0 || exists|
                t: Seq<char>,
                pre: Seq<char>,
                post: Seq<char>,
            |
                search_laws::is_text_of(m, t) && #[trigger] outside::unicode_lowercase(t)
                    == #[trigger] (pre + outside::unicode_lowercase(p) + post),
        }),
{
    search_laws::law_found_means_text_stands_in_it(inbox@, query@, m);
    search_laws::law_search_keeps_order(inbox@, search::needle_of(query@));
}

/// `filtered` finds an ASCII message by an ASCII text if and only if that text
/// stands in a recipient, the subject, the sender or the body, letters compared
/// without regard to case.
pub proof fn law_filtered_ascii(inbox: &Inbox, query: &RowsQuery, r: Vec<Email>, m: EmailView)
    requires
        call_ensures(filtered, (inbox, query), r),
        query@ matches Some(p) && p.len() > 0 && vstd::utf8::is_ascii_chars(p),
        inbox@.contains(m),
        forall|t: Seq<char>| #[trigger]
            search_laws::is_text_of(m, t) ==> vstd::utf8::is_ascii_chars(t),
    ensures
        inbox::emails(r@).contains(m) <==> exists|t: Seq<char>| #[trigger]
            search_laws::is_text_of(m, t) && text::has_text(
                text::ascii_lower(t),
                text::ascii_lower(query@->0),
            ),
{
    let p = query@->0;
    search_laws::law_ascii_messages(inbox@, p, m);
    search_laws::law_ascii_found_means_text_stands_in_it(inbox@, p, m);
    search_laws::law_what_is_asked_for(p);
}

/// `messages` gives all messages of the inbox, each once, newest first, and how
/// many they are.
pub proof fn law_messages(inbox: &Inbox, r: Listing)
    requires
        call_ensures(messages, (inbox,), r),
    ensures
        inbox::emails(r.data@).to_multiset() == inbox@.to_multiset(),
        search_laws::is_newest_first(inbox::emails(r.data@)),
        r.total == inbox@.len(),
{
    search_laws::law_order_is_permutation(inbox@);
    search_laws::law_order_is_newest_first(inbox@);
}

/// `receive_as` makes a message with what it is given, and with the subject and
/// the body of the text.
pub proof fn law_receive_as(
    from: String,
    to: Vec<String>,
    raw: &str,
    id: u128,
    at: Timestamp,
    m: Email,
)
    requires
        call_ensures(receive_as, (from, to, raw, id, at), m),
    ensures
        m.from@ == from@,
        m.to@.len() == to@.len(),
        forall|i: int| 0 <= i < to@.len() ==> (#[trigger] m.to@[i])@ == to@[i]@,
        m.id == id,
        m.received_at@ == at@,
        m.subject@ == message::subject_of(raw@),
        m.body@ == message::body_of(raw@),
{
    assert(m@.to == text::texts(to@));
    assert(m@.to.len() == m.to@.len());
    assert forall|i: int| 0 <= i < to@.len() implies (#[trigger] m.to@[i])@ == to@[i]@ by {
        assert(m@.to[i] == m.to@[i]@);
        assert(text::texts(to@)[i] == to@[i]@);
    }
}

/// `esc` gives a text without markup that is shown as the text it was given.
pub proof fn law_esc(s: &str, r: String)
    requires
        call_ensures(esc, (s,), r),
    ensures
        html_laws::unescaped(r@) == s@,
        text_laws::lacks(r@, '<'),
        text_laws::lacks(r@, '>'),
        text_laws::lacks(r@, '"'),
{
    html_laws::law_escape_is_undone(s@);
    html_laws::law_escaped_holds_no_markup(s@);
    assert forall|i: int| 0 <= i < r@.len() implies #[trigger] r@[i] != '<' && r@[i] != '>' && r@[i]
        != '"' by {
        assert(!html_laws::is_markup(html::escaped(s@)[i]));
    }
}

/// `rows_html` gives the rows of the messages, one after the other, and each
/// shows its message, part by part.
pub proof fn law_rows_html(items: &[Email], s: String, i: int)
    requires
        call_ensures(rows_html, (items,), s),
        0 <= i < items@.len(),
    ensures
        ({
            let all = inbox::emails(items@);
            let m = items@[i]@;
            let r = html::row_of(m);
            &&& s@ == html::rows_of(all.take(i)) + r + html::rows_of(all.skip(i + 1))
            &&& html_laws::unescaped(html_laws::between(r, "<td>"@, "</td>"@)) == text::join(
                m.to,
                ", "@,
            )
            &&& html_laws::unescaped(html_laws::between(r, "</td><td>"@, "</td>"@)) == (
            if m.subject.len() == 0 {
                "(no subject)"@
            } else {
                m.subject
            })
            &&& html_laws::unescaped(
                html_laws::between(r, "<summary>from: "@, "</summary>"@),
            ) == m.from
            &&& html_laws::unescaped(
                html_laws::between(r, "<div class=\"full\">"@, "</div>"@),
            ) == m.body
            &&& html_laws::between(r, "<div class=\"meta\">id: "@, "</div>"@)
                == outside::hyphenated(m.id)
        }),
{
    let all = inbox::emails(items@);
    let m = all[i];
    assert(m == items@[i]@);
    html_laws::law_row_shows_its_message(m);
    let a = all.take(i);
    let b = all.skip(i + 1);
    assert(all == a + (seq![m] + b));
    html_laws::law_rows_distribute(a, seq![m] + b);
    html_laws::law_rows_distribute(seq![m], b);
    html_laws::law_table_is_its_rows(all, m);
    let r = html::row_of(m);
    assert(html::rows_of(a) + (r + html::rows_of(b)) == html::rows_of(a) + r + html::rows_of(b));
}

/// `stats_html` says how many messages there are.
pub proof fn law_stats_html(inbox: &Inbox, s: String)
    requires
        call_ensures(stats_html, (inbox,), s),
    ensures
        inbox@.len() == 1 ==> s@ == "<strong>1</strong> message"@,
        inbox@.len() != 1 ==> s@ == "<strong>"@ + text::decimal(inbox@.len())
            + "</strong> messages"@,
{
    html_laws::law_stats_say_how_many(inbox@.len());
}

/// `parse_port` gives a port if and only if it is given its decimal notation.
pub proof fn law_parse_port(s: &str, r: Option<u16>, p: u16)
    requires
        call_ensures(parse_port, (s,), r),
    ensures
        r == Some(p) <==> exists|sign: Seq<char>, zeros: Seq<char>|
            (sign.len() == 0 || sign == seq!['+']) && settings_laws::are_zeros(zeros) && s@
                == #[trigger] (sign + zeros + text::decimal(p as nat)),
{
    settings_laws::law_port_is_its_decimal(s@, p);
}

/// The server listens on all addresses, at port 8080 for the web page and at
/// port 1025 for mail, unless the environment says otherwise.
pub proof fn law_from_vars(
    host: Option<String>,
    port: Option<String>,
    smtp_port: Option<String>,
    s: Settings,
)
    requires
        call_ensures(Settings::from_vars, (host, port, smtp_port), s),
    ensures
        host is None ==> s.host@ == "0.0.0.0"@,
        host matches Some(h) ==> s.host@ == h@,
        port is None ==> s.http_port == 8080,
        smtp_port is None ==> s.smtp_port == 1025,
        port matches Some(v) ==> match settings::port_value(v@) {
            Some(p) => s.http_port == p,
            None => s.http_port == 8080,
        },
        smtp_port matches Some(v) ==> match settings::port_value(v@) {
            Some(p) => s.smtp_port == p,
            None => s.smtp_port == 1025,
        },
{
}

/// The addresses are the host and the port, with a colon between them.
pub proof fn law_addresses(s: &Settings, smtp: String, http: String)
    requires
        call_ensures(Settings::smtp_address, (s,), smtp),
        call_ensures(Settings::http_address, (s,), http),
    ensures
        smtp@ == s.host@ + seq![':'] + text::decimal(s.smtp_port as nat),
        http@ == s.host@ + seq![':'] + text::decimal(s.http_port as nat),
{
    reveal_strlit(":");
    assert(":"@ == seq![':']);
}

/// `Timestamp::new` gives the point in time that it is given, where there is
/// one.
pub proof fn law_timestamp(secs: i64, nanos: u32, r: Option<Timestamp>)
    requires
        call_ensures(Timestamp::new, (secs, nanos), r),
    ensures
        r matches Some(t) ==> t@ == (secs, nanos),
        r is Some <==> {
            &&& -96_465_292 * 86_400 <= secs < 95_026_237 * 86_400
            &&& nanos < 1_000_000_000 || nanos < 2_000_000_000 && (secs + 1) % 60 == 0
        },
{
    inbox_laws::law_range_of_times(secs, nanos);
}

/// `matches` finds a needle in texts of which one is something, the needle, and
/// something.
pub proof fn law_matches(t: &SearchText, needle: &str, b: bool)
    requires
        call_ensures(SearchText::matches, (t, needle), b),
    ensures
        b <==> needle@.len() == 0 || exists|x: Seq<char>, pre: Seq<char>, post: Seq<char>|
            #![trigger t@.to.contains(x), pre + needle@ + post]
            (t@.to.contains(x) || x == t.subject@ || x == t.from@ || x == t.body@) && x == pre
                + needle@ + post,
{
    search_laws::law_matching_texts(t@, needle@);
}

/// `rows` shows what `filtered` finds: the rows of those messages, or that there
/// is no mail.
pub proof fn law_rows(inbox: &Inbox, query: &RowsQuery, s: String, r: Vec<Email>)
    requires
        call_ensures(rows, (inbox, query), s),
        call_ensures(filtered, (inbox, query), r),
    ensures
        r@.len() > 0 ==> s@ == html::rows_of(inbox::emails(r@)),
        r@.len() == 0 ==> s@
            == "<tr><td colspan=\"3\" class=\"empty\">No mail yet — point an SMTP client at :1025 and it lands here.</td></tr>"@,
{
}

} // verus!
