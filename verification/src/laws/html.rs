//! Laws of the HTML fragments.

use vstd::prelude::*;

use crate::html;
use crate::inbox::EmailView;
use crate::laws::text as text_laws;
use crate::outside;
use crate::search;
use crate::text;

verus! {

/// Whether `c` begins or ends a tag or an attribute value.
pub open spec fn is_markup(c: char) -> bool {
    c == '<' || c == '>' || c == '"'
}

/// The characters of `s` that begin or end tags and attribute values.
pub open spec fn markup(s: Seq<char>) -> Seq<char> {
    s.filter(|c: char| is_markup(c))
}

/// Escaping two texts one after the other is escaping both together.
pub proof fn law_escape_distributes(a: Seq<char>, b: Seq<char>)
    ensures
        html::escaped(a + b) == html::escaped(a) + html::escaped(b),
    decreases b.len(),
{
    if b.len() == 0 {
        assert(a + b == a);
        assert(html::escaped(a) + html::escaped(b) == html::escaped(a));
    } else {
        law_escape_distributes(a, b.drop_last());
        assert((a + b).drop_last() == a + b.drop_last());
        assert((a + b).last() == b.last());
        assert(html::escaped(a) + html::escaped(b) == html::escaped(a) + html::escaped(
            b.drop_last(),
        ) + html::escaped_char(b.last()));
    }
}

/// Escaped text holds no `<`, `>` or `"`.
pub proof fn law_escaped_holds_no_markup(s: Seq<char>)
    ensures
        forall|i: int| 0 <= i < html::escaped(s).len() ==> !is_markup(#[trigger] html::escaped(s)[i]),
    decreases s.len(),
{
    reveal_strlit("&amp;");
    reveal_strlit("&lt;");
    reveal_strlit("&gt;");
    reveal_strlit("&quot;");
    if s.len() > 0 {
        let before = html::escaped(s.drop_last());
        let last = html::escaped_char(s.last());
        law_escaped_holds_no_markup(s.drop_last());
        assert forall|i: int| 0 <= i < last.len() implies !is_markup(#[trigger] last[i]) by {}
        assert forall|i: int| 0 <= i < html::escaped(s).len() implies !is_markup(
            #[trigger] html::escaped(s)[i],
        ) by {
            if i < before.len() {
                assert(html::escaped(s)[i] == before[i]);
            } else {
                assert(html::escaped(s)[i] == last[i - before.len()]);
            }
        }
    }
}

/// Text without `&`, `<`, `>` and `"` is left as it is.
pub proof fn law_escape_keeps_plain_text(s: Seq<char>)
    requires
        forall|i: int| 0 <= i < s.len() ==> !is_markup(#[trigger] s[i]) && s[i] != '&',
    ensures
        html::escaped(s) == s,
    decreases s.len(),
{
    if s.len() > 0 {
        let init = s.drop_last();
        assert forall|i: int| 0 <= i < init.len() implies !is_markup(#[trigger] init[i]) && init[i]
            != '&' by {
            assert(init[i] == s[i]);
        }
        law_escape_keeps_plain_text(init);
        assert(init + seq![s.last()] == s);
    }
}

/// Escaped text as a browser shows it.
pub open spec fn unescaped(s: Seq<char>) -> Seq<char>
    decreases s.len(),
{
    if s.len() == 0 {
        s
    } else if "&amp;"@.is_prefix_of(s) && s.len() >= 5 {
        seq!['&'] + unescaped(s.skip(5))
    } else if "&lt;"@.is_prefix_of(s) && s.len() >= 4 {
        seq!['<'] + unescaped(s.skip(4))
    } else if "&gt;"@.is_prefix_of(s) && s.len() >= 4 {
        seq!['>'] + unescaped(s.skip(4))
    } else if "&quot;"@.is_prefix_of(s) && s.len() >= 6 {
        seq!['"'] + unescaped(s.skip(6))
    } else {
        seq![s[0]] + unescaped(s.skip(1))
    }
}

proof fn lemma_unescape_char(c: char, rest: Seq<char>)
    ensures
        unescaped(html::escaped_char(c) + rest) == seq![c] + unescaped(rest),
{
    reveal_strlit("&amp;");
    reveal_strlit("&lt;");
    reveal_strlit("&gt;");
    reveal_strlit("&quot;");
    let e = html::escaped_char(c);
    let s = e + rest;
    assert(s.skip(e.len() as int) == rest);
    assert(s.subrange(0, e.len() as int) == e);
    assert("&amp;"@[1] == 'a');
    assert("&lt;"@[1] == 'l');
    assert("&gt;"@[1] == 'g');
    assert("&quot;"@[1] == 'q');
    if c == '&' {
        assert("&amp;"@.is_prefix_of(s));
    } else {
        assert(!"&amp;"@.is_prefix_of(s)) by {
            if "&amp;"@.is_prefix_of(s) {
                assert(s.subrange(0, 5)[0] == s[0]);
                assert(s.subrange(0, 5)[1] == s[1]);
            }
        }
        if c == '<' {
            assert("&lt;"@.is_prefix_of(s));
        } else {
            assert(!"&lt;"@.is_prefix_of(s)) by {
                if "&lt;"@.is_prefix_of(s) {
                    assert(s.subrange(0, 4)[0] == s[0]);
                    assert(s.subrange(0, 4)[1] == s[1]);
                }
            }
            if c == '>' {
                assert("&gt;"@.is_prefix_of(s));
            } else {
                assert(!"&gt;"@.is_prefix_of(s)) by {
                    if "&gt;"@.is_prefix_of(s) {
                        assert(s.subrange(0, 4)[0] == s[0]);
                        assert(s.subrange(0, 4)[1] == s[1]);
                    }
                }
                if c == '"' {
                    assert("&quot;"@.is_prefix_of(s));
                } else {
                    assert(!"&quot;"@.is_prefix_of(s)) by {
                        if "&quot;"@.is_prefix_of(s) {
                            assert(s.subrange(0, 6)[0] == s[0]);
                        }
                    }
                }
            }
        }
    }
}

/// Escaped text is shown as the text that was escaped, so different texts stay
/// different.
pub proof fn law_escape_is_undone(s: Seq<char>)
    ensures
        unescaped(html::escaped(s)) == s,
    decreases s.len(),
{
    if s.len() > 0 {
        let first = seq![s[0]];
        let rest = s.drop_first();
        law_escape_is_undone(rest);
        assert(first + rest == s);
        law_escape_distributes(first, rest);
        assert(first.drop_last() == Seq::<char>::empty());
        assert(html::escaped(first.drop_last()) == Seq::<char>::empty());
        assert(html::escaped(first) == html::escaped_char(s[0]));
        lemma_unescape_char(s[0], html::escaped(rest));
    }
}

proof fn lemma_no_markup(s: Seq<char>)
    requires
        forall|i: int| 0 <= i < s.len() ==> !is_markup(#[trigger] s[i]),
    ensures
        markup(s) == Seq::<char>::empty(),
{
    let p = |c: char| is_markup(c);
    assert(s.all(|c: char| !p(c)));
    s.lemma_all_neg_filter_empty(p);
}

proof fn lemma_escaped_markup(s: Seq<char>)
    ensures
        markup(html::escaped(s)) == Seq::<char>::empty(),
{
    law_escaped_holds_no_markup(s);
    lemma_no_markup(html::escaped(s));
}

proof fn lemma_markup_sum(a: Seq<char>, b: Seq<char>)
    ensures
        markup(a + b) == markup(a) + markup(b),
{
    Seq::filter_distributes_over_add(a, b, |c: char| is_markup(c));
}

/// Whether `c` is a hexadecimal digit in lower case.
pub open spec fn is_hex_digit(c: char) -> bool {
    '0' <= c <= '9' || 'a' <= c <= 'f'
}

proof fn lemma_hex(n: nat, len: nat)
    ensures
        outside::hex(n, len).len() == len,
        forall|i: int| 0 <= i < len ==> is_hex_digit(#[trigger] outside::hex(n, len)[i]),
    decreases len,
{
    if len > 0 {
        let init = outside::hex(n / 16, (len - 1) as nat);
        lemma_hex(n / 16, (len - 1) as nat);
        assert(is_hex_digit(outside::hex_digit(n % 16)));
        assert forall|i: int| 0 <= i < len implies is_hex_digit(
            #[trigger] outside::hex(n, len)[i],
        ) by {
            if i < len - 1 {
                assert(outside::hex(n, len)[i] == init[i]);
            }
        }
    }
}

/// The text of an identifier consists of 36 hexadecimal digits and hyphens, so
/// it holds no markup.
pub proof fn law_identifier_holds_no_markup(id: u128)
    ensures
        outside::hyphenated(id).len() == 36,
        forall|i: int|
            0 <= i < 36 ==> is_hex_digit(#[trigger] outside::hyphenated(id)[i])
                || outside::hyphenated(id)[i] == '-',
        markup(outside::hyphenated(id)) == Seq::<char>::empty(),
{
    let d = outside::hex(id as nat, 32);
    let s = outside::hyphenated(id);
    lemma_hex(id as nat, 32);
    assert forall|i: int| 0 <= i < 36 implies is_hex_digit(#[trigger] s[i]) || s[i] == '-' by {
        if i < 8 {
            assert(s[i] == d[i]);
        } else if 8 < i < 13 {
            assert(s[i] == d[i - 1]);
        } else if 13 < i < 18 {
            assert(s[i] == d[i - 2]);
        } else if 18 < i < 23 {
            assert(s[i] == d[i - 3]);
        } else if 23 < i {
            assert(s[i] == d[i - 4]);
        } else {
            assert(s[i] == '-');
        }
    }
    lemma_no_markup(s);
}

proof fn lemma_time_chars(s: Seq<char>, secs: i64, nanos: u32)
    requires
        outside::is_row_time(s, secs, nanos),
    ensures
        forall|i: int| 0 <= i < s.len() ==> !is_markup(#[trigger] s[i]),
{
    let t = outside::time_of_day(secs, nanos);
    let in_day = (secs as int % 86_400) as nat;
    assert(in_day < 86_400);
    assert forall|i: int| 0 <= i < t.len() implies !is_markup(#[trigger] t[i]) by {}
    assert forall|i: int| 0 <= i < s.len() implies !is_markup(#[trigger] s[i]) by {
        if i >= 7 {
            assert(s[i] == s.skip(7)[i - 7]);
            assert(s[i] == t[i - 7]);
        }
    }
}

/// The text of a time holds no markup.
pub proof fn law_time_holds_no_markup(s: Seq<char>, secs: i64, nanos: u32)
    requires
        outside::is_row_time(s, secs, nanos),
    ensures
        markup(s) == Seq::<char>::empty(),
{
    lemma_time_chars(s, secs, nanos);
    lemma_no_markup(s);
}

/// The markup of the page's own text in the rows of one message.
pub open spec fn row_markup() -> Seq<char> {
    markup("<tr><td>"@) + markup("</td><td>"@) + markup("</td><td class=\"at\">"@) + markup(
        "</td></tr><tr class=\"detail\"><td colspan=\"3\"><details><summary>from: "@,
    ) + markup("</summary><div class=\"full\">"@) + markup("</div><div class=\"meta\">id: "@)
        + markup("</div></details></td></tr>"@)
}

/// The markup of the page's own text in the rows of `n` messages.
pub open spec fn rows_markup(n: nat) -> Seq<char>
    decreases n,
{
    if n == 0 {
        Seq::empty()
    } else {
        rows_markup((n - 1) as nat) + row_markup()
    }
}

/// The markup of a row is that of the page's own text, with that of the time in
/// its place.
spec fn row_markup_around(at: Seq<char>) -> Seq<char> {
    markup("<tr><td>"@) + markup("</td><td>"@) + markup("</td><td class=\"at\">"@) + markup(at)
        + markup("</td></tr><tr class=\"detail\"><td colspan=\"3\"><details><summary>from: "@)
        + markup("</summary><div class=\"full\">"@) + markup("</div><div class=\"meta\">id: "@)
        + markup("</div></details></td></tr>"@)
}

proof fn lemma_row_markup(m: EmailView)
    ensures
        markup(html::row_of(m)) == row_markup_around(html::shown_time(m)),
{
    let at = html::shown_time(m);
    let id = outside::hyphenated(m.id);
    let to = html::escaped(text::join(m.to, ", "@));
    let subject = html::escaped(html::shown_subject(m.subject));
    let from = html::escaped(m.from);
    let body = html::escaped(m.body);
    lemma_escaped_markup(text::join(m.to, ", "@));
    lemma_escaped_markup(html::shown_subject(m.subject));
    lemma_escaped_markup(m.from);
    lemma_escaped_markup(m.body);
    law_identifier_holds_no_markup(m.id);
    let s1 = "<tr><td>"@ + to;
    lemma_markup_sum("<tr><td>"@, to);
    let s2 = s1 + "</td><td>"@;
    lemma_markup_sum(s1, "</td><td>"@);
    let s3 = s2 + subject;
    lemma_markup_sum(s2, subject);
    let s4 = s3 + "</td><td class=\"at\">"@;
    lemma_markup_sum(s3, "</td><td class=\"at\">"@);
    let s5 = s4 + at;
    lemma_markup_sum(s4, at);
    let head = "</td></tr><tr class=\"detail\"><td colspan=\"3\"><details><summary>from: "@;
    let s6 = s5 + head;
    lemma_markup_sum(s5, head);
    let s7 = s6 + from;
    lemma_markup_sum(s6, from);
    let s8 = s7 + "</summary><div class=\"full\">"@;
    lemma_markup_sum(s7, "</summary><div class=\"full\">"@);
    let s9 = s8 + body;
    lemma_markup_sum(s8, body);
    let s10 = s9 + "</div><div class=\"meta\">id: "@;
    lemma_markup_sum(s9, "</div><div class=\"meta\">id: "@);
    let s11 = s10 + id;
    lemma_markup_sum(s10, id);
    lemma_markup_sum(s11, "</div></details></td></tr>"@);
    assert(markup(html::row_of(m)) == row_markup_around(at));
}

/// What the messages say adds no markup to the table: whatever their
/// recipients, their subjects, their senders, their bodies and their
/// identifiers are, as many messages of the same times have the same tags.
pub proof fn law_content_adds_no_markup(a: Seq<EmailView>, b: Seq<EmailView>)
    requires
        a.len() == b.len(),
        forall|i: int| 0 <= i < a.len() ==> (#[trigger] a[i]).received_at == b[i].received_at,
    ensures
        markup(html::rows_of(a)) == markup(html::rows_of(b)),
        markup(html::table_of(a)) == markup(html::table_of(b)),
    decreases a.len(),
{
    if a.len() > 0 {
        let p = a.drop_last();
        let q = b.drop_last();
        assert forall|i: int| 0 <= i < p.len() implies (#[trigger] p[i]).received_at
            == q[i].received_at by {
            assert(p[i] == a[i]);
        }
        law_content_adds_no_markup(p, q);
        assert(a[a.len() - 1].received_at == b[b.len() - 1].received_at);
        lemma_row_markup(a.last());
        lemma_row_markup(b.last());
        lemma_markup_sum(html::rows_of(p), html::row_of(a.last()));
        lemma_markup_sum(html::rows_of(q), html::row_of(b.last()));
    }
}

/// The tags of the table are the page's own, the same for each message: neither
/// what a message says nor its time nor its identifier adds any.
pub proof fn law_tags_are_those_of_the_page(items: Seq<EmailView>)
    requires
        html::times_are_shown(items),
    ensures
        markup(html::rows_of(items)) == rows_markup(items.len()),
    decreases items.len(),
{
    let none = Seq::<char>::empty();
    if items.len() == 0 {
        lemma_no_markup(none);
    } else {
        let init = items.drop_last();
        let m = items[items.len() - 1];
        assert forall|i: int| 0 <= i < init.len() implies outside::is_row_time(
            html::shown_time(#[trigger] init[i]),
            init[i].received_at.0,
            init[i].received_at.1,
        ) by {
            assert(init[i] == items[i]);
        }
        law_tags_are_those_of_the_page(init);
        law_time_holds_no_markup(html::shown_time(m), m.received_at.0, m.received_at.1);
        lemma_row_markup(m);
        assert(row_markup_around(html::shown_time(m)) == row_markup());
        lemma_markup_sum(html::rows_of(init), html::row_of(m));
    }
}

/// The rows of two lists of messages are those of the one, then those of the
/// other: every message has its row.
pub proof fn law_rows_distribute(a: Seq<EmailView>, b: Seq<EmailView>)
    ensures
        html::rows_of(a + b) == html::rows_of(a) + html::rows_of(b),
    decreases b.len(),
{
    if b.len() == 0 {
        assert(a + b == a);
        assert(html::rows_of(a) + html::rows_of(b) == html::rows_of(a));
    } else {
        law_rows_distribute(a, b.drop_last());
        assert((a + b).drop_last() == a + b.drop_last());
        assert((a + b).last() == b.last());
        assert(html::rows_of(a) + html::rows_of(b) == html::rows_of(a) + html::rows_of(
            b.drop_last(),
        ) + html::row_of(b.last()));
    }
}

/// The page says that there is no mail exactly where there is none to show.
pub proof fn law_empty_row_means_no_mail(items: Seq<EmailView>)
    ensures
        html::table_of(items) == html::empty_row() <==> items.len() == 0,
{
    if items.len() > 0 {
        let first = seq![items[0]];
        let rest = items.drop_first();
        assert(first + rest == items);
        law_rows_distribute(first, rest);
        assert(first.drop_last() == Seq::<EmailView>::empty());
        assert(html::rows_of(first.drop_last()) == Seq::<char>::empty());
        assert(html::rows_of(first) == html::row_of(items[0]));
        reveal_strlit("<tr><td>");
        reveal_strlit(
            "<tr><td colspan=\"3\" class=\"empty\">No mail yet — point an SMTP client at :1025 and it lands here.</td></tr>",
        );
        assert(html::row_of(items[0])[7] == '>');
        assert(html::rows_of(items)[7] == '>');
        assert(html::empty_row()[7] == ' ');
    }
}

/// After the inbox has been cleared, every search shows that there is no mail.
pub proof fn law_cleared_shows_no_mail(needle: Seq<char>)
    ensures
        html::table_of(search::found(Seq::empty(), needle)) == html::empty_row(),
        html::stats_of(0) == "<strong>0</strong> messages"@,
{
    let none = Seq::<EmailView>::empty();
    assert(search::newest_first(none) == none);
    none.lemma_filter_len(|m: EmailView| search::lowered(m).matches(needle));
    reveal_strlit("<strong>");
    reveal_strlit("</strong> ");
    reveal_strlit("messages");
    reveal_strlit("<strong>0</strong> messages");
    assert(text::decimal(0) == seq!['0']);
}

/// What stands in `s` behind the first `open`.
pub open spec fn behind(s: Seq<char>, open: Seq<char>) -> Seq<char>
    decreases s.len(),
{
    if s.len() == 0 {
        s
    } else if open.is_prefix_of(s) {
        s.skip(open.len() as int)
    } else {
        behind(s.drop_first(), open)
    }
}

/// What stands in `s` before the first `close`.
pub open spec fn up_to(s: Seq<char>, close: Seq<char>) -> Seq<char>
    decreases s.len(),
{
    if s.len() == 0 || close.is_prefix_of(s) {
        Seq::empty()
    } else {
        seq![s[0]] + up_to(s.drop_first(), close)
    }
}

/// What stands in `s` between the first `open` and the next `close`.
pub open spec fn between(s: Seq<char>, open: Seq<char>, close: Seq<char>) -> Seq<char> {
    up_to(behind(s, open), close)
}

/// Whether `open` starts at no `<` of `s`, as four of its characters show.
spec fn differs(s: Seq<char>, open: Seq<char>) -> bool {
    forall|i: int|
        0 <= i < s.len() && #[trigger] s[i] == '<' ==> {
            ||| i + 1 < s.len() && s[i + 1] != open[1]
            ||| i + 2 < s.len() && s[i + 2] != open[2]
            ||| i + 3 < s.len() && s[i + 3] != open[3]
            ||| open.len() > 12 && i + 12 < s.len() && s[i + 12] != open[12]
        }
}

proof fn lemma_passes(s: Seq<char>, rest: Seq<char>, open: Seq<char>)
    requires
        open.len() >= 4,
        open[0] == '<',
        differs(s, open),
    ensures
        behind(s + rest, open) == behind(rest, open),
    decreases s.len(),
{
    let all = s + rest;
    if s.len() == 0 {
        assert(all == rest);
    } else {
        let more = s.drop_first();
        assert(all[0] == s[0]);
        assert(!open.is_prefix_of(all)) by {
            if open.is_prefix_of(all) {
                let head = all.subrange(0, open.len() as int);
                assert(head[0] == s[0]);
                assert(head[1] == all[1] && head[2] == all[2] && head[3] == all[3]);
                if open.len() > 12 {
                    assert(head[12] == all[12]);
                }
            }
        }
        assert(differs(more, open)) by {
            assert forall|i: int| 0 <= i < more.len() && #[trigger] more[i] == '<' implies {
                ||| i + 1 < more.len() && more[i + 1] != open[1]
                ||| i + 2 < more.len() && more[i + 2] != open[2]
                ||| i + 3 < more.len() && more[i + 3] != open[3]
                ||| open.len() > 12 && i + 12 < more.len() && more[i + 12] != open[12]
            } by {
                assert(s[i + 1] == more[i]);
            }
        }
        lemma_passes(more, rest, open);
        assert(all.drop_first() == more + rest);
    }
}

proof fn lemma_behind(open: Seq<char>, rest: Seq<char>)
    requires
        open.len() > 0,
    ensures
        behind(open + rest, open) == rest,
{
    let all = open + rest;
    assert(all.subrange(0, open.len() as int) == open);
    assert(all.skip(open.len() as int) == rest);
}

proof fn lemma_up_to(e: Seq<char>, close: Seq<char>, rest: Seq<char>)
    requires
        close.len() > 0,
        close[0] == '<',
        text_laws::lacks(e, '<'),
    ensures
        up_to(e + (close + rest), close) == e,
    decreases e.len(),
{
    let all = e + (close + rest);
    if e.len() == 0 {
        assert(all == close + rest);
        assert(all.subrange(0, close.len() as int) == close);
    } else {
        let more = e.drop_first();
        assert(all[0] == e[0]);
        assert(!close.is_prefix_of(all)) by {
            if close.is_prefix_of(all) {
                assert(all.subrange(0, close.len() as int)[0] == all[0]);
            }
        }
        assert forall|i: int| 0 <= i < more.len() implies #[trigger] more[i] != '<' by {
            assert(more[i] == e[i + 1]);
        }
        lemma_up_to(more, close, rest);
        assert(all.drop_first() == more + (close + rest));
        assert(seq![e[0]] + more == e);
    }
}

proof fn lemma_escaped_lacks(s: Seq<char>)
    ensures
        text_laws::lacks(html::escaped(s), '<'),
{
    law_escaped_holds_no_markup(s);
    assert forall|i: int| 0 <= i < html::escaped(s).len() implies #[trigger] html::escaped(s)[i]
        != '<' by {
        assert(!is_markup(html::escaped(s)[i]));
    }
}

proof fn lemma_tags_differ()
    ensures
        ({
            let l1 = "<tr><td>"@;
            let l2 = "</td><td>"@;
            let l3 = "</td><td class=\"at\">"@;
            let h = "</td></tr><tr class=\"detail\"><td colspan=\"3\"><details>"@;
            let o3 = "<td class=\"at\">"@;
            let o4 = "<summary>from: "@;
            let o5 = "<div class=\"full\">"@;
            let o6 = "<div class=\"meta\">id: "@;
            &&& differs("<tr>"@, "<td>"@)
            &&& differs(l1, l2)
            &&& differs(l1, o3) && differs(l2, o3) && differs("</td>"@, o3)
            &&& differs(l1, o4) && differs(l2, o4) && differs(l3, o4) && differs(h, o4)
            &&& differs(l1, o5) && differs(l2, o5) && differs(l3, o5) && differs(h, o5) && differs(
                o4,
                o5,
            ) && differs("</summary>"@, o5)
            &&& differs(l1, o6) && differs(l2, o6) && differs(l3, o6) && differs(h, o6) && differs(
                o4,
                o6,
            ) && differs("</summary>"@, o6) && differs(o5, o6) && differs("</div>"@, o6)
        }),
{
    reveal_strlit("<tr>");
    reveal_strlit("<td>");
    reveal_strlit("</td>");
    reveal_strlit("</div>");
    reveal_strlit("</summary>");
    reveal_strlit("<tr><td>");
    reveal_strlit("</td><td>");
    reveal_strlit("</td><td class=\"at\">");
    reveal_strlit("</td></tr><tr class=\"detail\"><td colspan=\"3\"><details>");
    reveal_strlit("<td class=\"at\">");
    reveal_strlit("<summary>from: ");
    reveal_strlit("<div class=\"full\">");
    reveal_strlit("<div class=\"meta\">id: ");
}

/// The page's own text in a row, as the tags that its parts stand between.
proof fn lemma_tags()
    ensures
        "<tr><td>"@ == "<tr>"@ + "<td>"@,
        "</td><td>"@ == "</td>"@ + "<td>"@,
        "</td><td class=\"at\">"@ == "</td>"@ + "<td class=\"at\">"@,
        "</td></tr><tr class=\"detail\"><td colspan=\"3\"><details><summary>from: "@
            == "</td></tr><tr class=\"detail\"><td colspan=\"3\"><details>"@
            + "<summary>from: "@,
        "</td></tr><tr class=\"detail\"><td colspan=\"3\"><details>"@ == "</td>"@
            + "</tr><tr class=\"detail\"><td colspan=\"3\"><details>"@,
        "</summary><div class=\"full\">"@ == "</summary>"@ + "<div class=\"full\">"@,
        "</div><div class=\"meta\">id: "@ == "</div>"@ + "<div class=\"meta\">id: "@,
        "</div></details></td></tr>"@ == "</div>"@ + "</details></td></tr>"@,
        is_tag("<td>"@) && is_tag("</td>"@) && is_tag("</td><td>"@),
        is_tag("<td class=\"at\">"@) && is_tag("<summary>from: "@) && is_tag("</summary>"@),
        is_tag("<div class=\"full\">"@) && is_tag("</div>"@),
        is_tag("<div class=\"meta\">id: "@),
{
    reveal_strlit("<tr>");
    reveal_strlit("<td>");
    reveal_strlit("</td>");
    reveal_strlit("</div>");
    reveal_strlit("</summary>");
    reveal_strlit("<tr><td>");
    reveal_strlit("</td><td>");
    reveal_strlit("</td><td class=\"at\">");
    reveal_strlit("</td></tr><tr class=\"detail\"><td colspan=\"3\"><details>");
    reveal_strlit("</tr><tr class=\"detail\"><td colspan=\"3\"><details>");
    reveal_strlit("</td></tr><tr class=\"detail\"><td colspan=\"3\"><details><summary>from: ");
    reveal_strlit("<td class=\"at\">");
    reveal_strlit("<summary>from: ");
    reveal_strlit("<div class=\"full\">");
    reveal_strlit("</summary><div class=\"full\">");
    reveal_strlit("<div class=\"meta\">id: ");
    reveal_strlit("</div><div class=\"meta\">id: ");
    reveal_strlit("</details></td></tr>");
    reveal_strlit("</div></details></td></tr>");
}

/// Whether `s` starts with `<` and has at least four characters.
spec fn is_tag(s: Seq<char>) -> bool {
    s.len() >= 4 && s[0] == '<'
}

proof fn lemma_assoc(a: Seq<char>, b: Seq<char>, c: Seq<char>)
    ensures
        (a + b) + c == a + (b + c),
{
    assert((a + b) + c == a + (b + c));
}

/// What a row holds from its body on.
spec fn from_body(m: EmailView, id: Seq<char>) -> Seq<char> {
    html::escaped(m.body) + ("</div>"@ + ("<div class=\"meta\">id: "@ + (id + ("</div>"@
        + "</details></td></tr>"@))))
}

/// What a row holds from its sender on.
spec fn from_sender(m: EmailView, id: Seq<char>) -> Seq<char> {
    html::escaped(m.from) + ("</summary>"@ + ("<div class=\"full\">"@ + from_body(m, id)))
}

/// What a row holds from its time on.
spec fn from_time(m: EmailView, at: Seq<char>, id: Seq<char>) -> Seq<char> {
    at + ("</td></tr><tr class=\"detail\"><td colspan=\"3\"><details>"@ + ("<summary>from: "@
        + from_sender(m, id)))
}

/// A row, part by part.
spec fn whole_row(m: EmailView, at: Seq<char>, id: Seq<char>) -> Seq<char> {
    "<tr><td>"@ + (html::escaped(text::join(m.to, ", "@)) + ("</td><td>"@ + (html::escaped(
        html::shown_subject(m.subject),
    ) + ("</td>"@ + ("<td class=\"at\">"@ + from_time(m, at, id))))))
}

proof fn lemma_whole_row(m: EmailView, at: Seq<char>, id: Seq<char>)
    ensures
        html::row(m, at, id) == whole_row(m, at, id),
{
    lemma_tags();
    let p1 = "<tr><td>"@;
    let p2 = html::escaped(text::join(m.to, ", "@));
    let p3 = "</td><td>"@;
    let p4 = html::escaped(html::shown_subject(m.subject));
    let p5 = "</td><td class=\"at\">"@;
    let p7 = "</td></tr><tr class=\"detail\"><td colspan=\"3\"><details><summary>from: "@;
    let p8 = html::escaped(m.from);
    let p9 = "</summary><div class=\"full\">"@;
    let p10 = html::escaped(m.body);
    let p11 = "</div><div class=\"meta\">id: "@;
    let p13 = "</div></details></td></tr>"@;
    let x2 = p1 + p2;
    let x3 = x2 + p3;
    let x4 = x3 + p4;
    let x5 = x4 + p5;
    let x6 = x5 + at;
    let x7 = x6 + p7;
    let x8 = x7 + p8;
    let x9 = x8 + p9;
    let x10 = x9 + p10;
    let x11 = x10 + p11;
    lemma_assoc(x11, id, p13);
    let t12 = id + p13;
    lemma_assoc(x10, p11, t12);
    lemma_assoc("</div>"@, "<div class=\"meta\">id: "@, t12);
    let t11 = p11 + t12;
    lemma_assoc(x9, p10, t11);
    let t10 = p10 + t11;
    assert(t10 == from_body(m, id));
    lemma_assoc(x8, p9, t10);
    lemma_assoc("</summary>"@, "<div class=\"full\">"@, t10);
    let t9 = p9 + t10;
    lemma_assoc(x7, p8, t9);
    let t8 = p8 + t9;
    assert(t8 == from_sender(m, id));
    lemma_assoc(x6, p7, t8);
    lemma_assoc(
        "</td></tr><tr class=\"detail\"><td colspan=\"3\"><details>"@,
        "<summary>from: "@,
        t8,
    );
    let t7 = p7 + t8;
    lemma_assoc(x5, at, t7);
    let t6 = at + t7;
    assert(t6 == from_time(m, at, id));
    lemma_assoc(x4, p5, t6);
    lemma_assoc("</td>"@, "<td class=\"at\">"@, t6);
    let t5 = p5 + t6;
    lemma_assoc(x3, p4, t5);
    let t4 = p4 + t5;
    lemma_assoc(x2, p3, t4);
    let t3 = p3 + t4;
    lemma_assoc(p1, p2, t3);
}

proof fn lemma_first_cells(m: EmailView, at: Seq<char>, id: Seq<char>)
    ensures
        between(whole_row(m, at, id), "<td>"@, "</td>"@) == html::escaped(
            text::join(m.to, ", "@),
        ),
        between(whole_row(m, at, id), "</td><td>"@, "</td>"@) == html::escaped(
            html::shown_subject(m.subject),
        ),
{
    lemma_tags();
    lemma_tags_differ();
    lemma_escaped_lacks(text::join(m.to, ", "@));
    lemma_escaped_lacks(html::shown_subject(m.subject));
    let e1 = html::escaped(text::join(m.to, ", "@));
    let e2 = html::escaped(html::shown_subject(m.subject));
    let t3 = "<td class=\"at\">"@ + from_time(m, at, id);
    let t2 = e2 + ("</td>"@ + t3);
    let t1 = e1 + ("</td><td>"@ + t2);
    lemma_assoc("<tr>"@, "<td>"@, t1);
    lemma_passes("<tr>"@, "<td>"@ + t1, "<td>"@);
    lemma_behind("<td>"@, t1);
    lemma_assoc("</td>"@, "<td>"@, t2);
    lemma_up_to(e1, "</td>"@, "<td>"@ + t2);
    lemma_passes("<tr><td>"@, t1, "</td><td>"@);
    lemma_passes(e1, "</td><td>"@ + t2, "</td><td>"@);
    lemma_behind("</td><td>"@, t2);
    lemma_up_to(e2, "</td>"@, t3);
}

/// A tag that differs from those before the time of a row is looked for from
/// there on.
proof fn lemma_to_time(m: EmailView, at: Seq<char>, id: Seq<char>, open: Seq<char>)
    requires
        is_tag(open),
        differs("<tr><td>"@, open),
        differs("</td><td>"@, open),
        differs("</td><td class=\"at\">"@, open),
    ensures
        behind(whole_row(m, at, id), open) == behind(from_time(m, at, id), open),
{
    lemma_tags();
    lemma_escaped_lacks(text::join(m.to, ", "@));
    lemma_escaped_lacks(html::shown_subject(m.subject));
    let e1 = html::escaped(text::join(m.to, ", "@));
    let e2 = html::escaped(html::shown_subject(m.subject));
    let t = from_time(m, at, id);
    let t3 = "</td><td class=\"at\">"@ + t;
    lemma_assoc("</td>"@, "<td class=\"at\">"@, t);
    let t2 = e2 + t3;
    let t1 = e1 + ("</td><td>"@ + t2);
    lemma_passes("<tr><td>"@, t1, open);
    lemma_passes(e1, "</td><td>"@ + t2, open);
    lemma_passes("</td><td>"@, t2, open);
    lemma_passes(e2, t3, open);
    lemma_passes("</td><td class=\"at\">"@, t, open);
}

proof fn lemma_time_cell(m: EmailView, at: Seq<char>, id: Seq<char>)
    requires
        text_laws::lacks(at, '<'),
    ensures
        between(whole_row(m, at, id), "<td class=\"at\">"@, "</td>"@) == at,
{
    lemma_tags();
    lemma_tags_differ();
    lemma_escaped_lacks(text::join(m.to, ", "@));
    lemma_escaped_lacks(html::shown_subject(m.subject));
    let open = "<td class=\"at\">"@;
    let e1 = html::escaped(text::join(m.to, ", "@));
    let e2 = html::escaped(html::shown_subject(m.subject));
    let t = from_time(m, at, id);
    let t3 = open + t;
    let t2 = e2 + ("</td>"@ + t3);
    let t1 = e1 + ("</td><td>"@ + t2);
    lemma_passes("<tr><td>"@, t1, open);
    lemma_passes(e1, "</td><td>"@ + t2, open);
    lemma_passes("</td><td>"@, t2, open);
    lemma_passes(e2, "</td>"@ + t3, open);
    lemma_passes("</td>"@, t3, open);
    lemma_behind(open, t);
    let rest = "<summary>from: "@ + from_sender(m, id);
    lemma_assoc("</td>"@, "</tr><tr class=\"detail\"><td colspan=\"3\"><details>"@, rest);
    lemma_up_to(
        at,
        "</td>"@,
        "</tr><tr class=\"detail\"><td colspan=\"3\"><details>"@ + rest,
    );
}

proof fn lemma_details(m: EmailView, at: Seq<char>, id: Seq<char>)
    requires
        text_laws::lacks(at, '<'),
        text_laws::lacks(id, '<'),
    ensures
        between(whole_row(m, at, id), "<summary>from: "@, "</summary>"@) == html::escaped(m.from),
        between(whole_row(m, at, id), "<div class=\"full\">"@, "</div>"@) == html::escaped(m.body),
        between(whole_row(m, at, id), "<div class=\"meta\">id: "@, "</div>"@) == id,
{
    lemma_tags();
    lemma_tags_differ();
    lemma_escaped_lacks(m.from);
    lemma_escaped_lacks(m.body);
    let h = "</td></tr><tr class=\"detail\"><td colspan=\"3\"><details>"@;
    let o4 = "<summary>from: "@;
    let o5 = "<div class=\"full\">"@;
    let o6 = "<div class=\"meta\">id: "@;
    let e4 = html::escaped(m.from);
    let e5 = html::escaped(m.body);
    let t6 = id + ("</div>"@ + "</details></td></tr>"@);
    let t5 = from_body(m, id);
    let t4 = from_sender(m, id);

    lemma_to_time(m, at, id, o4);
    lemma_passes(at, h + (o4 + t4), o4);
    lemma_passes(h, o4 + t4, o4);
    lemma_behind(o4, t4);
    lemma_up_to(e4, "</summary>"@, o5 + t5);

    lemma_to_time(m, at, id, o5);
    lemma_passes(at, h + (o4 + t4), o5);
    lemma_passes(h, o4 + t4, o5);
    lemma_passes(o4, t4, o5);
    lemma_passes(e4, "</summary>"@ + (o5 + t5), o5);
    lemma_passes("</summary>"@, o5 + t5, o5);
    lemma_behind(o5, t5);
    lemma_up_to(e5, "</div>"@, o6 + t6);

    lemma_to_time(m, at, id, o6);
    lemma_passes(at, h + (o4 + t4), o6);
    lemma_passes(h, o4 + t4, o6);
    lemma_passes(o4, t4, o6);
    lemma_passes(e4, "</summary>"@ + (o5 + t5), o6);
    lemma_passes("</summary>"@, o5 + t5, o6);
    lemma_passes(o5, t5, o6);
    lemma_passes(e5, "</div>"@ + (o6 + t6), o6);
    lemma_passes("</div>"@, o6 + t6, o6);
    lemma_behind(o6, t6);
    lemma_up_to(id, "</div>"@, "</details></td></tr>"@);
}

/// Each part of a message is shown in its place, where a reader of the page
/// finds it: the recipients in the first cell, the subject in the second, the
/// time in the third, and below them the sender, the body and the identifier.
/// What is escaped is shown as the text that it was.
pub proof fn law_fields_in_their_places(m: EmailView, at: Seq<char>, id: Seq<char>)
    requires
        text_laws::lacks(at, '<'),
        text_laws::lacks(id, '<'),
    ensures
        ({
            let r = html::row(m, at, id);
            &&& unescaped(between(r, "<td>"@, "</td>"@)) == text::join(m.to, ", "@)
            &&& unescaped(between(r, "</td><td>"@, "</td>"@)) == (if m.subject.len() == 0 {
                "(no subject)"@
            } else {
                m.subject
            })
            &&& between(r, "<td class=\"at\">"@, "</td>"@) == at
            &&& unescaped(between(r, "<summary>from: "@, "</summary>"@)) == m.from
            &&& unescaped(between(r, "<div class=\"full\">"@, "</div>"@)) == m.body
            &&& between(r, "<div class=\"meta\">id: "@, "</div>"@) == id
        }),
{
    lemma_whole_row(m, at, id);
    lemma_first_cells(m, at, id);
    lemma_time_cell(m, at, id);
    lemma_details(m, at, id);
    law_escape_is_undone(text::join(m.to, ", "@));
    law_escape_is_undone(html::shown_subject(m.subject));
    law_escape_is_undone(m.from);
    law_escape_is_undone(m.body);
}

/// The row of a message in the table shows its recipients, its subject, its
/// time, its sender, its body and its identifier, each in its place.
pub proof fn law_row_shows_its_message(m: EmailView)
    requires
        outside::is_row_time(html::shown_time(m), m.received_at.0, m.received_at.1),
    ensures
        ({
            let r = html::row_of(m);
            &&& unescaped(between(r, "<td>"@, "</td>"@)) == text::join(m.to, ", "@)
            &&& unescaped(between(r, "</td><td>"@, "</td>"@)) == (if m.subject.len() == 0 {
                "(no subject)"@
            } else {
                m.subject
            })
            &&& between(r, "<td class=\"at\">"@, "</td>"@) == outside::utc_text(
                m.received_at.0,
                m.received_at.1,
                "%d %b %H:%M:%S"@,
            )
            &&& unescaped(between(r, "<summary>from: "@, "</summary>"@)) == m.from
            &&& unescaped(between(r, "<div class=\"full\">"@, "</div>"@)) == m.body
            &&& between(r, "<div class=\"meta\">id: "@, "</div>"@) == outside::hyphenated(m.id)
        }),
{
    let at = html::shown_time(m);
    let id = outside::hyphenated(m.id);
    lemma_time_chars(at, m.received_at.0, m.received_at.1);
    law_identifier_holds_no_markup(m.id);
    assert forall|i: int| 0 <= i < at.len() implies #[trigger] at[i] != '<' by {
        assert(!is_markup(at[i]));
    }
    assert forall|i: int| 0 <= i < id.len() implies #[trigger] id[i] != '<' by {
        assert(is_hex_digit(id[i]) || id[i] == '-');
    }
    law_fields_in_their_places(m, at, id);
}

/// A row holds nothing but the page's own text and the parts of its message: it
/// is always the same text with those filled in.
pub proof fn law_row_is_filled_in(m: EmailView, at: Seq<char>, id: Seq<char>)
    ensures
        html::row(m, at, id) == "<tr><td>"@ + html::escaped(text::join(m.to, ", "@))
            + "</td><td>"@ + html::escaped(html::shown_subject(m.subject))
            + "</td><td class=\"at\">"@ + at
            + "</td></tr><tr class=\"detail\"><td colspan=\"3\"><details><summary>from: "@
            + html::escaped(m.from) + "</summary><div class=\"full\">"@ + html::escaped(m.body)
            + "</div><div class=\"meta\">id: "@ + id + "</div></details></td></tr>"@,
        m.subject.len() > 0 ==> html::shown_subject(m.subject) == m.subject,
        html::shown_subject(Seq::empty()) == "(no subject)"@,
{
}

/// Rows of messages that differ in what they show are different.
pub proof fn law_different_messages_look_different(
    a: EmailView,
    b: EmailView,
    at: Seq<char>,
    id: Seq<char>,
)
    requires
        text_laws::lacks(at, '<'),
        text_laws::lacks(id, '<'),
        html::row(a, at, id) == html::row(b, at, id),
    ensures
        a.from == b.from,
        a.body == b.body,
        text::join(a.to, ", "@) == text::join(b.to, ", "@),
        html::shown_subject(a.subject) == html::shown_subject(b.subject),
{
    law_fields_in_their_places(a, at, id);
    law_fields_in_their_places(b, at, id);
}

/// Each of the four characters has its entity, wherever it stands.
pub proof fn law_escape_of_each(a: Seq<char>, c: char, b: Seq<char>)
    ensures
        html::escaped(a + seq![c] + b) == html::escaped(a) + html::escaped(seq![c])
            + html::escaped(b),
        html::escaped(seq!['&']) == "&amp;"@,
        html::escaped(seq!['<']) == "&lt;"@,
        html::escaped(seq!['>']) == "&gt;"@,
        html::escaped(seq!['"']) == "&quot;"@,
        c != '&' && c != '<' && c != '>' && c != '"' ==> html::escaped(seq![c]) == seq![c],
        html::escaped(Seq::empty()) == Seq::<char>::empty(),
{
    law_escape_distributes(a + seq![c], b);
    law_escape_distributes(a, seq![c]);
    lemma_escaped_one('&');
    lemma_escaped_one('<');
    lemma_escaped_one('>');
    lemma_escaped_one('"');
    lemma_escaped_one(c);
}

proof fn lemma_escaped_one(c: char)
    ensures
        html::escaped(seq![c]) == html::escaped_char(c),
{
    assert(seq![c].drop_last() == Seq::<char>::empty());
    assert(html::escaped(seq![c].drop_last()) == Seq::<char>::empty());
    assert(html::escaped(seq![c]) == html::escaped_char(c));
}

/// The table is the rows of its messages, or the one row that says that there
/// is no mail.
pub proof fn law_table_is_its_rows(items: Seq<EmailView>, m: EmailView)
    ensures
        html::rows_of(Seq::empty()) == Seq::<char>::empty(),
        html::rows_of(seq![m]) == html::row_of(m),
        items.len() > 0 ==> html::table_of(items) == html::rows_of(items),
        html::table_of(Seq::empty())
            == "<tr><td colspan=\"3\" class=\"empty\">No mail yet — point an SMTP client at :1025 and it lands here.</td></tr>"@,
{
    assert(seq![m].drop_last() == Seq::<EmailView>::empty());
    assert(html::rows_of(seq![m].drop_last()) == Seq::<char>::empty());
    assert(html::rows_of(seq![m]) == html::row_of(m));
}

/// The head of the page says how many messages there are, and says `message`
/// of a single one and `messages` of any other number.
pub proof fn law_stats_say_how_many(n: nat)
    ensures
        html::stats_of(1) == "<strong>1</strong> message"@,
        n != 1 ==> html::stats_of(n) == "<strong>"@ + text::decimal(n) + "</strong> messages"@,
{
    reveal_strlit("<strong>");
    reveal_strlit("</strong> ");
    reveal_strlit("message");
    reveal_strlit("messages");
    reveal_strlit("</strong> messages");
    reveal_strlit("<strong>1</strong> message");
    text_laws::law_decimal_digits(0, 1);
    assert(text::decimal(1) == seq!['1']);
    assert(html::stats_of(1) == "<strong>1</strong> message"@);
    assert("</strong> messages"@ == "</strong> "@ + "messages"@);
    if n != 1 {
        assert(html::stats_of(n) == "<strong>"@ + text::decimal(n) + ("</strong> "@
            + "messages"@));
    }
}

/// The number that hexadecimal digits write.
pub open spec fn hex_value(s: Seq<char>) -> nat
    decreases s.len(),
{
    if s.len() == 0 {
        0
    } else {
        16 * hex_value(s.drop_last()) + (if s.last() <= '9' {
            (s.last() as int - 48) as nat
        } else {
            (s.last() as int - 87) as nat
        })
    }
}

spec fn power_of_16(n: nat) -> nat
    decreases n,
{
    if n == 0 {
        1
    } else {
        16 * power_of_16((n - 1) as nat)
    }
}

proof fn lemma_hex_value(n: nat, len: nat)
    requires
        n < power_of_16(len),
    ensures
        hex_value(outside::hex(n, len)) == n,
    decreases len,
{
    if len > 0 {
        let init = outside::hex(n / 16, (len - 1) as nat);
        lemma_hex_value(n / 16, (len - 1) as nat);
        assert(outside::hex(n, len).drop_last() == init);
    }
}

/// The text of an identifier has hyphens behind its first 8 digits and behind
/// each of the next three groups of 4, and its digits write the identifier.
pub proof fn law_identifier_is_read_back(id: u128)
    ensures
        ({
            let s = outside::hyphenated(id);
            &&& s[8] == '-' && s[13] == '-' && s[18] == '-' && s[23] == '-'
            &&& hex_value(
                s.subrange(0, 8) + s.subrange(9, 13) + s.subrange(14, 18) + s.subrange(19, 23)
                    + s.subrange(24, 36),
            ) == id
        }),
{
    let s = outside::hyphenated(id);
    let d = outside::hex(id as nat, 32);
    lemma_hex(id as nat, 32);
    reveal_with_fuel(power_of_16, 33);
    lemma_hex_value(id as nat, 32);
    assert(s.subrange(0, 8) + s.subrange(9, 13) + s.subrange(14, 18) + s.subrange(19, 23)
        + s.subrange(24, 36) == d);
}

} // verus!
