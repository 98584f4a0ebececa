//! Laws of the order of messages and of the search.

use vstd::prelude::*;

use crate::inbox::EmailView;
use crate::laws::text as text_laws;
use crate::outside;
use crate::search;
use crate::search::{RowsQuery, SearchText, SearchTextView};
use crate::text;

verus! {

/// Whether no message of a list is followed by a newer one.
pub open spec fn is_newest_first(s: Seq<EmailView>) -> bool {
    forall|i: int, j: int|
        0 <= i < j < s.len() ==> !search::earlier(
            (#[trigger] s[i]).received_at,
            (#[trigger] s[j]).received_at,
        )
}

/// The number of messages at the head of a list that are newer than `m`.
spec fn newer_before(list: Seq<EmailView>, m: EmailView) -> nat
    decreases list.len(),
{
    if list.len() > 0 && search::earlier(m.received_at, list[0].received_at) {
        1 + newer_before(list.drop_first(), m)
    } else {
        0
    }
}

proof fn lemma_newer_before(list: Seq<EmailView>, m: EmailView)
    ensures
        newer_before(list, m) <= list.len(),
        forall|i: int|
            0 <= i < newer_before(list, m) ==> search::earlier(
                m.received_at,
                (#[trigger] list[i]).received_at,
            ),
        newer_before(list, m) < list.len() ==> !search::earlier(
            m.received_at,
            list[newer_before(list, m) as int].received_at,
        ),
        search::placed(list, m) == list.insert(newer_before(list, m) as int, m),
    decreases list.len(),
{
    if list.len() > 0 && search::earlier(m.received_at, list[0].received_at) {
        let rest = list.drop_first();
        lemma_newer_before(rest, m);
        assert forall|i: int| 0 <= i < newer_before(list, m) implies search::earlier(
            m.received_at,
            (#[trigger] list[i]).received_at,
        ) by {
            if i > 0 {
                assert(rest[i - 1] == list[i]);
            }
        }
    }
    search::lemma_placed(list, m, newer_before(list, m) as int);
}

/// The messages stand newest first.
pub proof fn law_order_is_newest_first(s: Seq<EmailView>)
    ensures
        is_newest_first(search::newest_first(s)),
    decreases s.len(),
{
    if s.len() > 0 {
        let list = search::newest_first(s.drop_first());
        law_order_is_newest_first(s.drop_first());
        lemma_newer_before(list, s[0]);
        let at = newer_before(list, s[0]) as int;
        let r = list.insert(at, s[0]);
        assert forall|i: int, j: int| 0 <= i < j < r.len() implies !search::earlier(
            (#[trigger] r[i]).received_at,
            (#[trigger] r[j]).received_at,
        ) by {
            let old_i = if i < at {
                i
            } else {
                i - 1
            };
            let old_j = if j < at {
                j
            } else {
                j - 1
            };
            if i == at {
                assert(r[j] == list[j - 1]);
                assert(!search::earlier(s[0].received_at, list[at].received_at));
                if j - 1 > at {
                    assert(!search::earlier(list[at].received_at, list[j - 1].received_at));
                }
            } else if j == at {
                assert(r[i] == list[i]);
            } else {
                assert(r[i] == list[old_i]);
                assert(r[j] == list[old_j]);
            }
        }
    }
}

/// Ordering the messages neither loses nor adds one.
pub proof fn law_order_is_permutation(s: Seq<EmailView>)
    ensures
        search::newest_first(s).to_multiset() == s.to_multiset(),
        search::newest_first(s).len() == s.len(),
        forall|m: EmailView| #[trigger] search::newest_first(s).contains(m) <==> s.contains(m),
    decreases s.len(),
{
    if s.len() > 0 {
        let rest = s.drop_first();
        let list = search::newest_first(rest);
        law_order_is_permutation(rest);
        lemma_newer_before(list, s[0]);
        let at = newer_before(list, s[0]) as int;
        let r = list.insert(at, s[0]);
        r.to_multiset_ensures();
        s.to_multiset_ensures();
        assert(r.remove(at) == list);
        assert(s.remove(0) == rest);
        assert(r[at] == s[0]);
        assert(r.contains(s[0]));
        assert(s.contains(s[0]));
        assert(r.to_multiset() == list.to_multiset().insert(s[0]));
        assert(s.to_multiset() == rest.to_multiset().insert(s[0]));
    }
    let r = search::newest_first(s);
    r.to_multiset_ensures();
    s.to_multiset_ensures();
    assert forall|m: EmailView| #[trigger] r.contains(m) <==> s.contains(m) by {
        assert(r.to_multiset().count(m) == s.to_multiset().count(m));
    }
}

/// Messages of the same time stay in the order in which they came.
pub proof fn law_order_is_stable(s: Seq<EmailView>, at: (i64, u32))
    ensures
        search::newest_first(s).filter(|m: EmailView| m.received_at == at) == s.filter(
            |m: EmailView| m.received_at == at,
        ),
    decreases s.len(),
{
    let p = |m: EmailView| m.received_at == at;
    if s.len() > 0 {
        let rest = s.drop_first();
        law_order_is_stable(rest, at);
        lemma_placed_filter(search::newest_first(rest), s[0], at);
        assert(seq![s[0]] + rest == s);
        rest.lemma_filter_prepend(s[0], p);
    }
}

proof fn lemma_placed_filter(list: Seq<EmailView>, m: EmailView, at: (i64, u32))
    ensures
        search::placed(list, m).filter(|m: EmailView| m.received_at == at) == (if m.received_at
            == at {
            seq![m]
        } else {
            Seq::empty()
        }) + list.filter(|m: EmailView| m.received_at == at),
    decreases list.len(),
{
    let p = |m: EmailView| m.received_at == at;
    if list.len() > 0 && search::earlier(m.received_at, list[0].received_at) {
        let rest = list.drop_first();
        lemma_placed_filter(rest, m, at);
        search::placed(rest, m).lemma_filter_prepend(list[0], p);
        assert(seq![list[0]] + rest == list);
        rest.lemma_filter_prepend(list[0], p);
    } else {
        list.lemma_filter_prepend(m, p);
    }
}

/// Where each message is newer than the one before it, the order is that of
/// arrival reversed.
pub proof fn law_order_reverses_arrival(s: Seq<EmailView>)
    requires
        forall|i: int, j: int|
            0 <= i < j < s.len() ==> search::earlier(
                (#[trigger] s[i]).received_at,
                (#[trigger] s[j]).received_at,
            ),
    ensures
        search::newest_first(s) == s.reverse(),
    decreases s.len(),
{
    if s.len() > 0 {
        let rest = s.drop_first();
        assert forall|i: int, j: int| 0 <= i < j < rest.len() implies search::earlier(
            (#[trigger] rest[i]).received_at,
            (#[trigger] rest[j]).received_at,
        ) by {
            assert(rest[i] == s[i + 1]);
            assert(rest[j] == s[j + 1]);
        }
        law_order_reverses_arrival(rest);
        let list = rest.reverse();
        assert forall|i: int| 0 <= i < list.len() implies search::earlier(
            s[0].received_at,
            (#[trigger] list[i]).received_at,
        ) by {
            assert(list[i] == s[s.len() - 1 - i]);
        }
        search::lemma_placed(list, s[0], list.len() as int);
        assert(list.insert(list.len() as int, s[0]) == s.reverse());
    }
}

/// A search finds the messages of the inbox that match it, and no others.
pub proof fn law_search_is_exact(s: Seq<EmailView>, needle: Seq<char>, m: EmailView)
    ensures
        search::found(s, needle).contains(m) <==> s.contains(m) && search::lowered(m).matches(
            needle,
        ),
{
    let all = search::newest_first(s);
    let p = |m: EmailView| search::lowered(m).matches(needle);
    let r = all.filter(p);
    law_order_is_permutation(s);
    if r.contains(m) {
        all.lemma_filter_contains_rev(p, m);
        let i = choose|i: int| 0 <= i < r.len() && r[i] == m;
        all.lemma_filter_pred(p, i);
    }
    if all.contains(m) && p(m) {
        let i = choose|i: int| 0 <= i < all.len() && all[i] == m;
        all.lemma_filter_contains(p, i);
    }
}

proof fn lemma_filter_keeps_order(s: Seq<EmailView>, p: spec_fn(EmailView) -> bool)
    requires
        is_newest_first(s),
    ensures
        is_newest_first(s.filter(p)),
    decreases s.len(),
{
    reveal(Seq::filter);
    if s.len() > 0 {
        let init = s.drop_last();
        lemma_filter_keeps_order(init, p);
        let r = s.filter(p);
        assert forall|i: int, j: int| 0 <= i < j < r.len() implies !search::earlier(
            (#[trigger] r[i]).received_at,
            (#[trigger] r[j]).received_at,
        ) by {
            let before = init.filter(p);
            if j < before.len() {
                assert(r[i] == before[i]);
                assert(r[j] == before[j]);
            } else {
                assert(r[j] == s.last());
                assert(r[i] == before[i]);
                assert(before.contains(r[i]));
                init.lemma_filter_contains_rev(p, r[i]);
                let k = choose|k: int| 0 <= k < init.len() && init[k] == r[i];
                assert(s[k] == r[i]);
            }
        }
    }
}

/// What a search finds stands newest first.
pub proof fn law_search_keeps_order(s: Seq<EmailView>, needle: Seq<char>)
    ensures
        is_newest_first(search::found(s, needle)),
{
    law_order_is_newest_first(s);
    lemma_filter_keeps_order(
        search::newest_first(s),
        |m: EmailView| search::lowered(m).matches(needle),
    );
}

proof fn lemma_filter_all(s: Seq<EmailView>, p: spec_fn(EmailView) -> bool)
    requires
        forall|m: EmailView| #[trigger] p(m),
    ensures
        s.filter(p) == s,
    decreases s.len(),
{
    reveal(Seq::filter);
    if s.len() > 0 {
        lemma_filter_all(s.drop_last(), p);
        assert(s.drop_last().push(s.last()) == s);
        assert(p(s.last()));
    }
}

/// Without a text to search for, the whole inbox is shown.
pub proof fn law_no_query_shows_all(s: Seq<EmailView>)
    ensures
        search::found(s, search::needle_of(None)) == search::newest_first(s),
{
    let needle = Seq::<char>::empty();
    lemma_filter_all(
        search::newest_first(s),
        |m: EmailView| search::lowered(m).matches(needle),
    );
}

/// The search is case-insensitive: two queries with the same lower case find
/// the same messages.
pub proof fn law_query_in_any_case(s: Seq<EmailView>, p: Seq<char>, q: Seq<char>)
    requires
        outside::unicode_lowercase(p) == outside::unicode_lowercase(q),
    ensures
        search::found(s, search::needle_of(Some(p))) == search::found(
            s,
            search::needle_of(Some(q)),
        ),
{
}

/// Two queries in ASCII that differ only in the case of their letters find the
/// same messages, whatever the messages hold; and so they do where the messages
/// are searched by their ASCII letters alone.
pub proof fn law_ascii_query_in_any_case(s: Seq<EmailView>, p: Seq<char>, q: Seq<char>)
    requires
        text::ascii_lower(p) == text::ascii_lower(q),
    ensures
        search::found(s, text::ascii_lower(p)) == search::found(s, text::ascii_lower(q)),
        search::ascii_found(s, p) == search::ascii_found(s, q),
{
}

proof fn lemma_lower_has_text(hay: Seq<char>, needle: Seq<char>)
    requires
        text::has_text(hay, needle),
    ensures
        text::has_text(text::ascii_lower(hay), text::ascii_lower(needle)),
{
    let i = choose|i: int|
        0 <= i <= hay.len() - needle.len() && #[trigger] hay.subrange(i, i + needle.len())
            == needle;
    let h = text::ascii_lower(hay);
    let n = text::ascii_lower(needle);
    assert(h.subrange(i, i + n.len()) == text::ascii_lower(hay.subrange(i, i + needle.len())));
}

/// On ASCII text, a message is found by whatever stands in a recipient, its
/// subject, its sender or its body.
pub proof fn law_ascii_text_is_found(m: EmailView, needle: Seq<char>)
    requires
        text::has_text(m.subject, needle) || text::has_text(m.from, needle) || text::has_text(
            m.body,
            needle,
        ) || exists|i: int| 0 <= i < m.to.len() && text::has_text(#[trigger] m.to[i], needle),
    ensures
        search::ascii_lowered(m).matches(text::ascii_lower(needle)),
{
    if text::has_text(m.subject, needle) {
        lemma_lower_has_text(m.subject, needle);
    } else if text::has_text(m.from, needle) {
        lemma_lower_has_text(m.from, needle);
    } else if text::has_text(m.body, needle) {
        lemma_lower_has_text(m.body, needle);
    } else {
        let i = choose|i: int| 0 <= i < m.to.len() && text::has_text(#[trigger] m.to[i], needle);
        lemma_lower_has_text(m.to[i], needle);
        assert(search::ascii_lowered(m).to[i] == text::ascii_lower(m.to[i]));
    }
}

/// Of two points in time, the one is earlier whose nanoseconds on one scale are
/// fewer.
pub proof fn law_earlier_is_by_the_clock(a: (i64, u32), b: (i64, u32))
    ensures
        search::earlier(a, b) <==> a.0 * 0x1_0000_0000 + a.1 < b.0 * 0x1_0000_0000 + b.1,
{
}

/// The texts of a message that a search looks at: its recipients, its subject,
/// its sender and its body.
pub open spec fn is_text_of(m: EmailView, t: Seq<char>) -> bool {
    m.to.contains(t) || t == m.subject || t == m.from || t == m.body
}

/// The texts that are compared are those of the message, each in lower case.
pub proof fn law_lowered_texts(m: EmailView, needle: Seq<char>)
    ensures
        search::lowered(m).matches(needle) <==> needle.len() == 0 || exists|t: Seq<char>| #[trigger]
            is_text_of(m, t) && text::has_text(outside::unicode_lowercase(t), needle),
        search::ascii_lowered(m).matches(needle) <==> needle.len() == 0 || exists|t: Seq<char>|
            #[trigger]
            is_text_of(m, t) && text::has_text(text::ascii_lower(t), needle),
{
    let low = search::lowered(m);
    let ascii = search::ascii_lowered(m);
    assert(is_text_of(m, m.subject) && is_text_of(m, m.from) && is_text_of(m, m.body));
    assert forall|i: int| 0 <= i < m.to.len() implies #[trigger] is_text_of(m, m.to[i]) && low.to[i]
        == outside::unicode_lowercase(m.to[i]) && ascii.to[i] == text::ascii_lower(m.to[i]) by {
        assert(m.to.contains(m.to[i]));
    }
    if low.matches(needle) && needle.len() > 0 {
        if exists|i: int| 0 <= i < low.to.len() && text::has_text(#[trigger] low.to[i], needle) {
            let i = choose|i: int|
                0 <= i < low.to.len() && text::has_text(#[trigger] low.to[i], needle);
            assert(is_text_of(m, m.to[i]));
        }
    }
    if ascii.matches(needle) && needle.len() > 0 {
        if exists|i: int| 0 <= i < ascii.to.len() && text::has_text(#[trigger] ascii.to[i], needle) {
            let i = choose|i: int|
                0 <= i < ascii.to.len() && text::has_text(#[trigger] ascii.to[i], needle);
            assert(is_text_of(m, m.to[i]));
        }
    }
    assert forall|t: Seq<char>| #[trigger]
        is_text_of(m, t) && text::has_text(outside::unicode_lowercase(t), needle) implies low.matches(
        needle,
    ) by {
        if m.to.contains(t) {
            let i = choose|i: int| 0 <= i < m.to.len() && m.to[i] == t;
            assert(is_text_of(m, m.to[i]));
            assert(text::has_text(low.to[i], needle));
        }
    }
    assert forall|t: Seq<char>| #[trigger]
        is_text_of(m, t) && text::has_text(text::ascii_lower(t), needle) implies ascii.matches(
        needle,
    ) by {
        if m.to.contains(t) {
            let i = choose|i: int| 0 <= i < m.to.len() && m.to[i] == t;
            assert(is_text_of(m, m.to[i]));
            assert(text::has_text(ascii.to[i], needle));
        }
    }
}

/// A message is found where the text that is asked for stands in its recipients,
/// its subject, its sender or its body, both in lower case, and nowhere else.
/// Where nothing is asked for, every message is found.
pub proof fn law_found_means_text_stands_in_it(
    s: Seq<EmailView>,
    q: Option<Seq<char>>,
    m: EmailView,
)
    ensures
        search::found(s, search::needle_of(q)).contains(m) <==> s.contains(m) && (match q {
            None => true,
            Some(p) => outside::unicode_lowercase(p).len() == 0 || exists|
                t: Seq<char>,
                pre: Seq<char>,
                post: Seq<char>,
            |
                is_text_of(m, t) && #[trigger] outside::unicode_lowercase(t) == #[trigger] (pre
                    + outside::unicode_lowercase(p) + post),
        }),
{
    let needle = search::needle_of(q);
    law_search_is_exact(s, needle, m);
    law_lowered_texts(m, needle);
    if let Some(p) = q {
        assert(needle == outside::unicode_lowercase(p));
        if exists|t: Seq<char>| #[trigger]
            is_text_of(m, t) && text::has_text(outside::unicode_lowercase(t), needle) {
            let t = choose|t: Seq<char>| #[trigger]
                is_text_of(m, t) && text::has_text(outside::unicode_lowercase(t), needle);
            text_laws::law_has_text(outside::unicode_lowercase(t), needle);
            let (pre, post) = choose|pre: Seq<char>, post: Seq<char>|
                outside::unicode_lowercase(t) == #[trigger] (pre + needle + post);
            assert(outside::unicode_lowercase(t) == pre + needle + post);
        }
        if exists|t: Seq<char>, pre: Seq<char>, post: Seq<char>|
            is_text_of(m, t) && #[trigger] outside::unicode_lowercase(t) == #[trigger] (pre + needle
                + post) {
            let (t, pre, post) = choose|t: Seq<char>, pre: Seq<char>, post: Seq<char>|
                is_text_of(m, t) && #[trigger] outside::unicode_lowercase(t) == #[trigger] (pre
                    + needle + post);
            text_laws::law_has_text(outside::unicode_lowercase(t), needle);
        }
    }
}

/// With ASCII texts and an ASCII needle, a message is found if and only if the
/// needle stands in a recipient, the subject, the sender or the body, letters
/// compared without regard to case.
pub proof fn law_ascii_found_means_text_stands_in_it(
    s: Seq<EmailView>,
    needle: Seq<char>,
    m: EmailView,
)
    requires
        needle.len() > 0,
    ensures
        search::ascii_found(s, needle).contains(m) <==> s.contains(m) && exists|t: Seq<char>|
            #[trigger]
            is_text_of(m, t) && text::has_text(text::ascii_lower(t), text::ascii_lower(needle)),
        search::ascii_lowered(m).matches(text::ascii_lower(needle)) <==> exists|t: Seq<char>|
            #[trigger]
            is_text_of(m, t) && text::has_text(text::ascii_lower(t), text::ascii_lower(needle)),
{
    let low = text::ascii_lower(needle);
    let all = search::newest_first(s);
    let p = |m: EmailView| search::ascii_lowered(m).matches(low);
    let r = all.filter(p);
    assert(low.len() == needle.len());
    law_lowered_texts(m, low);
    law_order_is_permutation(s);
    if r.contains(m) {
        all.lemma_filter_contains_rev(p, m);
        let i = choose|i: int| 0 <= i < r.len() && r[i] == m;
        all.lemma_filter_pred(p, i);
    }
    if all.contains(m) && p(m) {
        let i = choose|i: int| 0 <= i < all.len() && all[i] == m;
        all.lemma_filter_contains(p, i);
    }
}

proof fn lemma_filter_twice(
    s: Seq<EmailView>,
    p: spec_fn(EmailView) -> bool,
    q: spec_fn(EmailView) -> bool,
)
    ensures
        s.filter(p).filter(q) == s.filter(|m: EmailView| p(m) && q(m)),
        s.filter(q).filter(p) == s.filter(|m: EmailView| p(m) && q(m)),
    decreases s.len(),
{
    reveal(Seq::filter);
    if s.len() > 0 {
        let init = s.drop_last();
        lemma_filter_twice(init, p, q);
        assert(init.filter(p).push(s.last()).drop_last() == init.filter(p));
        assert(init.filter(q).push(s.last()).drop_last() == init.filter(q));
    }
}

/// Of the messages of one time, a search shows those that match it, each as
/// often as it is there, in the order in which they came.
pub proof fn law_search_is_stable(s: Seq<EmailView>, needle: Seq<char>, at: (i64, u32))
    ensures
        search::found(s, needle).filter(|m: EmailView| m.received_at == at) == s.filter(
            |m: EmailView| m.received_at == at,
        ).filter(|m: EmailView| search::lowered(m).matches(needle)),
{
    let all = search::newest_first(s);
    let p = |m: EmailView| search::lowered(m).matches(needle);
    let q = |m: EmailView| m.received_at == at;
    lemma_filter_twice(all, p, q);
    law_order_is_stable(s, at);
}

/// What is asked for is the text of the query; without one it is empty. It is
/// looked for in lower case.
pub proof fn law_what_is_asked_for(q: Seq<char>)
    ensures
        search::asked(Some(q)) == q,
        search::asked(None) == Seq::<char>::empty(),
        search::needle_of(Some(q)) == outside::unicode_lowercase(q),
        search::needle_of(None) == Seq::<char>::empty(),
{
}

/// A message is ASCII where its recipients, its subject, its sender and its body
/// are.
pub proof fn law_ascii_messages(s: Seq<EmailView>, needle: Seq<char>, m: EmailView)
    ensures
        search::is_ascii_email(m) <==> forall|t: Seq<char>| #[trigger]
            is_text_of(m, t) ==> vstd::utf8::is_ascii_chars(t),
        search::all_ascii(s, needle) <==> vstd::utf8::is_ascii_chars(needle) && forall|i: int|
            0 <= i < s.len() ==> search::is_ascii_email(#[trigger] s[i]),
{
    assert(is_text_of(m, m.subject) && is_text_of(m, m.from) && is_text_of(m, m.body));
    if search::is_ascii_email(m) {
        assert forall|t: Seq<char>| #[trigger] is_text_of(m, t) implies vstd::utf8::is_ascii_chars(
            t,
        ) by {
            if m.to.contains(t) {
                let k = choose|k: int| 0 <= k < m.to.len() && m.to[k] == t;
                assert(vstd::utf8::is_ascii_chars(m.to[k]));
            }
        }
    }
    if forall|t: Seq<char>| #[trigger] is_text_of(m, t) ==> vstd::utf8::is_ascii_chars(t) {
        assert forall|k: int| 0 <= k < m.to.len() implies vstd::utf8::is_ascii_chars(
            #[trigger] m.to[k],
        ) by {
            assert(m.to.contains(m.to[k]));
            assert(is_text_of(m, m.to[k]));
        }
    }
}

/// A needle is found in the texts of which one is something, the needle, and
/// something, and an empty one in all.
pub proof fn law_matching_texts(t: SearchTextView, needle: Seq<char>)
    ensures
        t.matches(needle) <==> needle.len() == 0 || exists|
            x: Seq<char>,
            pre: Seq<char>,
            post: Seq<char>,
        |
            #![trigger t.to.contains(x), pre + needle + post]
            (t.to.contains(x) || x == t.subject || x == t.from || x == t.body) && x == pre + needle
                + post,
{
    if t.matches(needle) && needle.len() > 0 {
        let x = if text::has_text(t.subject, needle) {
            t.subject
        } else if text::has_text(t.from, needle) {
            t.from
        } else if text::has_text(t.body, needle) {
            t.body
        } else {
            let i = choose|i: int| 0 <= i < t.to.len() && text::has_text(#[trigger] t.to[i], needle);
            assert(t.to.contains(t.to[i]));
            t.to[i]
        };
        text_laws::law_has_text(x, needle);
        let (pre, post) = choose|pre: Seq<char>, post: Seq<char>|
            x == #[trigger] (pre + needle + post);
        let there = t.to.contains(x);
        assert(x == pre + needle + post);
    }
    assert forall|x: Seq<char>, pre: Seq<char>, post: Seq<char>|
        #![trigger t.to.contains(x), pre + needle + post]
        (t.to.contains(x) || x == t.subject || x == t.from || x == t.body) && x == pre + needle
            + post implies t.matches(needle) by {
        text_laws::law_has_text(x, needle);
        if t.to.contains(x) {
            let i = choose|i: int| 0 <= i < t.to.len() && t.to[i] == x;
            assert(text::has_text(t.to[i], needle));
        }
    }
}

/// What a query and the texts that are compared hold is all that their fields
/// hold.
pub proof fn law_query_views(q: RowsQuery, t: SearchText)
    ensures
        q.q is None <==> q@ is None,
        q.q matches Some(s) ==> q@ == Some(s@),
        t@.to == Seq::new(t.to@.len(), |i: int| t.to@[i]@),
        t@.subject == t.subject@,
        t@.from == t.from@,
        t@.body == t.body@,
{
}

} // verus!
