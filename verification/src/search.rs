//! Lists of messages: newest first, and narrowed down by a search.

use vstd::prelude::*;

use crate::inbox;
use crate::inbox::{Email, EmailView, Inbox, Timestamp};
use crate::laws;
use crate::outside;
use crate::text;
use crate::text::contains;

verus! {

/// Whether the point in time `a` lies before `b`.
pub open spec fn earlier(a: (i64, u32), b: (i64, u32)) -> bool {
    a.0 < b.0 || (a.0 == b.0 && a.1 < b.1)
}

/// `list` with `m` placed behind the messages that are newer than it and
/// before the others.
pub open spec fn placed(list: Seq<EmailView>, m: EmailView) -> Seq<EmailView>
    decreases list.len(),
{
    if list.len() > 0 && earlier(m.received_at, list[0].received_at) {
        seq![list[0]] + placed(list.drop_first(), m)
    } else {
        seq![m] + list
    }
}

/// The messages ordered from the newest to the oldest; messages of the same
/// time stay in the order in which they came.
pub open spec fn newest_first(s: Seq<EmailView>) -> Seq<EmailView>
    decreases s.len(),
{
    if s.len() == 0 {
        s
    } else {
        placed(newest_first(s.drop_first()), s[0])
    }
}

/// The texts of a message that a search looks at, in lower case.
#[verifier::ext_equal]
pub struct SearchTextView {
    pub to: Seq<Seq<char>>,
    pub subject: Seq<char>,
    pub from: Seq<char>,
    pub body: Seq<char>,
}

impl SearchTextView {
    /// Whether `needle` stands in one of the texts. An empty one stands in all.
    pub open spec fn matches(self, needle: Seq<char>) -> bool {
        ||| needle.len() == 0
        ||| exists|i: int| 0 <= i < self.to.len() && text::has_text(#[trigger] self.to[i], needle)
        ||| text::has_text(self.subject, needle)
        ||| text::has_text(self.from, needle)
        ||| text::has_text(self.body, needle)
    }
}

/// The texts of a message in lower case.
pub open spec fn lowered(m: EmailView) -> SearchTextView {
    SearchTextView {
        to: Seq::new(m.to.len(), |i: int| outside::unicode_lowercase(m.to[i])),
        subject: outside::unicode_lowercase(m.subject),
        from: outside::unicode_lowercase(m.from),
        body: outside::unicode_lowercase(m.body),
    }
}

/// The texts of a message with their ASCII letters in lower case.
pub open spec fn ascii_lowered(m: EmailView) -> SearchTextView {
    SearchTextView {
        to: Seq::new(m.to.len(), |i: int| text::ascii_lower(m.to[i])),
        subject: text::ascii_lower(m.subject),
        from: text::ascii_lower(m.from),
        body: text::ascii_lower(m.body),
    }
}

/// Whether the texts of a message are ASCII.
pub open spec fn is_ascii_email(m: EmailView) -> bool {
    &&& forall|i: int| 0 <= i < m.to.len() ==> vstd::utf8::is_ascii_chars(#[trigger] m.to[i])
    &&& vstd::utf8::is_ascii_chars(m.subject)
    &&& vstd::utf8::is_ascii_chars(m.from)
    &&& vstd::utf8::is_ascii_chars(m.body)
}

/// Whether the texts of all messages and the text that is asked for are ASCII.
pub open spec fn all_ascii(s: Seq<EmailView>, needle: Seq<char>) -> bool {
    &&& vstd::utf8::is_ascii_chars(needle)
    &&& forall|i: int| 0 <= i < s.len() ==> is_ascii_email(#[trigger] s[i])
}

/// The text that a query asks for.
pub open spec fn asked(q: Option<Seq<char>>) -> Seq<char> {
    match q {
        Some(s) => s,
        None => Seq::empty(),
    }
}

/// The lower case of the text that a query asks for.
pub open spec fn needle_of(q: Option<Seq<char>>) -> Seq<char> {
    match q {
        Some(s) => outside::unicode_lowercase(s),
        None => Seq::empty(),
    }
}

/// The messages that a needle in lower case stands in, newest first.
pub open spec fn found(s: Seq<EmailView>, needle: Seq<char>) -> Seq<EmailView> {
    newest_first(s).filter(|m: EmailView| lowered(m).matches(needle))
}

/// The messages that an ASCII needle stands in, in whatever case, newest first.
pub open spec fn ascii_found(s: Seq<EmailView>, needle: Seq<char>) -> Seq<EmailView> {
    newest_first(s).filter(|m: EmailView| ascii_lowered(m).matches(text::ascii_lower(needle)))
}

/// What the messages of a list of references hold.
pub open spec fn email_refs(v: Seq<&Email>) -> Seq<EmailView> {
    Seq::new(v.len(), |i: int| v[i]@)
}

/// A search: what is to be found, if anything was asked for.
#[derive(Debug)]
pub struct RowsQuery {
    pub q: Option<String>,
}

impl View for RowsQuery {
    type V = Option<Seq<char>>;

    open spec fn view(&self) -> Option<Seq<char>> {
        match self.q {
            Some(s) => Some(s@),
            None => None,
        }
    }
}

fn is_earlier(a: &Timestamp, b: &Timestamp) -> (r: bool)
    ensures
        r == earlier(a@, b@),
{
    a.secs() < b.secs() || (a.secs() == b.secs() && a.nanos() < b.nanos())
}

pub(crate) proof fn lemma_placed(list: Seq<EmailView>, m: EmailView, at: int)
    requires
        0 <= at <= list.len(),
        forall|i: int| 0 <= i < at ==> earlier(m.received_at, (#[trigger] list[i]).received_at),
        at < list.len() ==> !earlier(m.received_at, list[at].received_at),
    ensures
        placed(list, m) == list.insert(at, m),
    decreases list.len(),
{
    if at == 0 {
        assert(seq![m] + list == list.insert(0, m));
    } else {
        assert(earlier(m.received_at, list[0].received_at));
        let rest = list.drop_first();
        assert forall|i: int| 0 <= i < at - 1 implies earlier(
            m.received_at,
            (#[trigger] rest[i]).received_at,
        ) by {
            assert(rest[i] == list[i + 1]);
        }
        lemma_placed(rest, m, at - 1);
        assert(seq![list[0]] + rest.insert(at - 1, m) == list.insert(at, m));
    }
}

/// References to the messages of the inbox, newest first.
pub fn ordered(inbox: &Inbox) -> (v: Vec<&Email>)
    ensures
        email_refs(v@) == newest_first(inbox@),
{
    let mut v: Vec<&Email> = Vec::new();
    let mut i: usize = inbox.len();
    assert(email_refs(v@) == newest_first(inbox@.skip(i as int)));
    while i > 0
        invariant
            i <= inbox@.len(),
            email_refs(v@) == newest_first(inbox@.skip(i as int)),
        decreases i,
    {
        let m = inbox.get(i - 1);
        let ghost list = email_refs(v@);
        let mut at: usize = 0;
        while at < v.len() && is_earlier(&m.received_at, &v[at].received_at)
            invariant
                at <= v@.len(),
                list == email_refs(v@),
                forall|k: int|
                    0 <= k < at ==> earlier(m@.received_at, (#[trigger] list[k]).received_at),
            decreases v@.len() - at,
        {
            at = at + 1;
        }
        v.insert(at, m);
        proof {
            lemma_placed(list, m@, at as int);
            assert(email_refs(v@) == list.insert(at as int, m@));
            let rest = inbox@.skip(i - 1);
            assert(rest.drop_first() == inbox@.skip(i as int));
            assert(rest[0] == m@);
        }
        i = i - 1;
    }
    assert(inbox@.skip(0) == inbox@);
    v
}

/// All messages and how many they are.
#[derive(Debug)]
pub struct Listing {
    pub data: Vec<Email>,
    pub total: usize,
}

/// The messages of the inbox, newest first.
pub fn messages(inbox: &Inbox) -> (r: Listing)
    ensures
        inbox::emails(r.data@) == newest_first(inbox@),
        r.total == r.data@.len(),
        r.total == inbox@.len(),
{
    let v = ordered(inbox);
    let mut data: Vec<Email> = Vec::new();
    for i in 0..v.len()
        invariant
            inbox::emails(data@) == email_refs(v@).take(i as int),
    {
        let ghost before = inbox::emails(data@);
        data.push(v[i].clone());
        assert(inbox::emails(data@) == before.push(v@[i as int]@));
    }
    assert(email_refs(v@).take(v@.len() as int) == email_refs(v@));
    let total = data.len();
    proof {
        laws::search::law_order_is_permutation(inbox@);
    }
    Listing { data, total }
}

/// The texts of a message that a search looks at, in lower case.
#[derive(Debug)]
pub struct SearchText {
    pub to: Vec<String>,
    pub subject: String,
    pub from: String,
    pub body: String,
}

impl View for SearchText {
    type V = SearchTextView;

    open spec fn view(&self) -> SearchTextView {
        SearchTextView {
            to: text::texts(self.to@),
            subject: self.subject@,
            from: self.from@,
            body: self.body@,
        }
    }
}

impl SearchText {
    /// Whether `needle` stands in one of the texts.
    pub fn matches(&self, needle: &str) -> (b: bool)
        ensures
            b == self@.matches(needle@),
    {
        if needle.is_empty() {
            return true;
        }
        for i in 0..self.to.len()
            invariant
                forall|k: int| 0 <= k < i ==> !text::has_text(#[trigger] self@.to[k], needle@),
        {
            assert(self@.to[i as int] == self.to@[i as int]@);
            if contains(self.to[i].as_str(), needle) {
                return true;
            }
        }
        contains(self.subject.as_str(), needle) || contains(self.from.as_str(), needle)
            || contains(self.body.as_str(), needle)
    }
}

/// The texts of a message that a search looks at, in lower case.
pub fn search_text(m: &Email) -> (t: SearchText)
    ensures
        t@ == lowered(m@),
        is_ascii_email(m@) ==> t@ == ascii_lowered(m@),
{
    let mut to: Vec<String> = Vec::new();
    for i in 0..m.to.len()
        invariant
            to@.len() == i,
            forall|k: int|
                0 <= k < i ==> (#[trigger] to@[k])@ == outside::unicode_lowercase(m@.to[k]),
            forall|k: int|
                0 <= k < i && vstd::utf8::is_ascii_chars(m@.to[k]) ==> (#[trigger] to@[k])@
                    == text::ascii_lower(m@.to[k]),
    {
        assert(m@.to[i as int] == m.to@[i as int]@);
        to.push(m.to[i].as_str().to_lowercase());
    }
    let t = SearchText {
        to,
        subject: m.subject.as_str().to_lowercase(),
        from: m.from.as_str().to_lowercase(),
        body: m.body.as_str().to_lowercase(),
    };
    assert(t@ == lowered(m@));
    assert(is_ascii_email(m@) ==> t@ == ascii_lowered(m@));
    t
}

proof fn lemma_same_filter(
    s: Seq<EmailView>,
    p: spec_fn(EmailView) -> bool,
    q: spec_fn(EmailView) -> bool,
)
    requires
        forall|i: int| 0 <= i < s.len() ==> p(#[trigger] s[i]) == q(s[i]),
    ensures
        s.filter(p) == s.filter(q),
    decreases s.len(),
{
    reveal(Seq::filter);
    if s.len() > 0 {
        let rest = s.drop_last();
        assert forall|i: int| 0 <= i < rest.len() implies p(#[trigger] rest[i]) == q(rest[i]) by {
            assert(rest[i] == s[i]);
        }
        lemma_same_filter(rest, p, q);
    }
}

/// Newest-first inbox with an optional substring filter over
/// to/subject/from/body (case-insensitive).
pub fn filtered(inbox: &Inbox, query: &RowsQuery) -> (r: Vec<Email>)
    ensures
        inbox::emails(r@) == found(inbox@, needle_of(query@)),
        vstd::utf8::is_ascii_chars(asked(query@)) ==> inbox::emails(r@) == found(
            inbox@,
            text::ascii_lower(asked(query@)),
        ),
        forall|m: EmailView|
            vstd::utf8::is_ascii_chars(asked(query@)) && inbox@.contains(m) && is_ascii_email(m)
                ==> (#[trigger] inbox::emails(r@).contains(m) <==> ascii_lowered(m).matches(
                text::ascii_lower(asked(query@)),
            )),
        all_ascii(inbox@, asked(query@)) ==> inbox::emails(r@) == ascii_found(
            inbox@,
            asked(query@),
        ),
{
    let needle = match &query.q {
        Some(s) => s.as_str().to_lowercase(),
        None => String::new(),
    };
    let v = ordered(inbox);
    let ghost all = newest_first(inbox@);
    let ghost hit = |m: EmailView| lowered(m).matches(needle@);
    let mut r: Vec<Email> = Vec::new();
    proof {
        reveal(Seq::filter);
        assert(all.take(0).filter(hit) == Seq::<EmailView>::empty());
    }
    for i in 0..v.len()
        invariant
            all == email_refs(v@),
            hit == (|m: EmailView| lowered(m).matches(needle@)),
            inbox::emails(r@) == all.take(i as int).filter(hit),
            forall|k: int|
                0 <= k < i && is_ascii_email(#[trigger] all[k]) ==> lowered(all[k])
                    == ascii_lowered(all[k]),
    {
        let m = v[i];
        let ghost before = inbox::emails(r@);
        assert(m@ == all[i as int]);
        if search_text(m).matches(needle.as_str()) {
            r.push(m.clone());
            assert(inbox::emails(r@) == before.push(m@));
        }
        proof {
            reveal(Seq::filter);
            assert(all.take(i + 1).drop_last() == all.take(i as int));
            assert(all.take(i + 1).last() == m@);
        }
    }
    proof {
        assert(all.take(all.len() as int) == all);
        laws::search::law_order_is_permutation(inbox@);
        if vstd::utf8::is_ascii_chars(asked(query@)) {
            let asks = text::ascii_lower(asked(query@));
            assert(needle@ == asks);
            assert forall|m: EmailView| inbox@.contains(m) && is_ascii_email(m) implies (
            #[trigger] inbox::emails(r@).contains(m) <==> ascii_lowered(m).matches(asks)) by {
                laws::search::law_search_is_exact(inbox@, asks, m);
                assert(all.contains(m));
                let k = choose|k: int| 0 <= k < all.len() && all[k] == m;
                assert(is_ascii_email(all[k]));
            }
            if all_ascii(inbox@, asked(query@)) {
                assert forall|i: int| 0 <= i < all.len() implies is_ascii_email(
                    #[trigger] all[i],
                ) by {
                    assert(all.contains(all[i]));
                }
                lemma_same_filter(all, hit, |m: EmailView| ascii_lowered(m).matches(asks));
            }
        }
    }
    r
}

} // verus!
