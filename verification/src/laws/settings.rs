//! Laws of the settings.

use vstd::prelude::*;

use crate::laws::text as text_laws;
use crate::settings;
use crate::text;

verus! {

proof fn lemma_decimal(n: nat)
    ensures
        text::decimal(n).len() > 0,
        settings::all_digits(text::decimal(n)),
        settings::digits_value(text::decimal(n)) == n,
    decreases n,
{
    let s = text::decimal(n);
    if n < 10 {
        assert(s.drop_last() == Seq::<char>::empty());
        assert(settings::digits_value(s.drop_last()) == 0);
    } else {
        lemma_decimal(n / 10);
        assert(s.drop_last() == text::decimal(n / 10));
        assert forall|i: int| 0 <= i < s.len() implies '0' <= #[trigger] s[i] <= '9' by {
            if i < s.len() - 1 {
                assert(s[i] == text::decimal(n / 10)[i]);
            }
        }
    }
}

/// A port in decimal notation is read back.
pub proof fn law_port_round_trip(p: u16)
    ensures
        settings::port_value(text::decimal(p as nat)) == Some(p),
{
    lemma_decimal(p as nat);
    let s = text::decimal(p as nat);
    assert('0' <= s[0] <= '9');
    assert(settings::unsigned(s) == s);
}

/// A variable that is not set, or that names no port, leaves the default.
pub proof fn law_default_port(value: Option<Seq<char>>, default: u16)
    requires
        value matches Some(s) ==> settings::port_value(s) is None,
    ensures
        settings::port_or(value, default) == default,
{
}

/// Whether `s` consists of zeros.
pub open spec fn are_zeros(s: Seq<char>) -> bool {
    forall|i: int| 0 <= i < s.len() ==> #[trigger] s[i] == '0'
}

proof fn lemma_leading_zeros(zeros: Seq<char>, d: Seq<char>)
    requires
        are_zeros(zeros),
    ensures
        settings::digits_value(zeros + d) == settings::digits_value(d),
    decreases zeros.len() + d.len(),
{
    let s = zeros + d;
    if d.len() > 0 {
        assert(s.drop_last() == zeros + d.drop_last());
        lemma_leading_zeros(zeros, d.drop_last());
    } else if zeros.len() > 0 {
        let less = zeros.drop_last();
        assert(s.drop_last() == less + d);
        assert(s.last() == zeros[zeros.len() - 1]);
        assert forall|i: int| 0 <= i < less.len() implies #[trigger] less[i] == '0' by {
            assert(less[i] == zeros[i]);
        }
        lemma_leading_zeros(less, d);
    }
}

/// Digits write a number in decimal notation, behind zeros.
proof fn lemma_digits_are_decimal(d: Seq<char>) -> (zeros: Seq<char>)
    requires
        d.len() > 0,
        settings::all_digits(d),
    ensures
        are_zeros(zeros),
        settings::digits_value(d) >= 0,
        d == zeros + text::decimal(settings::digits_value(d) as nat),
    decreases d.len(),
{
    let init = d.drop_last();
    let c = d.last();
    let none = Seq::<char>::empty();
    assert('0' <= d[d.len() - 1] <= '9');
    let ones = (c as int - '0' as int) as nat;
    text_laws::law_decimal_digits(0, ones);
    assert(text::decimal(ones) == seq![c]);
    if init.len() == 0 {
        assert(settings::digits_value(init) == 0);
        assert(d == none + seq![c]);
        none
    } else {
        assert forall|i: int| 0 <= i < init.len() implies '0' <= #[trigger] init[i] <= '9' by {
            assert(init[i] == d[i]);
        }
        let zeros = lemma_digits_are_decimal(init);
        let tens = settings::digits_value(init) as nat;
        if tens > 0 {
            text_laws::law_decimal_digits(tens, ones);
            assert(d == init.push(c));
            assert(init.push(c) == zeros + (text::decimal(tens) + seq![c]));
            zeros
        } else {
            text_laws::law_decimal_digits(0, 0);
            let more = zeros + text::decimal(0);
            assert forall|i: int| 0 <= i < more.len() implies #[trigger] more[i] == '0' by {
                if i < zeros.len() {
                    assert(more[i] == zeros[i]);
                } else {
                    assert(more[i] == text::decimal(0)[0]);
                }
            }
            assert(d == init.push(c));
            assert(d == more + seq![c]);
            more
        }
    }
}

/// A text names a port if and only if it is that port in decimal notation, with
/// zeros before it and a `+` before those, or without.
pub proof fn law_port_is_its_decimal(s: Seq<char>, p: u16)
    ensures
        settings::port_value(s) == Some(p) <==> exists|sign: Seq<char>, zeros: Seq<char>|
            (sign.len() == 0 || sign == seq!['+']) && are_zeros(zeros) && s == #[trigger] (sign
                + zeros + text::decimal(p as nat)),
{
    let none = Seq::<char>::empty();
    let n = text::decimal(p as nat);
    lemma_decimal(p as nat);
    if settings::port_value(s) == Some(p) {
        let d = settings::unsigned(s);
        let zeros = lemma_digits_are_decimal(d);
        let sign = if s[0] == '+' {
            seq!['+']
        } else {
            none
        };
        assert(settings::digits_value(d) == p);
        assert(d == zeros + n);
        assert(s == sign + d);
        assert(s == sign + zeros + n);
    }
    if exists|sign: Seq<char>, zeros: Seq<char>|
        (sign.len() == 0 || sign == seq!['+']) && are_zeros(zeros) && s == #[trigger] (sign + zeros
            + n) {
        let (sign, zeros) = choose|sign: Seq<char>, zeros: Seq<char>|
            (sign.len() == 0 || sign == seq!['+']) && are_zeros(zeros) && s == #[trigger] (sign
                + zeros + n);
        let d = zeros + n;
        lemma_leading_zeros(zeros, n);
        assert forall|i: int| 0 <= i < d.len() implies '0' <= #[trigger] d[i] <= '9' by {
            if i < zeros.len() {
                assert(d[i] == zeros[i]);
            } else {
                assert(d[i] == n[i - zeros.len()]);
            }
        }
        assert('0' <= d[0] <= '9');
        if sign.len() == 0 {
            assert(s == d);
            assert(settings::unsigned(s) == d);
        } else {
            assert(s.drop_first() == d);
            assert(settings::unsigned(s) == d);
        }
    }
}

/// A variable that names a port gives that port, whatever the default is.
pub proof fn law_named_port(s: Seq<char>, p: u16, default: u16)
    requires
        settings::port_value(s) == Some(p),
    ensures
        settings::port_or(Some(s), default) == p,
        settings::port_or(None, default) == default,
{
}

} // verus!
