//! Where the server listens.

use vstd::prelude::*;

use crate::text;
use crate::text::{chars_of, decimal_text};

verus! {

/// Whether `s` consists of the digits `0` to `9`.
pub open spec fn all_digits(s: Seq<char>) -> bool {
    forall|i: int| 0 <= i < s.len() ==> '0' <= #[trigger] s[i] <= '9'
}

/// The number that the digits of `s` write in decimal notation.
pub open spec fn digits_value(s: Seq<char>) -> int
    decreases s.len(),
{
    if s.len() == 0 {
        0
    } else {
        10 * digits_value(s.drop_last()) + (s.last() as int - '0' as int)
    }
}

/// `s` without the one `+` that it may start with.
pub open spec fn unsigned(s: Seq<char>) -> Seq<char> {
    if s.len() > 0 && s[0] == '+' {
        s.drop_first()
    } else {
        s
    }
}

/// The TCP port that `s` writes: digits, with a `+` before them or without,
/// and a value below 65536.
pub open spec fn port_value(s: Seq<char>) -> Option<u16> {
    let d = unsigned(s);
    if d.len() > 0 && all_digits(d) && digits_value(d) <= u16::MAX {
        Some(digits_value(d) as u16)
    } else {
        None
    }
}

/// The TCP port that `s` writes, if it writes one.
pub fn parse_port(s: &str) -> (p: Option<u16>)
    ensures
        p == port_value(s@),
{
    let cs = chars_of(s);
    let n = cs.len();
    let from: usize = if n > 0 && cs[0] == '+' {
        1
    } else {
        0
    };
    let ghost d = unsigned(s@);
    assert(d == cs@.skip(from as int));
    if from == n {
        return None;
    }
    // The value so far, capped just above the highest port.
    let mut v: u32 = 0;
    assert(digits_value(d.take(0)) == 0);
    for i in from..n
        invariant
            from <= n,
            n == cs@.len(),
            d == unsigned(s@),
            d == cs@.skip(from as int),
            all_digits(d.take(i - from)),
            digits_value(d.take(i - from)) >= 0,
            v == (if digits_value(d.take(i - from)) > 65535 {
                65536
            } else {
                digits_value(d.take(i - from))
            }),
    {
        let c = cs[i];
        assert(d[i - from] == c);
        if c < '0' || '9' < c {
            return None;
        }
        let ghost k = i - from;
        assert(d.take(k + 1).drop_last() == d.take(k));
        assert(d.take(k + 1).last() == c);
        assert forall|j: int| 0 <= j < k + 1 implies '0' <= #[trigger] d.take(k + 1)[j]
            <= '9' by {
            if j < k {
                assert(d.take(k + 1)[j] == d.take(k)[j]);
            }
        }
        v = 10 * v + (c as u32 - '0' as u32);
        if v > 65535 {
            v = 65536;
        }
    }
    assert(d.take(d.len() as int) == d);
    if v > 65535 {
        None
    } else {
        Some(v as u16)
    }
}

/// The port that a variable of the environment names, or `default` where it is
/// not set or names none.
pub open spec fn port_or(value: Option<Seq<char>>, default: u16) -> u16 {
    match value {
        Some(s) => match port_value(s) {
            Some(p) => p,
            None => default,
        },
        None => default,
    }
}

/// What the value of a variable of the environment holds, if it is set.
pub open spec fn var_text(value: Option<String>) -> Option<Seq<char>> {
    match value {
        Some(s) => Some(s@),
        None => None,
    }
}

fn port_from(value: Option<String>, default: u16) -> (p: u16)
    ensures
        p == port_or(var_text(value), default),
{
    match value {
        Some(s) => match parse_port(s.as_str()) {
            Some(p) => p,
            None => default,
        },
        None => default,
    }
}

/// Where the server listens.
#[derive(Debug)]
pub struct Settings {
    pub host: String,
    pub http_port: u16,
    pub smtp_port: u16,
}

impl Settings {
    /// The settings that the variables `HOST`, `PORT` and `SMTP_PORT` make.
    pub fn from_vars(
        host: Option<String>,
        port: Option<String>,
        smtp_port: Option<String>,
    ) -> (s: Settings)
        ensures
            s.host@ == (match host {
                Some(h) => h@,
                None => "0.0.0.0"@,
            }),
            s.http_port == port_or(var_text(port), 8080),
            s.smtp_port == port_or(var_text(smtp_port), 1025),
    {
        let host = match host {
            Some(h) => h,
            None => "0.0.0.0".to_string(),
        };
        Settings { host, http_port: port_from(port, 8080), smtp_port: port_from(smtp_port, 1025) }
    }

    /// The address at which mail is taken in.
    pub fn smtp_address(&self) -> (s: String)
        ensures
            s@ == self.host@ + ":"@ + text::decimal(self.smtp_port as nat),
    {
        address(&self.host, self.smtp_port)
    }

    /// The address of the web page.
    pub fn http_address(&self) -> (s: String)
        ensures
            s@ == self.host@ + ":"@ + text::decimal(self.http_port as nat),
    {
        address(&self.host, self.http_port)
    }
}

fn address(host: &String, port: u16) -> (s: String)
    ensures
        s@ == host@ + ":"@ + text::decimal(port as nat),
{
    let mut s = String::new();
    s.append(host.as_str());
    s.append(":");
    s.append(decimal_text(port as usize).as_str());
    assert(s@ == host@ + ":"@ + text::decimal(port as nat));
    s
}

} // verus!
