use fake_email_server::settings::{parse_port, Settings};

#[test]
fn ports_agree_with_std() {
    for s in ["0", "80", "+80", "0080", "65535", "65536", "99999999999999999999", "", "+", "-1", " 80", "80 ", "8_0", "++1", "８０"] {
        assert_eq!(parse_port(s), s.parse::<u16>().ok(), "{:?}", s);
    }
}

#[test]
fn ports_are_read_back() {
    for p in [0, 1, 1025, 8080, u16::MAX] {
        assert_eq!(parse_port(&p.to_string()), Some(p));
    }
}

#[test]
fn defaults_where_nothing_is_set() {
    let s = Settings::from_vars(None, None, None);
    assert_eq!((s.host.as_str(), s.http_port, s.smtp_port), ("0.0.0.0", 8080, 1025));
    assert_eq!(s.http_address(), "0.0.0.0:8080");
    assert_eq!(s.smtp_address(), "0.0.0.0:1025");
}

#[test]
fn variables_override_defaults() {
    let var = |s: &str| Some(s.to_string());
    let s = Settings::from_vars(var("::1"), var("81"), var("26"));
    assert_eq!((s.host.as_str(), s.http_port, s.smtp_port), ("::1", 81, 26));
    assert_eq!(s.http_address(), "::1:81");
    let s = Settings::from_vars(var(""), var("none"), var("70000"));
    assert_eq!((s.host.as_str(), s.http_port, s.smtp_port), ("", 8080, 1025));
}
