//! Tests of parsing raw cookie strings and formatting them back.

use cookie::Cookie;

#[test]
fn parse() {
    assert!(Cookie::parse("bar").is_err());
    assert!(Cookie::parse("=bar").is_err());
    assert!(Cookie::parse(" =bar").is_err());
    assert!(Cookie::parse("foo=").is_ok());
    let mut expected = Cookie::new("foo".to_string(), "bar".to_string());
    assert_eq!(Cookie::parse("foo=bar").ok().unwrap(), expected);
    assert_eq!(Cookie::parse("foo = bar").ok().unwrap(), expected);
    assert_eq!(Cookie::parse(" foo=bar ").ok().unwrap(), expected);
    assert_eq!(Cookie::parse(" foo=bar ;Domain=").ok().unwrap(), expected);
    assert_eq!(Cookie::parse(" foo=bar ;Domain= ").ok().unwrap(), expected);
    assert_eq!(Cookie::parse(" foo=bar ;Ignored").ok().unwrap(), expected);
    expected.httponly = true;
    assert_eq!(Cookie::parse(" foo=bar ;HttpOnly").ok().unwrap(), expected);
    assert_eq!(Cookie::parse(" foo=bar ;httponly").ok().unwrap(), expected);
    assert_eq!(Cookie::parse(" foo=bar ;HTTPONLY=whatever").ok().unwrap(), expected);
    assert_eq!(Cookie::parse(" foo=bar ; sekure; HTTPONLY").ok().unwrap(), expected);
    expected.secure = true;
    assert_eq!(Cookie::parse(" foo=bar ;HttpOnly; Secure").ok().unwrap(), expected);
    assert_eq!(Cookie::parse(" foo=bar ;HttpOnly; Secure=aaaa").ok().unwrap(), expected);
    expected.max_age = Some(0);
    assert_eq!(Cookie::parse(" foo=bar ;HttpOnly; Secure; Max-Age=0").ok().unwrap(), expected);
    assert_eq!(Cookie::parse(" foo=bar ;HttpOnly; Secure; Max-Age = 0 ").ok().unwrap(), expected);
    assert_eq!(Cookie::parse(" foo=bar ;HttpOnly; Secure; Max-Age=-1").ok().unwrap(), expected);
    assert_eq!(Cookie::parse(" foo=bar ;HttpOnly; Secure; Max-Age = -1 ").ok().unwrap(), expected);
    expected.max_age = Some(4);
    assert_eq!(Cookie::parse(" foo=bar ;HttpOnly; Secure; Max-Age=4").ok().unwrap(), expected);
    assert_eq!(Cookie::parse(" foo=bar ;HttpOnly; Secure; Max-Age = 4 ").ok().unwrap(), expected);
    expected.path = Some("/foo".to_string());
    assert_eq!(
        Cookie::parse(" foo=bar ;HttpOnly; Secure; Max-Age=4; Path=/foo").ok().unwrap(),
        expected
    );
    expected.domain = Some("foo.com".to_string());
    assert_eq!(
        Cookie::parse(" foo=bar ;HttpOnly; Secure; Max-Age=4; Path=/foo; Domain=foo.com")
            .ok()
            .unwrap(),
        expected
    );
    assert_eq!(
        Cookie::parse(" foo=bar ;HttpOnly; Secure; Max-Age=4; Path=/foo; Domain=FOO.COM")
            .ok()
            .unwrap(),
        expected
    );
    expected.custom.insert("wut".to_string(), "lol".to_string());
    assert_eq!(
        Cookie::parse(" foo=bar ;HttpOnly; Secure; Max-Age=4; Path=/foo; Domain=foo.com; wut=lol")
            .ok()
            .unwrap(),
        expected
    );

    assert_eq!(
        expected.to_string(),
        "foo=bar; HttpOnly; Secure; Path=/foo; Domain=foo.com; Max-Age=4; wut=lol"
    );
}

#[test]
fn cookie_parse_error() {
    match Cookie::parse("bar") {
        Ok(_) => assert!(false),
        Err(_) => assert!(true),
    }
}

#[test]
fn odd_characters() {
    let expected = Cookie::new("foo".to_string(), "b%2Fr".to_string());
    assert_eq!(Cookie::parse("foo=b%2Fr").ok().unwrap(), expected);
}

#[test]
fn pair() {
    let cookie = Cookie::new("foo".to_string(), "bar".to_string());
    assert_eq!(cookie.pair().to_string(), "foo=bar".to_string());
}

#[test]
fn empty_value_round_trip() {
    let c = Cookie::parse("foo=").ok().unwrap();
    assert_eq!(c.name, "foo");
    assert_eq!(c.value, "");
    assert_eq!(c.to_string(), "foo=");
    let again = Cookie::parse(&c.to_string()).ok().unwrap();
    assert_eq!(again, c);
}

#[test]
fn name_value_round_trip() {
    let c = Cookie::new("foo".to_string(), "b=a/r".to_string());
    let s = c.to_string();
    assert_eq!(s, "foo=b=a/r");
    let parsed = Cookie::parse(&s).ok().unwrap();
    assert_eq!(parsed, c);
    assert_eq!(parsed.to_string(), s);
}

#[test]
fn max_age_bounds() {
    let c = Cookie::parse("foo=bar; Max-Age=9223372036854775807").ok().unwrap();
    assert_eq!(c.max_age, Some(9223372036854775807));
    let c = Cookie::parse("foo=bar; Max-Age=9223372036854775808").ok().unwrap();
    assert_eq!(c.max_age, None);
    let c = Cookie::parse("foo=bar; Max-Age=-9223372036854775808").ok().unwrap();
    assert_eq!(c.max_age, Some(0));
    let c = Cookie::parse("foo=bar; Max-Age=-9223372036854775809").ok().unwrap();
    assert_eq!(c.max_age, None);
    let c = Cookie::parse("foo=bar; Max-Age=+41").ok().unwrap();
    assert_eq!(c.max_age, Some(41));
    let c = Cookie::parse("foo=bar; Max-Age=4x").ok().unwrap();
    assert_eq!(c.max_age, None);
    let c = Cookie::parse("foo=bar; Max-Age=").ok().unwrap();
    assert_eq!(c.max_age, None);
}

#[test]
fn max_age_formats_exact_value() {
    let c = Cookie::parse("foo=bar; Max-Age=1048576").ok().unwrap();
    assert_eq!(c.to_string(), "foo=bar; Max-Age=1048576");
}

#[test]
fn domain_normalization() {
    let c = Cookie::parse("foo=bar; Domain=.FOO.com").ok().unwrap();
    assert_eq!(c.domain, Some("foo.com".to_string()));
    let c = Cookie::parse("foo=bar; Domain=..Bar.COM").ok().unwrap();
    assert_eq!(c.domain, Some(".bar.com".to_string()));
}

#[test]
fn custom_attributes_sorted_and_replaced() {
    let c = Cookie::parse("foo=bar; zeta=1; alpha=2").ok().unwrap();
    assert_eq!(c.to_string(), "foo=bar; alpha=2; zeta=1");
    let c = Cookie::parse("foo=bar; wut=a; wut=b").ok().unwrap();
    assert_eq!(c.to_string(), "foo=bar; wut=b");
    assert_eq!(c.custom.len(), 1);
}

#[test]
fn expires_round_trip() {
    let c = Cookie::parse("foo=bar; Expires=Sun, 23 Nov 2014 20:00:00 UTC").ok().unwrap();
    assert!(c.expires.is_some());
    assert_eq!(c.to_string(), "foo=bar; Expires=Sun, 23 Nov 2014 20:00:00 GMT");
}

#[test]
fn expires_fallback_formats() {
    let a = Cookie::parse("foo=bar; Expires=Sunday, 23-Nov-14 20:00:00 GMT").ok().unwrap();
    assert!(a.expires.is_some());
    let b = Cookie::parse("foo=bar; Expires=Sun, 23-Nov-2014 20:00:00 GMT").ok().unwrap();
    assert!(b.expires.is_some());
    let c = Cookie::parse("foo=bar; Expires=Sun Nov 23 20:00:00 2014").ok().unwrap();
    assert!(c.expires.is_some());
    assert_eq!(b, c);
    let bad = Cookie::parse("foo=bar; Expires=whenever").ok().unwrap();
    assert_eq!(bad.expires, None);
}

#[test]
fn from_str_parses() {
    let c: Cookie = "foo=bar; Secure".parse().ok().unwrap();
    assert!(c.secure);
}
