use coro_core::cookie::{
    is_cookie_name_valid, parse_cookie_value, read_cookies, read_set_cookies,
    sanitize_cookie_path, sanitize_cookie_value, set_cookie, valid_cookie_domain,
    valid_cookie_expires, Cookie,
};
use coro_core::time::Time;
use http::{HeaderMap, HeaderValue};

fn name_value_cookie(name: &str, value: &str) -> Cookie {
    Cookie {
        name: name.to_string(),
        value: value.to_string(),
        path: "".to_string(),
        domain: "".to_string(),
        expires: Time::default(),
        raw_expires: "".to_string(),
        max_age: 0,
        secure: false,
        http_only: false,
        same_site: 0,
        raw: "".to_string(),
        unparsed: vec![],
    }
}

#[test]
#[allow(non_snake_case)]
fn TestIndexFunc() {
    assert_eq!(is_cookie_name_valid("Cookie-1"), true);
}

#[test]
#[allow(non_snake_case)]
fn TestReadCookies() {
    let mut h1 = HeaderMap::new();
    h1.insert("Cookie", HeaderValue::from_str("Cookie-1=v$1").unwrap());
    h1.append("Cookie", HeaderValue::from_str("c2=v2").unwrap());

    let h2 = name_value_cookie("Cookie-1", "v$1");
    let h3 = name_value_cookie("c2", "v2");
    let read_cookies_tests = vec![(h1, "", vec![h2, h3])];

    let mut i = 0;
    for tt in &read_cookies_tests {
        for _n in 0..2 {
            let c = read_cookies(tt.0.clone(), tt.1);
            for x in &c {
                println!("cookie:{}", x.name);
            }
            assert_eq!(tt.2.len(), c.len());
            let mut idx = 0;
            for x in &tt.2 {
                assert_eq!(x, tt.2.get(idx).unwrap());
                idx += 1;
            }
        }
        i += 1;
    }
    assert_eq!(i, 1);
}

#[test]
#[allow(non_snake_case)]
fn TestCookieSanitizePath() {
    let tests = vec![
        ("/path", "/path"),
        ("/path with space/", "/path with space/"),
        ("/just;no;semicolon\x00orstuff/", "/justnosemicolonorstuff/"),
    ];

    for (input, tt) in tests {
        let got = sanitize_cookie_path(input);
        assert_eq!(got, tt);
    }
}

#[test]
fn read_cookies_filter_and_order() {
    let mut h = HeaderMap::new();
    h.insert("Cookie", HeaderValue::from_str("a=1; b=2").unwrap());
    h.append("Cookie", HeaderValue::from_str("b=3").unwrap());

    // only the first pair of each header line is taken
    let all = read_cookies(h.clone(), "");
    assert_eq!(all.len(), 2);
    assert_eq!(all[0].name, "a");
    assert_eq!(all[0].value, "1");
    assert_eq!(all[1].name, "b");
    assert_eq!(all[1].value, "3");

    let only_b = read_cookies(h.clone(), "b");
    assert_eq!(only_b.len(), 1);
    assert_eq!(only_b[0].value, "3");

    // a quoted value loses its quotes; an invalid one drops the cookie
    let mut hq = HeaderMap::new();
    hq.insert("Cookie", HeaderValue::from_str("q=\"v 1\"").unwrap());
    hq.append("Cookie", HeaderValue::from_str("bad=a\\b").unwrap());
    let qs = read_cookies(hq, "");
    assert_eq!(qs.len(), 1);
    assert_eq!(qs[0].value, "v 1");
}

#[test]
fn read_set_cookies_attributes() {
    let mut h = HeaderMap::new();
    h.insert(
        "Set-Cookie",
        HeaderValue::from_str(
            "sid=abc; Path=/x; Domain=.example.com; Max-Age=7; Secure; HttpOnly",
        )
        .unwrap(),
    );
    let cs = read_set_cookies(h);
    assert_eq!(cs.len(), 1);
    let c = &cs[0];
    assert_eq!(c.name, "sid");
    assert_eq!(c.value, "abc");
    assert_eq!(c.path, "/x");
    assert_eq!(c.domain, ".example.com");
    assert_eq!(c.max_age, 7);
    assert!(c.secure);
    assert!(c.http_only);
    // the name=value part is re-examined as an attribute and lands in
    // unparsed, as does the domain part (it falls through to that push)
    assert_eq!(c.unparsed, vec!["sid=abc".to_string(), "Domain=.example.com".to_string()]);
}

#[test]
fn read_set_cookies_expires_and_max_age() {
    let mut h = HeaderMap::new();
    h.insert(
        "Set-Cookie",
        HeaderValue::from_str("e=1; Expires=Wed, 21 Oct 2015 07:28:00 GMT").unwrap(),
    );
    h.append("Set-Cookie", HeaderValue::from_str("d=2; Max-Age=0").unwrap());
    h.append("Set-Cookie", HeaderValue::from_str("n=3; Max-Age=-4").unwrap());
    h.append("Set-Cookie", HeaderValue::from_str("x=4; Max-Age=junk; Secure").unwrap());
    let cs = read_set_cookies(h);
    assert_eq!(cs.len(), 4);

    assert_eq!(cs[0].raw_expires, "Wed, 21 Oct 2015 07:28:00 GMT");
    assert_eq!(cs[0].expires.year, 2015);
    assert_eq!(cs[0].expires.month, 10);
    assert_eq!(cs[0].expires.day, 21);
    assert_eq!(cs[0].expires.hour, 7);
    assert_eq!(cs[0].expires.minute, 28);
    assert_eq!(cs[0].expires.weekday, 3);

    // Max-Age of zero means "delete now", recorded as -1
    assert_eq!(cs[1].max_age, -1);
    assert_eq!(cs[2].max_age, -1);

    // an unparsable Max-Age stops the attribute walk: Secure is never seen
    assert_eq!(cs[3].max_age, 0);
    assert!(!cs[3].secure);
}

#[test]
fn cookie_string_serialization() {
    // a *valid* name yields the empty string (the guard is inverted)
    let valid = name_value_cookie("ok", "v");
    assert_eq!(valid.string(), "");

    // an invalid name (space is not a token character) is serialized
    let mut c = name_value_cookie("a b", "v 1");
    c.path = "/p;q".to_string();
    c.domain = ".example.com".to_string();
    c.max_age = 12;
    c.secure = true;
    c.http_only = true;
    c.expires = Time { year: 2015, month: 10, day: 21, hour: 7, minute: 28, second: 0, weekday: 3 };
    assert_eq!(
        c.string(),
        "a b=\"v 1\"; Path=/pq; Domain=example.com; Expires=Wed, 21 Oct 2015 07:28:00 GMT; Max-Age=12; HttpOnly; Secure"
    );

    // a negative max age serializes as zero; a bad domain is dropped
    let mut d = name_value_cookie("a b", "v");
    d.max_age = -1;
    d.domain = "ex:ample".to_string();
    assert_eq!(d.string(), "a b=v; Max-Age=0");

    // set_cookie leaves the cookie unchanged
    let mut e = name_value_cookie("ok", "v");
    set_cookie(&mut e);
    assert_eq!(e, name_value_cookie("ok", "v"));
}

#[test]
fn sanitize_and_validate() {
    assert_eq!(sanitize_cookie_value("plain"), "plain");
    assert_eq!(sanitize_cookie_value("has space"), "\"has space\"");
    assert_eq!(sanitize_cookie_value("has,comma"), "\"has,comma\"");
    assert_eq!(sanitize_cookie_value("drop\"quote;semi\\slash"), "dropquotesemislash");
    assert_eq!(sanitize_cookie_value(""), "");

    assert_eq!(parse_cookie_value("\"quoted\"", true), ("quoted", true));
    assert_eq!(parse_cookie_value("\"quoted\"", false), ("", false));
    assert_eq!(parse_cookie_value("bad;semi", true), ("", false));

    assert!(valid_cookie_domain("example.com"));
    assert!(valid_cookie_domain(".example.com"));
    assert!(valid_cookie_domain("not_a_name_but_no_colon"));
    assert!(!valid_cookie_domain("has:colon"));
    assert!(!valid_cookie_domain(""));

    assert!(!is_cookie_name_valid(""));
    assert!(!is_cookie_name_valid("a b"));
    assert!(is_cookie_name_valid("__Secure-ID"));

    assert!(valid_cookie_expires(&Time {
        year: 1601,
        month: 1,
        day: 1,
        hour: 0,
        minute: 0,
        second: 0,
        weekday: 1,
    }));
    assert!(!valid_cookie_expires(&Time::default()));
}

#[test]
fn http_date_formatting_and_parsing() {
    let t = Time { year: 2015, month: 10, day: 21, hour: 7, minute: 28, second: 0, weekday: 3 };
    assert_eq!(t.http_format(), "Wed, 21 Oct 2015 07:28:00 GMT");
    assert_eq!(t.utc(), t);
    assert_eq!(t.year(), 2015);

    let parsed = Time::parse_rfc1123("Wed, 21 Oct 2015 07:28:00 GMT").unwrap();
    assert_eq!(parsed, t);

    // the weekday comes from the date, not from the (lying) name
    let lied = Time::parse_rfc1123("Mon, 21 Oct 2015 07:28:00 GMT").unwrap();
    assert_eq!(lied.weekday, 3);

    // leap-day handling
    assert!(Time::parse_rfc1123("Sat, 29 Feb 2020 00:00:00 GMT").is_some());
    assert!(Time::parse_rfc1123("Mon, 29 Feb 2021 00:00:00 GMT").is_none());
    assert!(Time::parse_rfc1123("not a date").is_none());
    assert!(Time::parse_rfc1123("Xyz, 21 Oct 2015 07:28:00 GMT").is_none());
}
