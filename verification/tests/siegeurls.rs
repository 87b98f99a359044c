use loadymcloadface::duration::Duration;
use loadymcloadface::siegeurls::{
    load_body_if_redirected, should_preload, BodyData, Method, SiegeUrls,
    StrideFilter, UrlEntry,
};

fn reader(env: &[(&str, &str)]) -> SiegeUrls {
    let pairs: Vec<(String, String)> =
        env.iter().map(|(k, v)| (k.to_string(), v.to_string())).collect();
    SiegeUrls::new(Duration::from_millis(100), pairs)
}

fn pair(a: &str, b: &str) -> Option<(String, String)> {
    Some((a.to_string(), b.to_string()))
}

fn content(body: &BodyData) -> Option<Vec<u8>> {
    match body {
        BodyData::Content(c) => Some(c.clone()),
        _ => None,
    }
}

fn entry(url: &str, delay_ms: u64) -> UrlEntry {
    UrlEntry {
        delay: Duration::from_millis(delay_ms),
        urlpart: url.to_string(),
        method: Method::get(),
        content_type: None,
        body: BodyData::NoBody,
    }
}

#[test]
fn assignment_lines() {
    assert_eq!(SiegeUrls::parse_assignment("NAME=value"), pair("NAME", "value"));
    assert_eq!(SiegeUrls::parse_assignment("  KEY_1=val  # a comment"), pair("KEY_1", "val"));
    assert_eq!(SiegeUrls::parse_assignment("PART1=PART2=2"), pair("PART1", "PART2=2"));
    assert_eq!(SiegeUrls::parse_assignment("EMPTY="), pair("EMPTY", ""));
    assert_eq!(SiegeUrls::parse_assignment("Déjà=vu"), pair("Déjà", "vu"));
    assert_eq!(SiegeUrls::parse_assignment("A_1=x # c"), pair("A_1", "x"));
}

#[test]
fn lines_that_are_not_assignments() {
    assert_eq!(SiegeUrls::parse_assignment("no assignment here"), None);
    assert_eq!(SiegeUrls::parse_assignment("A-B=1"), None);
    assert_eq!(SiegeUrls::parse_assignment("NAME = value"), None);
    assert_eq!(SiegeUrls::parse_assignment("A =1"), None);
    assert_eq!(SiegeUrls::parse_assignment("http://example.com/?a=b"), None);
    assert_eq!(SiegeUrls::parse_assignment("ITEM$(INDEX)=Test"), None);
}

#[test]
fn content_type_closed_by_semicolon() {
    let (t, b) = SiegeUrls::get_type_and_body("-T application/json; {\"example1\":\"value2\"}");
    assert_eq!(t.as_deref(), Some("application/json"));
    assert_eq!(b.as_deref(), Some("{\"example1\":\"value2\"}"));
}

#[test]
fn content_type_without_semicolon() {
    let (t, b) = SiegeUrls::get_type_and_body("-T application/json {\"example1\":\"value2\"}");
    assert_eq!(t.as_deref(), Some("application/json"));
    assert_eq!(b.as_deref(), Some("{\"example1\":\"value2\"}"));
}

#[test]
fn content_type_in_quotes() {
    let (t, b) = SiegeUrls::get_type_and_body(
        "-T \"text/html; charset=utf-8\" <html><body>Example</body></html>",
    );
    assert_eq!(t.as_deref(), Some("text/html; charset=utf-8"));
    assert_eq!(b.as_deref(), Some("<html><body>Example</body></html>"));
}

#[test]
fn content_type_edge_cases() {
    let (t, b) = SiegeUrls::get_type_and_body("-T application/json");
    assert_eq!(t.as_deref(), Some("application/json"));
    assert_eq!(b, None);
    let (t, b) = SiegeUrls::get_type_and_body("-T application/json;");
    assert_eq!(t.as_deref(), Some("application/json"));
    assert_eq!(b.as_deref(), Some(""));
    let (t, b) = SiegeUrls::get_type_and_body("-T \"text/plain ");
    assert_eq!(t.as_deref(), Some("text/plain"));
    assert_eq!(b, None);
    let (t, b) = SiegeUrls::get_type_and_body("  {\"a\": 1}  ");
    assert_eq!(t, None);
    assert_eq!(b.as_deref(), Some("{\"a\": 1}"));
}

#[test]
fn body_text() {
    match SiegeUrls::body_from_text(Some("<  data/file.json ")) {
        BodyData::File(p) => assert_eq!(p, "data/file.json"),
        other => panic!("unexpected {:?}", other),
    }
    assert_eq!(content(&SiegeUrls::body_from_text(Some("abc"))), Some(b"abc".to_vec()));
    assert!(matches!(SiegeUrls::body_from_text(None), BodyData::NoBody));
}

#[test]
fn methods() {
    assert_eq!(Method::get().as_str(), "GET");
    assert_eq!(Method::from_token("POST").map(|m| m.as_str().to_string()), Some("POST".to_string()));
    assert_eq!(Method::from_token("purge").map(|m| m.as_str().to_string()), Some("purge".to_string()));
    assert!(Method::from_token("").is_none());
    assert!(Method::from_token("G@T").is_none());
    assert!(Method::from_token("GÉT").is_none());
}

#[test]
fn unassigned_reference_is_empty() {
    let r = reader(&[]);
    assert_eq!(r.replace_vars("http://$(NOVALUE).com"), "http://.com");
    assert_eq!(r.replace_vars("${UNSET_VARIABLE}"), "");
}

#[test]
fn references_take_environment_values() {
    let r = reader(&[("HOME_X", "/home"), ("A", "1"), ("A", "2")]);
    assert_eq!(r.replace_vars("${HOME_X}/a"), "/home/a");
    assert_eq!(r.replace_vars("x$(HOME_X)y"), "x/homey");
    assert_eq!(r.replace_vars("$HOME_X"), "/home");
    assert_eq!(r.replace_vars("$HOME_X/b"), "/home/b");
    assert_eq!(r.replace_vars("$A"), "2");
    assert_eq!(r.replace_vars("x$HOME_X#comment"), "x/home#comment");
}

#[test]
fn escapes() {
    let r = reader(&[("HOME_X", "/home")]);
    assert_eq!(r.replace_vars("\\$HOME_X"), "$HOME_X");
    assert_eq!(r.replace_vars("a\\\\b"), "a\\b");
    assert_eq!(r.replace_vars("\\a"), "\\a");
    assert_eq!(r.replace_vars("end\\"), "end\\");
    assert_eq!(r.replace_vars("\\\\$HOME_X"), "\\/home");
}

#[test]
fn literal_dollars_and_unclosed_references() {
    let r = reader(&[]);
    assert_eq!(r.replace_vars("a$"), "a$");
    assert_eq!(r.replace_vars("a$ b"), "a$ b");
    assert_eq!(r.replace_vars("$$"), "$$");
    assert_eq!(r.replace_vars("${}"), "${}");
    assert_eq!(r.replace_vars("$()"), "$()");
    assert_eq!(r.replace_vars("x${UNCLOSED"), "x${UNCLOSED");
    assert_eq!(r.replace_vars("no specials # here"), "no specials # here");
    assert_eq!(r.replace_vars("a $b#c"), "a #c");
    assert_eq!(r.replace_vars("\\x # gone"), "\\x ");
}

#[test]
fn references_after_other_characters() {
    let r = reader(&[("A", "x")]);
    assert_eq!(r.replace_vars("é$A"), "éx");
    assert_eq!(r.replace_vars("$é"), "$é");
    assert_eq!(r.replace_vars("plain é"), "plain é");
    assert_eq!(r.replace_vars("$é/$(A)"), "$é/x");
    assert_eq!(r.replace_vars("ü${A}ü"), "üxü");
    assert_eq!(r.replace_vars("$A/é"), "x/é");
    assert_eq!(r.replace_vars("$Aé"), "");
    assert_eq!(r.replace_vars("é${UNCLOSED"), "é${UNCLOSED");
    assert_eq!(r.replace_vars("é${}"), "é${}");
}

#[test]
fn file_variables_and_entries() {
    let mut r = reader(&[]);
    let delay = Duration::from_millis(250);
    assert!(r.parse_line("BASE=http://h", delay).is_none());
    let e = r
        .parse_line("${BASE}/p POST -T application/json; {\"k\":1}", delay)
        .unwrap();
    assert_eq!(e.urlpart, "http://h/p");
    assert_eq!(e.method.as_str(), "POST");
    assert_eq!(e.content_type.as_deref(), Some("application/json"));
    assert_eq!(content(&e.body), Some(b"{\"k\":1}".to_vec()));
    assert_eq!(e.delay, delay);
    // A variable keeps the first value that the file assigns it.
    assert!(r.parse_line("BASE=http://other", delay).is_none());
    assert_eq!(r.replace_vars("$BASE"), "http://h");
}

#[test]
fn skipped_lines() {
    let mut r = reader(&[]);
    let delay = Duration::from_millis(1);
    assert!(r.parse_line("", delay).is_none());
    assert!(r.parse_line("   \t ", delay).is_none());
    assert!(r.parse_line("  # a comment", delay).is_none());
    assert!(r.parse_line("# another", delay).is_none());
}

#[test]
fn self_reference_is_empty() {
    let mut r = reader(&[]);
    let delay = Duration::from_millis(1);
    assert!(r.parse_line("RECURSE=SELF$(RECURSE)", delay).is_none());
    assert_eq!(r.replace_vars("$(RECURSE)"), "SELF");
}

#[test]
fn variable_spans_several_parts() {
    let mut r = reader(&[]);
    let delay = Duration::from_millis(1);
    assert!(r.parse_line("EXAMPLE=example_value PUT -T application/json;", delay).is_none());
    let e = r
        .parse_line("http://127.0.0.1:8080/reviews?example=${EXAMPLE}", delay)
        .unwrap();
    assert_eq!(e.urlpart, "http://127.0.0.1:8080/reviews?example=example_value");
    assert_eq!(e.method.as_str(), "PUT");
    assert_eq!(e.content_type.as_deref(), Some("application/json"));
    assert_eq!(content(&e.body), Some(Vec::new()));
}

#[test]
fn entries_of_each_shape() {
    let mut r = reader(&[]);
    let delay = Duration::from_millis(5);
    let e = r.parse_line("https://www.example.com/path1/path2/foo", delay).unwrap();
    assert_eq!(e.urlpart, "https://www.example.com/path1/path2/foo");
    assert_eq!(e.method.as_str(), "GET");
    assert!(e.content_type.is_none());
    assert!(matches!(e.body, BodyData::NoBody));
    let e = r.parse_line("path2/bar DELETE", delay).unwrap();
    assert_eq!(e.urlpart, "path2/bar");
    assert_eq!(e.method.as_str(), "DELETE");
    assert!(matches!(e.body, BodyData::NoBody));
    let e = r
        .parse_line("https://www.example.com/upload POST {\"item1\": \"value1\"}", delay)
        .unwrap();
    assert_eq!(e.method.as_str(), "POST");
    assert!(e.content_type.is_none());
    assert_eq!(content(&e.body), Some(b"{\"item1\": \"value1\"}".to_vec()));
    let e = r.parse_line("https://www.example.com/upload PUT <body.json", delay).unwrap();
    match e.body {
        BodyData::File(p) => assert_eq!(p, "body.json"),
        other => panic!("unexpected {:?}", other),
    }
}

#[test]
fn token_that_names_no_method_is_part_of_the_url() {
    let mut r = reader(&[("A", "x")]);
    let delay = Duration::from_millis(5);
    let line = "http://127.0.0.1:8080 {\"key\": \"value\"}";
    let e = r.parse_line(line, delay).unwrap();
    assert_eq!(e.urlpart, line);
    assert_eq!(e.method.as_str(), "GET");
    assert!(e.content_type.is_none());
    assert!(matches!(e.body, BodyData::NoBody));
    let e = r.parse_line("http://h G@T", delay).unwrap();
    assert_eq!(e.urlpart, "http://h G@T");
    assert_eq!(e.method.as_str(), "GET");
    let e = r.parse_line("http://h/$(A) G@T body", delay).unwrap();
    assert_eq!(e.urlpart, "http://h/x G@T body");
    assert_eq!(e.method.as_str(), "GET");
}

#[test]
fn assignment_with_non_ascii_value() {
    let mut r = reader(&[("A", "x")]);
    let delay = Duration::from_millis(5);
    assert!(r.parse_line("X=é$A", delay).is_none());
    assert_eq!(r.replace_vars("$X"), "éx");
}

#[test]
fn reader_keeps_its_delay() {
    let r = reader(&[]);
    assert_eq!(r.default_delay(), Duration::from_millis(100));
}

#[test]
fn redirected_bodies() {
    assert!(should_preload(true, Some(16384)));
    assert!(!should_preload(true, Some(16385)));
    assert!(!should_preload(true, None));
    assert!(!should_preload(false, Some(1)));
    assert!(matches!(
        load_body_if_redirected("x".to_string(), false, None, None),
        BodyData::NoBody
    ));
    assert_eq!(
        content(&load_body_if_redirected("x".to_string(), true, Some(3), Some(b"abc".to_vec()))),
        Some(b"abc".to_vec())
    );
    assert_eq!(
        content(&load_body_if_redirected("x".to_string(), true, Some(3), None)),
        Some(Vec::new())
    );
    match load_body_if_redirected("big.bin".to_string(), true, Some(20000), None) {
        BodyData::File(p) => assert_eq!(p, "big.bin"),
        other => panic!("unexpected {:?}", other),
    }
}

#[test]
fn stride_sends_one_entry_per_round() {
    // Four instances share the file; this one is the second of each four.
    let mut f = StrideFilter::new(4, 1);
    let mut sent = Vec::new();
    for i in 0..9u64 {
        if let Some(e) = f.take(entry(&format!("u{}", i), 1000)) {
            sent.push((e.urlpart.clone(), e.delay));
        }
    }
    assert_eq!(
        sent,
        vec![
            ("u1".to_string(), Duration::from_millis(2000)),
            ("u5".to_string(), Duration::from_millis(4000)),
        ]
    );
}

#[test]
fn stride_of_one_sends_everything() {
    let mut f = StrideFilter::new(1, 0);
    for i in 0..3u64 {
        let e = f.take(entry("u", 10 + i)).unwrap();
        assert_eq!(e.delay, Duration::from_millis(10 + i));
    }
}

#[test]
fn stride_delay_saturates() {
    let mut f = StrideFilter::new(2, 1);
    let mut big = entry("a", 0);
    big.delay = Duration::max_value();
    assert!(f.take(big).is_none());
    let e = f.take(entry("b", 5)).unwrap();
    assert_eq!(e.delay, Duration::max_value());
}

#[test]
fn instances_split_the_file() {
    let mut filters: Vec<StrideFilter> = (0..4).map(|o| StrideFilter::new(4, o)).collect();
    let mut senders = Vec::new();
    for i in 0..8u64 {
        let mut sent_by = Vec::new();
        for (o, f) in filters.iter_mut().enumerate() {
            if f.take(entry(&format!("u{}", i), 1)).is_some() {
                sent_by.push(o);
            }
        }
        senders.push(sent_by);
    }
    assert_eq!(
        senders,
        vec![vec![0], vec![1], vec![2], vec![3], vec![0], vec![1], vec![2], vec![3]]
    );
}

#[test]
fn later_assignment_is_used() {
    let mut r = reader(&[]);
    let delay = Duration::from_millis(1);
    let e = r.parse_line("http://h/$(LATER)", delay).unwrap();
    assert_eq!(e.urlpart, "http://h/");
    assert!(r.parse_line("LATER=x", delay).is_none());
    let e = r.parse_line("http://h/$(LATER)", delay).unwrap();
    assert_eq!(e.urlpart, "http://h/x");
}
