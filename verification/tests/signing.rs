use http_signatures::algorithm::{ShaSize, SignatureAlgorithm};
use http_signatures::headers::HeaderSet;
use http_signatures::message::{signing_string_of, MessageView};
use http_signatures::signing::build;

fn view(method: &str, path: &str, query: Option<&str>, headers: &[(&str, &str)]) -> MessageView {
    MessageView {
        method: method.to_string(),
        path: path.to_string(),
        query: query.map(|q| q.to_string()),
        headers: headers.iter().map(|(n, v)| (n.to_string(), v.to_string())).collect(),
    }
}

fn signing_string(msg: &MessageView) -> String {
    let ss = signing_string_of(msg, "rsa-key-1", SignatureAlgorithm::RSA(ShaSize::TwoFiftySix));
    String::from_utf8(ss.signing_string).unwrap()
}

#[test]
fn min_test() {
    let req = view("POST", "/foo", None, &[]);
    assert_eq!(signing_string(&req), "(request-target): post /foo");
}

#[test]
fn full_test() {
    let req = view(
        "POST",
        "/foo",
        None,
        &[
            ("Host", "example.org"),
            ("Content-Type", "application/json"),
            ("Digest", "SHA-256=X48E9qOokqqrvdts8nOJRJN3OWDUoyWxBf7kbu9DBPE="),
            ("Date", "Tue, 07 Jun 2014 20:51:35 GMT"),
            ("Content-Length", "18"),
        ],
    );
    assert_eq!(
        signing_string(&req),
        "(request-target): post /foo
content-length: 18
content-type: application/json
date: Tue, 07 Jun 2014 20:51:35 GMT
digest: SHA-256=X48E9qOokqqrvdts8nOJRJN3OWDUoyWxBf7kbu9DBPE=
host: example.org",
    )
}

#[test]
fn first_line_with_query() {
    let req = view("GeT", "/a/b", Some("x=1&y=2"), &[("Host", "h")]);
    let s = signing_string(&req);
    assert_eq!(s.lines().next().unwrap(), "(request-target): get /a/b?x=1&y=2");
}

#[test]
fn duplicate_names_merge_case_insensitively() {
    let req = view(
        "POST",
        "/foo",
        None,
        &[("Content-Type", "text/plain"), ("content-type", "charset=utf-8")],
    );
    assert_eq!(
        signing_string(&req),
        "(request-target): post /foo\ncontent-type: text/plain, charset=utf-8",
    );
}

#[test]
fn lines_ascend_in_byte_order() {
    let req = view(
        "POST",
        "/foo",
        None,
        &[("zulu", "3"), ("Alpha", "1"), ("mike", "2"), ("alpha-2", "4")],
    );
    let s = signing_string(&req);
    let names: Vec<&str> = s.lines().map(|l| l.split(':').next().unwrap()).collect();
    assert_eq!(names, vec!["(request-target)", "alpha", "alpha-2", "mike", "zulu"]);
    let mut sorted = names.clone();
    sorted.sort();
    assert_eq!(names, sorted);
}

#[test]
fn headers_list_matches_line_order() {
    let req = view("POST", "/foo", None, &[("B-Two", "2"), ("a-one", "1")]);
    let ss = signing_string_of(&req, "k", SignatureAlgorithm::HMAC(ShaSize::TwoFiftySix));
    let names: Vec<String> = ss
        .headers
        .into_iter()
        .map(|n| String::from_utf8(n).unwrap())
        .collect();
    assert_eq!(names, vec!["(request-target)", "a-one", "b-two"]);
}

#[test]
fn empty_header_set_yields_one_line() {
    let req = view("delete", "/", None, &[]);
    let s = signing_string(&req);
    assert_eq!(s.lines().count(), 1);
    assert_eq!(s, "(request-target): delete /");
}

#[test]
fn add_folds_into_the_sorted_set() {
    let mut hs = HeaderSet::new();
    hs.add("Content-Type", "text/plain");
    hs.add("Accept", "*/*");
    hs.add("content-TYPE", "charset=utf-8");
    let method = b"POST".to_vec();
    let path = b"/foo".to_vec();
    let ss = build(
        &method,
        &path,
        &None,
        &hs,
        "k",
        SignatureAlgorithm::HMAC(ShaSize::TwoFiftySix),
    );
    assert_eq!(
        String::from_utf8(ss.signing_string).unwrap(),
        "(request-target): post /foo\naccept: */*\ncontent-type: text/plain, charset=utf-8",
    );
}
