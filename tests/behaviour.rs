use x_diff::cli::{parse_key_val, KeyValError};
use x_diff::config::{DiffConfig, DiffProfile, ProfileError};
use x_diff::diff::{diff_lines, diff_text, split_lines, Edit};
use x_diff::json::Json;
use x_diff::request::{ConfigError, Method, RequestError, RequestProfile};
use x_diff::response::{filter_json, get_content_type, FilterError};
use x_diff::{ExtraArgs, KeyVal, KeyValType, ResponseExt, ResponseProfile};

fn num(n: u64) -> Json {
    Json::Number(serde_json::Number::from(n))
}

fn s(t: &str) -> String {
    t.to_string()
}

fn response(headers: Vec<(&str, &str)>, body: &str) -> ResponseExt {
    ResponseExt {
        version: s("HTTP/1.1"),
        status: 200,
        reason: s("OK"),
        headers: headers.into_iter().map(|(k, v)| (s(k), s(v))).collect(),
        body: s(body),
    }
}

fn get_profile(url: &str, params: Option<Json>) -> RequestProfile {
    RequestProfile::new(Method::Get, s(url), params, vec![], None)
}

#[test]
fn parse_query_override() {
    let kv = parse_key_val("key=value").unwrap();
    assert_eq!(kv, KeyVal { key_type: KeyValType::Query, key: s("key"), val: s("value") });
}

#[test]
fn parse_header_and_body_overrides() {
    let h = parse_key_val("%x-token = abc").unwrap();
    assert_eq!(h.key_type, KeyValType::Header);
    assert_eq!(h.key, "x-token");
    assert_eq!(h.val, "abc");
    let b = parse_key_val("#count=3").unwrap();
    assert_eq!(b.key_type, KeyValType::Body);
    assert_eq!(b.key, "count");
    assert_eq!(b.val, "3");
}

#[test]
fn parse_value_keeps_later_equals_signs() {
    let kv = parse_key_val("q=a=b").unwrap();
    assert_eq!(kv.key, "q");
    assert_eq!(kv.val, "a=b");
}

#[test]
fn override_without_equals_is_rejected() {
    assert_eq!(parse_key_val("keyvalue"), Err(KeyValError::MissingValue));
}

#[test]
fn override_with_bad_key_is_rejected() {
    assert_eq!(parse_key_val("1key=v"), Err(KeyValError::InvalidKey));
    assert_eq!(parse_key_val("=v"), Err(KeyValError::InvalidKey));
}

#[test]
fn extra_args_sorted_by_target() {
    let args = vec![
        parse_key_val("a=1").unwrap(),
        parse_key_val("%h=2").unwrap(),
        parse_key_val("#b=3").unwrap(),
        parse_key_val("c=4").unwrap(),
    ];
    let e = ExtraArgs::from(args);
    assert_eq!(e.query, vec![(s("a"), s("1")), (s("c"), s("4"))]);
    assert_eq!(e.headers, vec![(s("h"), s("2"))]);
    assert_eq!(e.body, vec![(s("b"), s("3"))]);
}

#[test]
fn content_type_drops_parameters() {
    let h = vec![(s("Content-Type"), s("application/json; charset=utf-8"))];
    assert_eq!(get_content_type(&h), Some(s("application/json")));
    assert_eq!(get_content_type(&vec![]), None);
}

#[test]
fn json_with_charset_is_treated_as_json() {
    let plain = response(vec![("content-type", "application/json")], "{\"b\":1,\"a\":2}");
    let charset = response(vec![("content-type", "application/json; charset=utf-8")], "{\"b\":1,\"a\":2}");
    let t1 = plain.filter_text(&None).unwrap();
    let t2 = charset.filter_text(&None).unwrap();
    assert_eq!(t1, t2);
    assert_eq!(t1, "HTTP/1.1 200 OK\n{\n  \"a\": 2,\n  \"b\": 1\n}");
}

#[test]
fn masked_key_stays_with_null() {
    let profile = Some(ResponseProfile::new(vec![], vec![s("ts")]));
    let text = filter_json("{\"id\":1,\"ts\":2}", &profile).unwrap();
    assert!(text.contains("\"ts\": null"));
    assert!(text.contains("\"id\": 1"));
}

#[test]
fn masking_an_absent_key_adds_it() {
    let profile = Some(ResponseProfile::new(vec![], vec![s("ts")]));
    let text = filter_json("{\"id\":1}", &profile).unwrap();
    assert!(text.contains("\"ts\": null"));
}

#[test]
fn invalid_json_body_fails() {
    let r = response(vec![("content-type", "application/json")], "not json");
    assert_eq!(r.filter_text(&None), Err(FilterError::BodyParse));
}

#[test]
fn masking_an_array_body_fails() {
    let profile = Some(ResponseProfile::new(vec![], vec![s("ts")]));
    assert_eq!(filter_json("[1,2]", &profile), Err(FilterError::BodyNotObject));
    assert!(filter_json("[1,2]", &None).is_ok());
}

#[test]
fn skipped_headers_are_left_out() {
    let r = response(vec![("date", "today"), ("x-id", "7"), ("Date", "again")], "hello");
    let profile = Some(ResponseProfile::new(vec![s("date")], vec![]));
    let text = r.filter_text(&profile).unwrap();
    assert_eq!(text, "HTTP/1.1 200 OK\nx-id: \"7\"\nDate: \"again\"\nhello");
}

#[test]
fn headers_only_shown_under_a_profile() {
    let r = response(vec![("x-id", "7")], "hello");
    assert_eq!(r.filter_text(&None).unwrap(), "HTTP/1.1 200 OK\nhello");
}

#[test]
fn non_json_body_kept_verbatim() {
    let body = "  {not: json}\r\n\tline two ";
    let r = response(vec![("content-type", "text/plain")], body);
    let profile = Some(ResponseProfile::new(vec![], vec![s("not")]));
    let text = r.filter_text(&profile).unwrap();
    assert_eq!(text, format!("HTTP/1.1 200 OK\ncontent-type: \"text/plain\"\n{}", body));
}

#[test]
fn status_line_uses_status_number() {
    let mut r = response(vec![], "");
    r.status = 404;
    r.reason = s("Not Found");
    assert_eq!(r.filter_text(&None).unwrap(), "HTTP/1.1 404 Not Found\n");
}

#[test]
fn header_keys_in_order() {
    let r = response(vec![("b", "1"), ("a", "2"), ("b", "3"), ("c", "4"), ("a", "5")], "");
    assert_eq!(r.get_header_keys(), vec![s("b"), s("a"), s("c")]);
}

#[test]
fn identical_texts_have_no_difference() {
    assert_eq!(diff_text("a\nb\nc", "a\nb\nc"), "");
    assert_eq!(diff_text("", ""), "");
}

#[test]
fn changed_field_shows_one_change() {
    let profile = DiffProfile::new(get_profile("http://a/", None), get_profile("http://b/", None), ResponseProfile::new(vec![], vec![]));
    let profile = DiffProfile { response: None, ..profile };
    let r1 = response(vec![("content-type", "application/json")], "{\"a\":1,\"b\":2}");
    let r2 = response(vec![("content-type", "application/json")], "{\"a\":1,\"b\":3}");
    let out = profile.diff(&r1, &r2).unwrap();
    assert_eq!(out, " HTTP/1.1 200 OK\n {\n   \"a\": 1,\n-  \"b\": 2\n+  \"b\": 3\n }\n");
}

#[test]
fn split_lines_keeps_empty_lines() {
    assert_eq!(split_lines("a\n\nb\n"), vec![s("a"), s(""), s("b"), s("")]);
    assert_eq!(split_lines(""), vec![s("")]);
}

#[test]
fn diff_lines_rebuilds_both_sides() {
    let a = vec![s("x"), s("y"), s("z")];
    let b = vec![s("y"), s("z"), s("w")];
    let es = diff_lines(&a, &b);
    let mut old = vec![];
    let mut new = vec![];
    for e in &es {
        match e {
            Edit::Same(l) => {
                old.push(l.clone());
                new.push(l.clone());
            }
            Edit::Removed(l) => old.push(l.clone()),
            Edit::Added(l) => new.push(l.clone()),
        }
    }
    assert_eq!(old, a);
    assert_eq!(new, b);
    assert_eq!(es.iter().filter(|e| matches!(e, Edit::Same(_))).count(), 2);
}

#[test]
fn query_override_appended_and_profile_unchanged() {
    let base = Json::Object(vec![(s("page"), num(1))]);
    let req = get_profile("http://example.com/api", Some(base));
    let args = ExtraArgs::from(vec![parse_key_val("key=value").unwrap()]);
    for _ in 0..2 {
        let parts = req.generate(&args).unwrap();
        match &parts.query {
            Json::Object(e) => {
                assert_eq!(e.len(), 2);
                assert_eq!(e[0].0, "page");
                assert_eq!(e[1].0, "key");
                assert!(matches!(&e[1].1, Json::Str(v) if v == "value"));
            }
            _ => panic!("query is not an object"),
        }
        match req.params.as_ref().unwrap() {
            Json::Object(e) => assert_eq!(e.len(), 1),
            _ => panic!("params changed"),
        }
    }
}

#[test]
fn override_values_read_as_json() {
    let req = get_profile("http://example.com/", None);
    let args = ExtraArgs::from(vec![parse_key_val("#n=5").unwrap(), parse_key_val("#n=6").unwrap()]);
    let parts = req.generate(&args).unwrap();
    assert_eq!(parts.body, "{\"n\":6}");
    match &parts.query {
        Json::Object(e) => assert!(e.is_empty()),
        _ => panic!("query is not an object"),
    }
}

#[test]
fn header_overrides_appended() {
    let req = RequestProfile::new(Method::Get, s("http://x/"), None, vec![(s("accept"), s("a"))], None);
    let args = ExtraArgs::from(vec![parse_key_val("%accept=b").unwrap()]);
    let parts = req.generate(&args).unwrap();
    assert_eq!(parts.headers, vec![(s("accept"), s("a")), (s("accept"), s("b"))]);
}

#[test]
fn invalid_header_override_fails() {
    let req = get_profile("http://x/", None);
    let args = ExtraArgs::from(vec![parse_key_val("%bad name=v").unwrap()]);
    assert!(matches!(req.generate(&args), Err(RequestError::InvalidHeader)));
    let args = ExtraArgs::from(vec![parse_key_val("%name=v\u{7f}").unwrap()]);
    assert!(matches!(req.generate(&args), Err(RequestError::InvalidHeader)));
}

#[test]
fn non_object_params_fail_validation() {
    let req = get_profile("http://x/", Some(Json::Array(vec![])));
    assert_eq!(req.validate(), Err(ConfigError::ParamsNotObject));
    let req = RequestProfile::new(Method::Post, s("http://x/"), None, vec![], Some(num(3)));
    assert_eq!(req.validate(), Err(ConfigError::BodyNotObject));
    assert_eq!(get_profile("http://x/", None).validate(), Ok(()));
}

#[test]
fn config_validation_names_the_profile() {
    let good = DiffProfile::new(get_profile("http://a/", None), get_profile("http://b/", None), ResponseProfile::new(vec![], vec![]));
    let bad = DiffProfile::new(
        get_profile("http://a/", None),
        get_profile("http://b/", Some(Json::Null)),
        ResponseProfile::new(vec![], vec![]),
    );
    let config = DiffConfig { profiles: vec![(s("good"), good), (s("bad"), bad)] };
    let err = config.validate().err().unwrap();
    assert_eq!(err.name, "bad");
    assert_eq!(err.error, ProfileError::RequestSecond(ConfigError::ParamsNotObject));
    assert!(config.get_profile("good").is_some());
    assert!(config.get_profile("missing").is_none());
}

#[test]
fn url_query_becomes_params() {
    let req = RequestProfile::from_url("http://example.com/a?x=1&y=hi&x=2").unwrap();
    assert_eq!(req.method, Method::Get);
    match req.params.as_ref().unwrap() {
        Json::Object(e) => {
            assert_eq!(e.len(), 2);
            assert_eq!(e[0].0, "x");
            assert!(matches!(&e[0].1, Json::Number(n) if n.as_u64() == Some(2)));
            assert!(matches!(&e[1].1, Json::Str(v) if v == "hi"));
        }
        _ => panic!("params are not an object"),
    }
    assert!(matches!(RequestProfile::from_url("not a url"), Err(RequestError::InvalidUrl)));
}

#[test]
fn json_round_trip_through_parser() {
    let j = Json::from_text("{\"a\":[1,true,null,\"s\"]}").unwrap();
    assert!(j.is_object());
    let c = j.copy();
    assert!(c.is_object());
    assert!(Json::from_text("{").is_err());
}

#[test]
fn json_text_round_trip() {
    let j = Json::Object(vec![(s("b"), num(2)), (s("a"), Json::Array(vec![Json::Bool(true), Json::Null]))]);
    let text = j.to_text();
    assert_eq!(text, "{\"a\":[true,null],\"b\":2}");
    let back = Json::from_text(&text).unwrap();
    assert_eq!(back.to_text(), text);
}

#[test]
fn set_key_on_scalar_fails() {
    let mut j = Json::Str(s("x"));
    assert!(j.set_key(&s("k"), Json::Null).is_err());
    let mut n = Json::Null;
    assert!(n.set_key(&s("k"), num(1)).is_ok());
    assert!(n.is_object());
}

#[test]
fn prepare_applies_overrides_to_both_requests() {
    let profile = DiffProfile::new(
        get_profile("http://a/", None),
        get_profile("http://b/", Some(Json::Object(vec![(s("x"), num(1))]))),
        ResponseProfile::new(vec![], vec![]),
    );
    let args = ExtraArgs::from(vec![parse_key_val("x=2").unwrap()]);
    let (p1, p2) = profile.prepare(&args).unwrap();
    assert_eq!(p1.query.to_text(), "{\"x\":2}");
    assert_eq!(p2.query.to_text(), "{\"x\":2}");
    let bad = ExtraArgs::from(vec![parse_key_val("%a b=1").unwrap()]);
    assert!(matches!(profile.prepare(&bad), Err(RequestError::InvalidHeader)));
}

#[test]
fn profile_validation_reports_first_request() {
    let p = DiffProfile::new(
        get_profile("http://a/", Some(num(1))),
        get_profile("http://b/", Some(num(2))),
        ResponseProfile::new(vec![], vec![]),
    );
    assert_eq!(p.validate(), Err(ProfileError::RequestFirst(ConfigError::ParamsNotObject)));
}

#[test]
fn diff_reports_body_parse_failure() {
    let profile = DiffProfile::new(get_profile("http://a/", None), get_profile("http://b/", None), ResponseProfile::new(vec![], vec![]));
    let bad = response(vec![("content-type", "application/json")], "{oops");
    let good = response(vec![], "fine");
    assert_eq!(profile.diff(&bad, &good), Err(FilterError::BodyParse));
    assert_eq!(profile.diff(&good, &bad), Err(FilterError::BodyParse));
}

#[test]
fn diff_keeps_longest_common_lines() {
    let out = diff_text("a\nb\nc\nd", "b\nx\nc\nd\ne");
    assert_eq!(out, "-a\n b\n+x\n c\n d\n+e\n");
}

#[test]
fn generate_merges_query_in_order() {
    let req = get_profile("http://x/", Some(Json::Object(vec![(s("a"), num(1))])));
    let args = ExtraArgs { headers: vec![], query: vec![(s("b"), s("2")), (s("a"), s("3"))], body: vec![] };
    let parts = req.generate(&args).unwrap();
    assert_eq!(parts.query.to_text(), "{\"a\":3,\"b\":2}");
    assert_eq!(parts.body, "{}");
    assert!(parts.headers.is_empty());
}
