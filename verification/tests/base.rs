use rsrun::json::{parse_json, render_json, render_line, set_member, Json};
use rsrun::order::{less, sorted_texts};
use rsrun::path::{file_name_of, join, names_of, without_nul};
use rsrun::snapshot::list_xattrs;
use rsrun::text::{
    contains_text, dec_i64, dec_u64, in_base_u64, join_texts, parse_i32, parse_unsigned, split,
    trim,
};

fn s(t: &str) -> String {
    t.to_string()
}

#[test]
fn documents_are_read_and_written() {
    let v = parse_json("{\"b\": [1, -2, true, null, \"x\u{e9}\"], \"a\": {}}".as_bytes()).unwrap();
    assert_eq!(
        String::from_utf8(render_json(&v)).unwrap(),
        "{\"a\":{},\"b\":[1,-2,true,null,\"x\u{e9}\"]}"
    );
    let b = v.get("b").unwrap().as_array().unwrap();
    assert_eq!(b[0].as_u64(), Some(1));
    assert_eq!(b[1].as_i64(), Some(-2));
    assert_eq!(b[1].as_u64(), None);
    assert_eq!(b[2].as_bool(), Some(true));
    assert_eq!(b[4].as_str(), Some("x\u{e9}"));
    assert!(v.get("c").is_none());
    let e = parse_json(b"{").unwrap_err();
    assert!(e.message().contains("EOF"), "{}", e.message());
    assert_eq!(render_line(&Json::Null), b"null\n");
}

#[test]
fn a_member_is_set_in_its_place() {
    let v = parse_json(br#"{"a": 1, "c": 3}"#).unwrap();
    let v = set_member(v, "b", Json::UInt(2)).unwrap();
    let v = set_member(v, "c", Json::Str(s("x"))).unwrap();
    assert_eq!(render_json(&v), b"{\"a\":1,\"b\":2,\"c\":\"x\"}");
    assert!(set_member(Json::UInt(1), "a", Json::Null).is_none());
}

#[test]
fn names_are_split_at_zeros() {
    assert_eq!(list_xattrs(b"a\0\xff\0b\0"), vec![s("a"), s("b")]);
}

#[test]
fn numbers_are_written_and_read() {
    assert_eq!(dec_u64(0), "0");
    assert_eq!(dec_u64(u64::MAX), "18446744073709551615");
    assert_eq!(dec_i64(i64::MIN), "-9223372036854775808");
    assert_eq!(in_base_u64(8, 8), "10");
    assert_eq!(parse_unsigned("+12", 100), Some(12));
    assert_eq!(parse_unsigned("101", 100), None);
    assert_eq!(parse_unsigned("-1", 100), None);
    assert_eq!(parse_i32("-2147483648"), Some(i32::MIN));
    assert_eq!(parse_i32("2147483648"), None);
    assert_eq!(parse_i32(""), None);
}

#[test]
fn texts_are_taken_apart_and_joined() {
    assert_eq!(trim(" \t\u{a0}a b\u{3000}\n"), "a b");
    assert_eq!(split("a::b", ':'), vec![s("a"), s(""), s("b")]);
    assert_eq!(join_texts(&split("a::b", ':'), ":"), "a::b");
    assert!(contains_text("abcd", "bc") && !contains_text("abcd", "cb"));
    assert!(less("a", "ab") && less("ab", "b") && !less("b", "b"));
    assert_eq!(sorted_texts(&vec![s("b"), s("a"), s("b")]), vec![s("a"), s("b")]);
}

#[test]
fn paths_are_joined_by_their_names() {
    assert_eq!(join("/a", "b"), "/a/b");
    assert_eq!(join("/a/", "b"), "/a/b");
    assert_eq!(join("/a", "/b"), "/b");
    assert_eq!(names_of("/a//./b/"), vec![s("a"), s("b")]);
    assert_eq!(file_name_of("/bin/sh").as_deref(), Some("sh"));
    assert_eq!(file_name_of("/").as_deref(), None);
    assert!(without_nul("a", "m").is_ok());
    assert_eq!(without_nul("a\0", "m").unwrap_err().message(), "m");
}
