use semdoc::dict::{before, distinct_texts, insert_text, Dict};
use semdoc::json::{find, put, rank, Json, Number};
use semdoc::text::{
    blank, contains, decimal_text, ends_with, escape, join, parse_i64, parse_upto, quote, same,
    signed_text, split, split_once, starts_with, strip_prefix, strip_suffix, to_lower, trim,
};

fn json(s: &str) -> Json {
    Json::parse(s).unwrap()
}

#[test]
fn json_is_read_and_written() {
    let j = json("{\"b\": [1, -2, 0.5, 18446744073709551615, true, null], \"a\": \"x\\n\"}");
    assert_eq!(
        j.compact(),
        "{\"a\":\"x\\n\",\"b\":[1,-2,0.5,18446744073709551615,true,null]}"
    );
    assert_eq!(json(&j.compact()), json(&j.pretty()));
    let b = j.get("b").unwrap().as_array().unwrap();
    assert_eq!(b[0], Json::Num(Number::Int(1)));
    assert_eq!(b[3], Json::Num(Number::Big(u64::MAX)));
    match &b[2] {
        Json::Num(Number::Float(f)) => {
            assert_eq!(f.bits, 0.5f64.to_bits());
            assert_eq!(f.plain, "0.5");
        }
        other => panic!("{other:?}"),
    }
    assert_eq!(json("[]").pretty(), "[]");
    assert_eq!(json("[1]").pretty(), "[\n  1\n]");
    assert!(Json::parse("{").is_err());
}

#[test]
fn json_goes_through_other_crates() {
    let v: serde_json::Value = serde_json::from_str("{\"k\": [1, 2.5, \"s\", null]}").unwrap();
    let j = Json::from_value(v.clone());
    assert_eq!(j, json("{\"k\": [1, 2.5, \"s\", null]}"));
    assert_eq!(j.to_value(), v);
}

#[test]
fn json_accessors() {
    let j = json("{\"s\": \"x\", \"i\": 3, \"b\": true, \"f\": 1.5, \"o\": {}}");
    assert_eq!(j.str_field("s"), Some("x"));
    assert_eq!(j.str_field("i"), None);
    assert_eq!(j.get("i").unwrap().as_i64(), Some(3));
    assert_eq!(j.get("i").unwrap().as_u64(), Some(3));
    assert_eq!(j.get("f").unwrap().as_i64(), None);
    assert_eq!(j.get("b").unwrap().as_bool(), Some(true));
    assert_eq!(j.get("o").unwrap().as_object().unwrap().len(), 0);
    assert!(j.get("none").is_none());
    assert_eq!(json("-1").as_u64(), None);
    assert!(j.copy().same(&j));
    assert!(json("{\"a\": 1, \"b\": 2}").same(&json("{\"b\": 2, \"a\": 1}")));
    assert!(!json("1").same(&json("1.0")));
}

#[test]
fn entries_are_put_in_place() {
    let mut e = vec![("a".to_string(), json("1")), ("b".to_string(), json("2"))];
    put(&mut e, "a", json("3"));
    put(&mut e, "c", json("4"));
    assert_eq!(e.len(), 3);
    assert_eq!(find(&e, "a"), Some(&json("3")));
    assert_eq!(find(&e, "b"), Some(&json("2")));
    assert_eq!(find(&e, "c"), Some(&json("4")));
    assert_eq!(find(&e, "d"), None);
}

#[test]
fn floats_are_ranked() {
    let r = |x: f64| rank(x.to_bits());
    assert!(r(-2.0) < r(-1.0) && r(-1.0) < r(0.0) && r(0.0) < r(0.5) && r(0.5) < r(1e300));
    assert_eq!(r(0.0), r(-0.0));
}

#[test]
fn dicts_are_ordered_maps() {
    let mut d: Dict<u32> = Dict::new();
    for (k, v) in [("m", 1), ("a", 2), ("z", 3), ("a", 4)] {
        d.insert(k.to_string(), v);
    }
    assert_eq!(d.keys, vec!["a", "m", "z"]);
    assert_eq!(d.get("a"), Some(&4));
    assert_eq!(d.get("b"), None);
    assert!(d.contains("z"));
    assert!(d.remove("z"));
    assert!(!d.remove("z"));
    assert!(!d.contains("z"));
    assert!(before("A", "a") && before("a", "aa") && !before("a", "a"));
    let mut l = Vec::new();
    for t in ["b", "a", "b"] {
        insert_text(&mut l, t);
    }
    assert_eq!(l, vec!["a", "b"]);
    let many = ["é", "z", "é", "a"].map(|s| s.to_string()).to_vec();
    assert_eq!(distinct_texts(&many), vec!["a", "z", "é"]);
}

#[test]
fn texts_are_taken_apart() {
    assert_eq!(split("a,,b", ','), vec!["a", "", "b"]);
    assert_eq!(split("", ','), vec![""]);
    assert_eq!(split_once("a=b=c", '='), Some(("a".to_string(), "b=c".to_string())));
    assert_eq!(split_once("abc", '='), None);
    assert_eq!(strip_prefix("abc", "ab").as_deref(), Some("c"));
    assert_eq!(strip_suffix("abc", "bc").as_deref(), Some("a"));
    assert_eq!(strip_suffix("abc", "x"), None);
    assert_eq!(trim(" \u{3000}a b\n"), "a b");
    assert!(blank(" \t\r\n\u{a0}"));
    assert!(!blank("x"));
    assert!(contains("hello", "ell") && contains("", "") && !contains("a", "b"));
    assert!(starts_with("abc", "ab") && ends_with("abc", "bc"));
    assert!(same("é", "é") && !same("e", "é"));
    assert_eq!(to_lower("ÀBc"), "Àbc");
    assert_eq!(join(&vec!["a".to_string(), "b".to_string()], ", "), "a, b");
}

#[test]
fn quoted_texts_cannot_end_early() {
    assert_eq!(escape("a'b''c"), "a''b''''c");
    assert_eq!(quote("' OR 1=1 --"), "''' OR 1=1 --'");
}

#[test]
fn numbers_are_written_and_read() {
    assert_eq!(decimal_text(0), "0");
    assert_eq!(decimal_text(u64::MAX), "18446744073709551615");
    assert_eq!(signed_text(i64::MIN), "-9223372036854775808");
    assert_eq!(parse_upto("+42", 100), Some(42));
    assert_eq!(parse_upto("101", 100), None);
    assert_eq!(parse_upto("", 100), None);
    assert_eq!(parse_upto("-0", 100), None);
    assert_eq!(parse_i64("-9223372036854775808"), Some(i64::MIN));
    assert_eq!(parse_i64("9223372036854775808"), None);
    assert_eq!(parse_i64("-"), None);
    assert_eq!(parse_i64("1_0"), None);
}
