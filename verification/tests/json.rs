//! JSON values.

use ncrawler::json::{Json, JsonMap, Num};

fn convert(v: serde_json::Value) -> Json {
    match v {
        serde_json::Value::Null => Json::Null,
        serde_json::Value::Bool(b) => Json::Bool(b),
        serde_json::Value::Number(n) => Json::Number(Num::from_number(n)),
        serde_json::Value::String(s) => Json::Text(s),
        serde_json::Value::Array(xs) => Json::Array(xs.into_iter().map(convert).collect()),
        serde_json::Value::Object(m) => {
            let mut map = JsonMap::new();
            for (k, v) in m {
                map.insert(k, convert(v));
            }
            Json::Object(map)
        }
    }
}

fn json(text: &str) -> Json {
    convert(serde_json::from_str(text).unwrap())
}

const SAMPLE: &str = "{\"b\":[1,-2,2.50,true,null,\"q\\\"\\u0001\\u00e9\"],\"a\":{},\"c\":{\"z\":[],\
                      \"y\":18446744073709551615}}";

#[test]
fn values_print_as_serde_json_prints_them() {
    let value: serde_json::Value = serde_json::from_str(SAMPLE).unwrap();
    assert_eq!(json(SAMPLE).to_text(), value.to_string());
    assert_eq!(
        json(SAMPLE).to_pretty_text(),
        serde_json::to_string_pretty(&value).unwrap()
    );
    assert_eq!(
        json("{\"b\":1,\"a\":[true,\"x\"]}").to_text(),
        "{\"a\":[true,\"x\"],\"b\":1}"
    );
    assert_eq!(json("[1]").to_pretty_text(), "[\n  1\n]");
}

#[test]
fn values_are_read_by_their_type() {
    let v = json(SAMPLE);
    let b = v.get("b").unwrap().as_array().unwrap();
    assert_eq!(b[0].as_i64(), Some(1));
    assert_eq!(b[0].as_u64(), Some(1));
    assert_eq!(b[1].as_i64(), Some(-2));
    assert_eq!(b[1].as_u64(), None);
    assert_eq!(b[2].as_i64(), None);
    assert_eq!(b[2].as_u64(), None);
    assert_eq!(b[3].as_bool(), Some(true));
    assert!(b[4].is_null() && !b[3].is_null());
    assert_eq!(b[5].as_str(), Some("q\"\u{1}\u{e9}"));
    assert_eq!(b[5].as_bool(), None);
    let y = v.get("c").unwrap().get("y").unwrap();
    assert_eq!(y.as_u64(), Some(u64::MAX));
    assert_eq!(y.as_i64(), None);
    assert!(v.get("missing").is_none());
    assert!(b[0].get("a").is_none());
    assert!(b[0].as_array().is_none() && b[0].as_object().is_none() && b[0].as_str().is_none());
}

#[test]
fn members_are_kept_in_key_order() {
    let mut map = JsonMap::new();
    for key in ["b", "a", "\u{e9}", "Z", "b"] {
        map.insert(key.to_string(), Json::Text(format!("<{key}>{}", map.len())));
    }
    assert_eq!(map.len(), 4);
    let keys: Vec<&str> = (0..map.len()).map(|i| map.key(i).as_str()).collect();
    assert_eq!(keys, vec!["Z", "a", "b", "\u{e9}"]);
    assert_eq!(map.value(2).as_str(), Some("<b>4"));
    assert_eq!(map.get("a").unwrap().as_str(), Some("<a>1"));
    assert!(map.get("c").is_none());
}

#[test]
fn a_copy_prints_alike() {
    assert_eq!(json(SAMPLE).copy().to_text(), json(SAMPLE).to_text());
    assert_eq!(json(SAMPLE).clone(), json(SAMPLE));
}

#[test]
fn strings_are_escaped() {
    let text = Json::Text("\"\\\u{8}\t\n\u{c}\r\u{0}\u{1f}\u{7f}/\u{e9}".to_string());
    assert_eq!(
        text.to_text(),
        "\"\\\"\\\\\\b\\t\\n\\f\\r\\u0000\\u001f\u{7f}/\u{e9}\""
    );
    let mut map = JsonMap::new();
    map.insert("a\"b".to_string(), Json::Null);
    assert_eq!(Json::Object(map).to_text(), "{\"a\\\"b\":null}");
}

#[test]
fn numbers_keep_their_printed_form() {
    for (given, printed) in [
        ("2.50", "2.5"),
        ("1.0", "1.0"),
        ("-0.0", "-0.0"),
        ("1e400", ""),
        ("5e-324", "5e-324"),
        ("18446744073709551616", "1.8446744073709552e+19"),
    ] {
        match serde_json::from_str::<serde_json::Value>(given) {
            Ok(value) => match convert(value) {
                Json::Number(Num::Float(f)) => {
                    assert_eq!(f.text(), printed);
                    assert_eq!(Json::Number(Num::Float(f)).to_text(), printed);
                }
                _ => panic!("{given} is no integer"),
            },
            Err(_) => assert_eq!(printed, ""),
        }
    }
}

#[test]
fn different_values_print_differently() {
    let values = [
        "null", "true", "false", "0", "-1", "1", "1.0", "\"\"", "\"1\"", "\"null\"", "[]", "[[]]",
        "[1]", "[1,1]", "[[1],1]", "[\"1,1\"]", "{}", "{\"a\":1}", "{\"a\":[1]}", "{\"a:1\":1}",
        "[{\"a\":1}]", "[\"],[\"]",
    ];
    for (i, a) in values.iter().enumerate() {
        for (j, b) in values.iter().enumerate() {
            assert_eq!(json(a).to_text() == json(b).to_text(), i == j, "{a} {b}");
            assert_eq!(json(a) == json(b), i == j, "{a} {b}");
        }
    }
}

#[test]
fn the_indented_form_nests_by_two_blanks() {
    assert_eq!(
        json("{\"b\":[],\"a\":[{},{\"k\":[1,\"x\"]}],\"c\":1.5}").to_pretty_text(),
        "{\n  \"a\": [\n    {},\n    {\n      \"k\": [\n        1,\n        \"x\"\n      ]\n    }\n  ],\n  \
         \"b\": [],\n  \"c\": 1.5\n}"
    );
    assert_eq!(json("{}").to_pretty_text(), "{}");
    assert_eq!(json("null").to_pretty_text(), "null");
}
