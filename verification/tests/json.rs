//! Reading and writing JSON texts, and looking into the values.

use beads::json::{entry, find_with, object_2, read_json, text_value, write_json, Json};

fn read(s: &str) -> Json {
    read_json(s).expect("JSON")
}

#[test]
fn every_kind_of_value_is_read() {
    assert_eq!(read("null"), Json::Null);
    assert_eq!(read(" true "), Json::Bool(true));
    assert_eq!(read("-7"), Json::Int(-7));
    assert_eq!(read("\"a\\nb\""), Json::Text("a\nb".to_string()));
    assert_eq!(
        read("[1,[],{}]"),
        Json::Array(vec![
            Json::Int(1),
            Json::Array(vec![]),
            Json::Object(vec![])
        ])
    );
    assert_eq!(
        read("{\"b\":{\"c\":[false]},\"a\":\"x\"}").get("b"),
        Some(&Json::Object(vec![(
            "c".to_string(),
            Json::Array(vec![Json::Bool(false)])
        )]))
    );
    for (text, kind) in [
        ("null", "null"),
        ("false", "boolean"),
        ("3", "number"),
        ("3.5", "number"),
        ("\"\"", "string"),
        ("[]", "array"),
        ("{}", "object"),
    ] {
        assert_eq!(read(text).kind(), kind);
    }
}

#[test]
fn whole_numbers_are_kept_to_the_last_digit() {
    assert_eq!(read("18446744073709551615"), Json::Int(u64::MAX as i128));
    assert_eq!(read("18446744073709551615").as_i64(), None);
    assert_eq!(read("9223372036854775807").as_i64(), Some(i64::MAX));
    assert_eq!(read("-9223372036854775808").as_i64(), Some(i64::MIN));
    assert_eq!(read("2.5"), Json::Decimal("2.5".to_string()));
    assert_eq!(read("2.5").as_i64(), None);
    assert_eq!(read("1.50"), Json::Decimal("1.5".to_string()));
    assert_eq!(
        read("100000000000000000000"),
        Json::Decimal("1e20".to_string()),
        "more than 64 bits"
    );
}

#[test]
fn a_name_given_twice_means_its_last_value() {
    assert_eq!(
        read("{\"a\":1,\"a\":2}").get("a").and_then(Json::as_i64),
        Some(2)
    );
}

#[test]
fn what_is_not_json_is_refused_with_the_place() {
    let words = read_json("{\"a\":}").expect_err("not JSON");
    assert!(words.contains("line 1"), "must say where: {words}");
    assert!(read_json("").is_err());
    assert!(read_json("[1] 2").is_err());
}

#[test]
fn what_is_not_there_reads_as_nothing() {
    let j = read("{\"name\":\"State\",\"value\":{\"name\":\"Open\"},\"list\":[1,2],\"n\":4}");
    assert_eq!(j.text_at("name"), Some("State"));
    assert_eq!(j.text_at("n"), None);
    assert_eq!(j.text_or_empty("absent"), "");
    assert_eq!(j.nested_text("value", "name"), Some("Open"));
    assert_eq!(j.nested_text("name", "value"), None);
    assert_eq!(j.items_at("list").len(), 2);
    assert_eq!(j.items_at("name").len(), 0);
    assert_eq!(j.as_array(), None);
    assert_eq!(j.items().len(), 0);
    assert_eq!(j.get("n").and_then(Json::as_bool), None);
    assert_eq!(Json::Null.get("name"), None);
}

#[test]
fn the_first_item_with_a_value_is_found() {
    let list = read("[{\"id\":\"1\",\"name\":\"a\"},{\"id\":\"2\",\"name\":\"b\"},{\"id\":\"3\",\"name\":\"b\"}]");
    let found = find_with(list.items(), "name", "b").expect("is there");
    assert_eq!(found.text_at("id"), Some("2"));
    assert_eq!(find_with(list.items(), "name", "c"), None);
}

#[test]
fn a_built_value_equals_its_copy() {
    let built = object_2(entry("id", text_value("2-1")), entry("n", Json::Int(3)));
    assert_eq!(built.copy(), built);
    assert_eq!(built, read("{\"id\":\"2-1\",\"n\":3}"));
}

#[test]
fn a_value_is_written_with_its_names_in_order() {
    let text = r#"{"b":[null,true,{"z":1,"a":"x\ny"}],"a":-2.5}"#;
    assert_eq!(
        write_json(&read(text)).expect("written"),
        r#"{"a":-2.5,"b":[null,true,{"a":"x\ny","z":1}]}"#
    );
    let twice = object_2(entry("k", Json::Int(1)), entry("k", Json::Int(2)));
    assert_eq!(write_json(&twice).expect("written"), r#"{"k":1}"#);
    assert_eq!(write_json(&Json::Array(vec![])).expect("written"), "[]");
    assert_eq!(
        write_json(&Json::Int(u64::MAX as i128)).expect("written"),
        "18446744073709551615"
    );
    assert_eq!(
        write_json(&Json::Int(i64::MIN as i128)).expect("written"),
        "-9223372036854775808"
    );
}

#[test]
fn a_number_that_does_not_fit_is_not_written() {
    let out = |j: Json| write_json(&j).expect_err("no text");
    let above = u64::MAX as i128 + 1;
    assert_eq!(out(Json::Int(above)), "number out of range");
    assert_eq!(out(Json::Int(i64::MIN as i128 - 1)), "number out of range");
    assert_eq!(
        out(Json::Array(vec![Json::Null, Json::Int(above)])),
        "number out of range"
    );
    assert_eq!(
        out(Json::Object(vec![entry("n", Json::Decimal("one".to_string()))])),
        "number out of range"
    );
    assert_eq!(
        write_json(&Json::Decimal("1.50".to_string())).expect("written"),
        "1.5"
    );
}
