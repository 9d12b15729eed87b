use ephpm_middleware_modules::config::{opt_bool, opt_str, opt_string, opt_u64};
use ephpm_middleware_modules::json::{Json, Node};
use ephpm_middleware_modules::jwt::numeric_date;

fn config(text: &str) -> Json {
    Json::parse(text.as_bytes()).expect("valid JSON")
}

#[test]
fn documents_are_read_as_they_stand() {
    let v = config(r#" { "b": [1, "x", null], "a": true } "#);
    assert_eq!(v.text, r#"{"a":true,"b":[1,"x",null]}"#);
    assert!(matches!(v.get("a").map(|m| &m.node), Some(Node::Bool(true))));
    let items = v.get("b").and_then(|m| m.as_array()).expect("an array");
    assert_eq!(items.len(), 3);
    assert_eq!(items[0].as_u64(), Some(1));
    assert_eq!(items[1].as_text(), Some("x"));
    assert!(matches!(items[2].node, Node::Null));
    let names: Vec<&str> =
        v.as_object().expect("an object").iter().map(|(k, _)| k.as_str()).collect();
    assert_eq!(names, ["a", "b"]);
    assert!(v.get("c").is_none());
    assert!(Json::parse(b"{").is_none());
    assert!(Json::parse(b"1 2").is_none());
    assert!(Json::parse(&[0x22, 0xFF, 0x22]).is_none());
}

#[test]
fn a_parsed_value_reads_like_its_text() {
    let text = r#"{"n":-1.5,"s":"ä"}"#;
    let value: serde_json::Value = serde_json::from_str(text).expect("valid JSON");
    assert_eq!(format!("{:?}", Json::from_value(&value)), format!("{:?}", config(text)));
}

#[test]
fn settings_have_defaults_and_messages() {
    let v = config(r#"{ "b": 1, "s": [], "n": -1, "e": "", "null": null }"#);
    assert_eq!(opt_bool(&v, "x", true), Ok(true));
    assert_eq!(opt_bool(&v, "null", true), Ok(true));
    assert_eq!(opt_bool(&v, "b", true), Err("`b` must be a boolean, got 1".to_owned()));
    assert_eq!(opt_string(&v, "x", "d"), Ok("d".to_owned()));
    assert_eq!(opt_string(&v, "s", "d"), Err("`s` must be a string, got []".to_owned()));
    assert_eq!(opt_string(&v, "e", "d"), Ok(String::new()));
    assert_eq!(opt_str(&v, "e"), Ok(None));
    assert_eq!(opt_u64(&v, "x", 7), Ok(7));
    assert_eq!(
        opt_u64(&v, "n", 7),
        Err("`n` must be a non-negative integer, got -1".to_owned())
    );
}

#[test]
fn dates_are_rounded_down() {
    for text in [
        "0", "1", "0.0", "-0.0", "0.5", "0.9999999999999999", "1.0", "1.5", "1000.9", "-1", "-0.5",
        "1e15", "4503599627370495.5", "4503599627370497.5", "9007199254740993", "9007199254740993.0",
        "1e19", "1.8446744073709550e19", "18446744073709551615", "18446744073709551616",
        "1.8446744073709552e19", "1e300", "5e-324", "2.2250738585072014e-308", "123456789.987",
        "1700000000.25", "9223372036854775808.0", "36028797018963968.0", "72057594037927936.5",
    ] {
        let value: serde_json::Value = serde_json::from_str(text).expect("a number");
        let expected = match value.as_u64() {
            Some(n) => Some(n),
            None => value
                .as_f64()
                .filter(|f| f.is_finite() && (0.0..18_446_744_073_709_551_616.0).contains(f))
                .map(|f| f.floor() as u64),
        };
        assert_eq!(numeric_date(&config(text)), expected, "{text}");
    }
    assert_eq!(numeric_date(&config("\"1\"")), None);
    assert_eq!(numeric_date(&config("null")), None);
    assert_eq!(numeric_date(&config("1000.9")), Some(1000));
}
