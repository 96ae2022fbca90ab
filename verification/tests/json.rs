use dipc::cli::ColorPalette;
use dipc::json::{clone_entries, JsonNumber, JsonValue};

fn sample() -> JsonValue {
    JsonValue::Object(vec![
        ("none".to_string(), JsonValue::Null),
        ("yes".to_string(), JsonValue::Bool(true)),
        ("n".to_string(), JsonValue::Number(JsonNumber::Unsigned(255))),
        ("m".to_string(), JsonValue::Number(JsonNumber::Other("-1.5e3".to_string()))),
        ("s".to_string(), JsonValue::String("#\u{e9}".to_string())),
        (
            "a".to_string(),
            JsonValue::Array(vec![
                JsonValue::Array(vec![]),
                JsonValue::Object(vec![]),
                JsonValue::Array(vec![JsonValue::Bool(false), JsonValue::Null]),
            ]),
        ),
        (
            "o".to_string(),
            JsonValue::Object(vec![
                ("x".to_string(), JsonValue::String("#FFFFFF".to_string())),
                ("x".to_string(), JsonValue::String("#000000".to_string())),
            ]),
        ),
    ])
}

#[test]
fn clone_of_a_value_is_equal() {
    let value = sample();
    assert_eq!(value.clone(), value);
    for leaf in [
        JsonValue::Null,
        JsonValue::Bool(false),
        JsonValue::Number(JsonNumber::Unsigned(0)),
        JsonValue::Number(JsonNumber::Other("0.0".to_string())),
        JsonValue::String(String::new()),
        JsonValue::Array(vec![]),
        JsonValue::Object(vec![]),
    ] {
        assert_eq!(leaf.clone(), leaf);
    }
}

#[test]
fn clone_of_a_number_is_equal() {
    let whole = JsonNumber::Unsigned(u64::MAX);
    let other = JsonNumber::Other("1e100".to_string());
    assert_eq!(whole.clone(), whole);
    assert_eq!(other.clone(), other);
    assert_ne!(whole.clone(), other);
}

#[test]
fn clone_of_entries_keeps_their_order() {
    let JsonValue::Object(entries) = sample() else {
        panic!("the sample is an object");
    };
    let copy = clone_entries(&entries);
    assert_eq!(copy, entries);
    let keys: Vec<&str> = copy.iter().map(|(k, _)| k.as_str()).collect();
    assert_eq!(keys, vec!["none", "yes", "n", "m", "s", "a", "o"]);
}

#[test]
fn clone_of_a_palette_choice_is_equal() {
    let JsonValue::Object(entries) = sample() else {
        panic!("the sample is an object");
    };
    let custom = ColorPalette::RawJSON { map: entries };
    assert_eq!(custom.clone(), custom);
    for theme in [ColorPalette::Nord, ColorPalette::TokyoNight, ColorPalette::Catppuccin] {
        assert_eq!(theme.clone(), theme);
    }
}
