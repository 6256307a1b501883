use gun::json::Json;
use gun::strmap::StrMap;
use gun::{is_valid_data, valid, valid_soul};

fn valid_str(s: &str) -> Json {
    Json::String(s.to_string())
}

fn valid_num(s: &str) -> Json {
    Json::Number(s.to_string())
}

fn valid_object(pairs: Vec<(&str, Json)>) -> Json {
    let mut m = StrMap::new();
    for (k, v) in pairs {
        m.insert(k.to_string(), v);
    }
    Json::Object(m)
}

#[test]
fn test_valid_null() {
    let result = valid(&Json::Null);
    assert_eq!(result, Ok(true));
}

#[test]
fn test_valid_string() {
    assert_eq!(valid(&valid_str("hello")), Ok(true));
    assert_eq!(valid(&valid_str("")), Ok(true));
    assert_eq!(valid(&valid_str("🚀🌍")), Ok(true));
    assert_eq!(valid(&valid_str("test\n\r\t\\\"")), Ok(true));
}

#[test]
fn test_valid_boolean() {
    assert_eq!(valid(&Json::Bool(true)), Ok(true));
    assert_eq!(valid(&Json::Bool(false)), Ok(true));
}

#[test]
fn test_valid_numbers() {
    assert_eq!(valid(&valid_num("42")), Ok(true));
    assert_eq!(valid(&valid_num("-42")), Ok(true));
    assert_eq!(valid(&valid_num("3.5")), Ok(true));
    assert_eq!(valid(&valid_num("-3.5")), Ok(true));
    assert_eq!(valid(&valid_num("0")), Ok(true));
    assert_eq!(valid(&valid_num("10000000000.0")), Ok(true));
}

#[test]
fn test_valid_infinity() {
    // A JSON number cannot hold infinity, so there is no such value to check.
}

#[test]
fn test_valid_nan() {
    // A JSON number cannot hold NaN, so there is no such value to check.
}

#[test]
fn test_valid_soul_reference() {
    let soul_ref = valid_object(vec![("#", valid_str("soul123"))]);
    let result = valid(&soul_ref);
    assert!(result.is_err());
    if let Err(Some(soul)) = result {
        assert_eq!(soul, "soul123");
    } else {
        panic!("Expected soul reference");
    }
}

#[test]
fn test_valid_soul_reference_empty() {
    let soul_ref = valid_object(vec![("#", valid_str(""))]);
    let result = valid(&soul_ref);
    assert!(result.is_err());
}

#[test]
fn test_valid_object_not_soul() {
    let obj = valid_object(vec![("key", valid_str("value"))]);
    assert_eq!(valid(&obj), Ok(false));
    let obj2 = valid_object(vec![("#", valid_str("soul")), ("key", valid_str("value"))]);
    assert_eq!(valid(&obj2), Ok(false));
}

#[test]
fn test_valid_array() {
    let arr = Json::Array(vec![valid_num("1"), valid_num("2"), valid_num("3")]);
    assert_eq!(valid(&arr), Ok(false));
    let empty_arr = Json::Array(vec![]);
    assert_eq!(valid(&empty_arr), Ok(false));
}

#[test]
fn test_valid_soul_function() {
    let soul_ref = valid_object(vec![("#", valid_str("soul123"))]);
    assert_eq!(valid_soul(&soul_ref), Some("soul123".to_string()));
    assert_eq!(valid_soul(&valid_str("soul123")), Some("soul123".to_string()));
    assert_eq!(valid_soul(&valid_str("")), None);
    assert_eq!(valid_soul(&valid_num("42")), None);
    assert_eq!(valid_soul(&Json::Null), None);
    let obj = valid_object(vec![("key", valid_str("value"))]);
    assert_eq!(valid_soul(&obj), None);
}

#[test]
fn test_is_valid_data() {
    assert!(is_valid_data(&Json::Null));
    assert!(is_valid_data(&valid_str("string")));
    assert!(is_valid_data(&Json::Bool(true)));
    assert!(is_valid_data(&valid_num("42")));
    assert!(is_valid_data(&valid_object(vec![("#", valid_str("soul123"))])));
    assert!(!is_valid_data(&Json::Array(vec![valid_num("1"), valid_num("2"), valid_num("3")])));
    assert!(!is_valid_data(&valid_object(vec![("key", valid_str("value"))])));
}

#[test]
fn test_valid_unicode_edge_cases() {
    assert_eq!(valid(&valid_str("ñ")), Ok(true));
    assert_eq!(valid(&valid_str("中文")), Ok(true));
    assert_eq!(valid(&valid_str("العربية")), Ok(true));
    assert_eq!(valid(&valid_str("🌍🚀💻")), Ok(true));
}

#[test]
fn test_valid_large_string() {
    let large_string = "x".repeat(10000);
    assert_eq!(valid(&Json::String(large_string)), Ok(true));
}

#[test]
fn soul_ref_json_builds_a_reference() {
    let j = gun::valid::soul_ref_json("abc".to_string());
    assert_eq!(valid(&j), Err(Some("abc".to_string())));
    assert!(is_valid_data(&j));
}

#[test]
fn soul_reference_must_hold_a_string() {
    let j = valid_object(vec![("#", valid_num("7"))]);
    assert_eq!(valid(&j), Ok(false));
    assert_eq!(valid_soul(&j), None);
}
