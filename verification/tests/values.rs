use xcodeproj::error::{PBXError, ValueKind};
use xcodeproj::kind::{PBXKnownKind, PBXObjectKind};
use xcodeproj::text::{chars_of, parse_integer, str_eq, string_of};
use xcodeproj::value::{PBXHashMap, PBXValue};

fn text(s: &str) -> PBXValue {
    PBXValue::String(s.to_string())
}

fn sample() -> PBXHashMap {
    let mut record = PBXHashMap::new();
    record.insert("name".to_string(), text("Debug"));
    record.insert("count".to_string(), PBXValue::Number(3));
    record.insert("flag".to_string(), PBXValue::Bool(true));
    record.insert("items".to_string(), PBXValue::Array(vec![text("a"), text("b")]));
    record.insert("nested".to_string(), PBXValue::Object(PBXHashMap::new()));
    record.insert(
        "isa".to_string(),
        PBXValue::Kind(PBXObjectKind::Known(PBXKnownKind::PBXGroup)),
    );
    record
}

#[test]
fn record_insert_and_get() {
    let mut record = PBXHashMap::new();
    assert!(record.is_empty());
    assert_eq!(record.len(), 0);
    assert_eq!(record.insert("a".to_string(), PBXValue::Number(1)), None);
    assert_eq!(record.insert("b".to_string(), PBXValue::Number(2)), None);
    assert_eq!(record.len(), 2);
    assert!(!record.is_empty());
    assert!(record.contains_key("a"));
    assert!(!record.contains_key("c"));
    assert_eq!(record.get("a"), Some(&PBXValue::Number(1)));
    assert_eq!(record.get("c"), None);
    assert_eq!(record["b"], PBXValue::Number(2));
}

#[test]
fn record_insert_replaces_in_place() {
    let mut record = PBXHashMap::new();
    record.insert("a".to_string(), PBXValue::Number(1));
    record.insert("b".to_string(), PBXValue::Number(2));
    assert_eq!(record.insert("a".to_string(), PBXValue::Number(9)), Some(PBXValue::Number(1)));
    assert_eq!(record.len(), 2);
    assert_eq!(
        record.into_entries(),
        vec![("a".to_string(), PBXValue::Number(9)), ("b".to_string(), PBXValue::Number(2))]
    );
}

#[test]
fn record_default_is_empty() {
    let record = PBXHashMap::default();
    assert_eq!(record.len(), 0);
    assert_eq!(record, PBXHashMap::new());
}

#[test]
fn record_remove_value_takes_the_field_out() {
    let mut record = sample();
    assert_eq!(record.remove_value("count"), Some(PBXValue::Number(3)));
    assert_eq!(record.remove_value("count"), None);
    assert_eq!(record.len(), 5);
    assert_eq!(record.get("name"), Some(&text("Debug")));
    assert_eq!(record.remove_value("absent"), None);
    assert_eq!(record.len(), 5);
}

#[test]
fn try_remove_reads_once() {
    let mut record = sample();
    assert_eq!(record.try_remove_string("name"), Ok("Debug".to_string()));
    assert_eq!(
        record.try_remove_string("name"),
        Err(PBXError::MissingField { key: "name".to_string() })
    );
    assert_eq!(record.try_remove_number("count"), Ok(3));
    assert_eq!(record.try_remove_vec("items"), Ok(vec![text("a"), text("b")]));
    assert_eq!(record.try_remove_object("nested"), Ok(PBXHashMap::new()));
    assert_eq!(record.len(), 2);
}

#[test]
fn try_remove_names_what_is_missing() {
    let mut record = sample();
    assert_eq!(
        record.try_remove_number("absent"),
        Err(PBXError::MissingField { key: "absent".to_string() })
    );
    assert_eq!(
        record.try_remove_object("absent"),
        Err(PBXError::MissingField { key: "absent".to_string() })
    );
    assert_eq!(
        record.try_remove_vec("absent"),
        Err(PBXError::MissingField { key: "absent".to_string() })
    );
    assert_eq!(record, sample());
}

#[test]
fn try_remove_names_the_shape_it_found() {
    let mut record = sample();
    assert_eq!(
        record.try_remove_number("name"),
        Err(PBXError::TypeMismatch {
            key: "name".to_string(),
            expected_kind: ValueKind::Number,
            actual_kind: ValueKind::String
        })
    );
    assert_eq!(
        record.try_remove_string("count"),
        Err(PBXError::TypeMismatch {
            key: "count".to_string(),
            expected_kind: ValueKind::String,
            actual_kind: ValueKind::Number
        })
    );
    assert_eq!(
        record.try_remove_object("items"),
        Err(PBXError::TypeMismatch {
            key: "items".to_string(),
            expected_kind: ValueKind::Object,
            actual_kind: ValueKind::Array
        })
    );
    assert_eq!(
        record.try_remove_vec("nested"),
        Err(PBXError::TypeMismatch {
            key: "nested".to_string(),
            expected_kind: ValueKind::Array,
            actual_kind: ValueKind::Object
        })
    );
    assert_eq!(
        record.try_remove_string("flag"),
        Err(PBXError::TypeMismatch {
            key: "flag".to_string(),
            expected_kind: ValueKind::String,
            actual_kind: ValueKind::Bool
        })
    );
    assert_eq!(
        record.try_remove_string("isa"),
        Err(PBXError::TypeMismatch {
            key: "isa".to_string(),
            expected_kind: ValueKind::String,
            actual_kind: ValueKind::Kind
        })
    );
    // A field that was refused stays where it is.
    assert_eq!(record, sample());
}

#[test]
fn optional_accessors_give_nothing_instead_of_failing() {
    let mut record = sample();
    assert_eq!(record.remove_string("absent"), None);
    assert_eq!(record.remove_string("count"), None);
    assert_eq!(record.remove_number("name"), None);
    assert_eq!(record.remove_object("items"), None);
    assert_eq!(record.remove_vec("nested"), None);
    assert_eq!(record, sample());
    assert_eq!(record.remove_string("name"), Some("Debug".to_string()));
    assert_eq!(record.remove_number("count"), Some(3));
    assert_eq!(record.remove_object("nested"), Some(PBXHashMap::new()));
    assert_eq!(record.remove_vec("items"), Some(vec![text("a"), text("b")]));
    assert_eq!(record.len(), 2);
    assert_eq!(record.get_string("name"), None);
}

#[test]
fn get_string_reads_without_taking() {
    let record = sample();
    assert_eq!(record.get_string("name"), Some(&"Debug".to_string()));
    assert_eq!(record.get_string("count"), None);
    assert_eq!(record.get_string("absent"), None);
    assert_eq!(record.len(), 6);
}

#[test]
fn value_kinds() {
    assert_eq!(text("x").kind(), ValueKind::String);
    assert_eq!(PBXValue::Number(1).kind(), ValueKind::Number);
    assert_eq!(PBXValue::Bool(false).kind(), ValueKind::Bool);
    assert_eq!(PBXValue::Array(vec![]).kind(), ValueKind::Array);
    assert_eq!(PBXValue::Object(PBXHashMap::new()).kind(), ValueKind::Object);
    assert_eq!(PBXValue::Kind("PBXGroup".into()).kind(), ValueKind::Kind);
}

#[test]
fn value_conversions() {
    assert_eq!(text("x").try_into_string(), Ok("x".to_string()));
    assert_eq!(PBXValue::Number(1).try_into_string(), Err(PBXValue::Number(1)));
    assert_eq!(PBXValue::Object(PBXHashMap::new()).try_into_object(), Ok(PBXHashMap::new()));
    assert_eq!(text("x").try_into_object(), Err(text("x")));
    assert_eq!(PBXValue::Array(vec![text("x")]).try_into_array(), Ok(vec![text("x")]));
    assert_eq!(PBXValue::Bool(true).try_into_array(), Err(PBXValue::Bool(true)));
}

#[test]
fn vec_of_strings() {
    assert_eq!(
        PBXValue::try_into_vec_strings(vec![text("a"), text("b")], "k"),
        Ok(vec!["a".to_string(), "b".to_string()])
    );
    assert_eq!(PBXValue::try_into_vec_strings(vec![], "k"), Ok(vec![]));
    assert_eq!(
        PBXValue::try_into_vec_strings(
            vec![text("a"), PBXValue::Number(1), PBXValue::Bool(true)],
            "k"
        ),
        Err(PBXError::TypeMismatch {
            key: "k".to_string(),
            expected_kind: ValueKind::String,
            actual_kind: ValueKind::Number
        })
    );
}

#[test]
fn known_kinds_are_read_back_from_their_tags() {
    let all = PBXKnownKind::all();
    assert_eq!(all.len(), 24);
    for kind in all {
        assert_eq!(PBXKnownKind::from_tag(kind.tag()), Some(kind));
        assert_eq!(PBXObjectKind::from(kind.tag()), PBXObjectKind::Known(kind));
        assert_eq!(PBXObjectKind::Known(kind).as_str(), kind.tag());
        assert!(!PBXObjectKind::Known(kind).is_unknown());
    }
    assert_eq!(PBXKnownKind::PBXNativeTarget.tag(), "PBXNativeTarget");
    assert_eq!(PBXKnownKind::XCVersionGroup.tag(), "XCVersionGroup");
}

#[test]
fn unknown_kinds_keep_their_tag() {
    for tag in ["PBXFancy", "pbxproject", "", "PBXProject ", "XC"] {
        let kind = PBXObjectKind::from(tag);
        assert_eq!(kind, PBXObjectKind::Unknown(tag.to_string()));
        assert!(kind.is_unknown());
        assert_eq!(kind.as_str(), tag);
        assert_eq!(PBXKnownKind::from_tag(tag), None);
    }
}

#[test]
fn integers_are_read_like_the_standard_library_reads_them() {
    for sample in [
        "0", "1", "-1", "+1", "42", "007", "-0", "9223372036854775807", "-9223372036854775808",
        "9223372036854775808", "-9223372036854775809", "123456789012345678901234567890", "",
        "-", "+", "+-1", "1-", " 1", "1 ", "1.0", "0x10", "١٢", "1_000",
    ] {
        assert_eq!(parse_integer(sample), sample.parse::<i64>().ok(), "reading {:?}", sample);
    }
    assert_eq!(parse_integer("1240"), Some(1240));
    assert_eq!(parse_integer("-17"), Some(-17));
}

#[test]
fn text_helpers() {
    let chars = chars_of("héllo");
    assert_eq!(chars, vec!['h', 'é', 'l', 'l', 'o']);
    assert_eq!(string_of(&chars, 1, 4), "éll");
    assert_eq!(string_of(&chars, 2, 2), "");
    assert_eq!(string_of(&chars, 0, 5), "héllo");
    assert!(str_eq("abc", "abc"));
    assert!(str_eq("", ""));
    assert!(!str_eq("abc", "abd"));
    assert!(!str_eq("abc", "ab"));
    assert!(!str_eq("ab", "abc"));
}
