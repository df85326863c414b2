use xcodeproj::error::{Expected, PBXError};
use xcodeproj::grammar::{Node, Rule};
use xcodeproj::kind::{PBXKnownKind, PBXObjectKind};
use xcodeproj::parser::PBXProjectParser;
use xcodeproj::value::PBXValue;

fn token(rule: Rule, text: &str) -> Node {
    Node { rule, text: text.to_string(), offset: 0, children: vec![] }
}

fn branch(rule: Rule, children: Vec<Node>) -> Node {
    Node { rule, text: String::new(), offset: 0, children }
}

fn value_of(text: &str) -> Result<PBXValue, PBXError> {
    let node = PBXProjectParser::parse(Rule::Value, text)?;
    PBXProjectParser::value(&node)
}

#[test]
fn parse_key_pair() {
    let str =
        "0EC07ACE89150EC90442393B = {isa = PBXBuildFile; fileRef = F2E640B5C2B85914F6801498; };";
    let (key, value) = PBXProjectParser::parse(Rule::Field, str)
        .map(|n| PBXProjectParser::field(&n))
        .unwrap()
        .unwrap();

    assert_eq!(key, "0EC07ACE89150EC90442393B");
    assert!(matches!(value, PBXValue::Object(_)));

    let object = value.try_into_object().unwrap();
    assert_eq!(
        object.get("isa"),
        Some(&PBXValue::Kind("PBXBuildFile".into()))
    );
    assert_eq!(
        object["file_ref"],
        PBXValue::String("F2E640B5C2B85914F6801498".into())
    );
}

#[test]
fn field_scenario_tree_then_values() {
    let text =
        "ABCDEF0123456789ABCDEF01 = { isa = PBXBuildFile; fileRef = F2E640B5C2B85914F6801498; };";
    let tree = PBXProjectParser::parse(Rule::Field, text).unwrap();
    assert_eq!(tree.rule, Rule::Field);
    assert_eq!(tree.offset, 0);
    assert_eq!(tree.children.len(), 2);

    // The tree keeps every key as it is written.
    let key = &tree.children[0];
    assert_eq!(key.rule, Rule::Key);
    assert_eq!(key.children.len(), 1);
    assert_eq!(key.children[0].rule, Rule::Uuid);
    assert_eq!(key.children[0].text, "ABCDEF0123456789ABCDEF01");

    let value = &tree.children[1];
    assert_eq!(value.rule, Rule::Value);
    let object = &value.children[0];
    assert_eq!(object.rule, Rule::Object);
    assert_eq!(object.offset, 27);
    assert_eq!(object.children.len(), 2);

    let isa = &object.children[0];
    assert_eq!(isa.rule, Rule::Field);
    assert_eq!(isa.children[0].children[0].rule, Rule::Ident);
    assert_eq!(isa.children[0].children[0].text, "isa");
    assert_eq!(isa.children[1].children[0].rule, Rule::Kind);
    assert_eq!(isa.children[1].children[0].text, "PBXBuildFile");

    let file_ref = &object.children[1];
    assert_eq!(file_ref.children[0].children[0].rule, Rule::Ident);
    assert_eq!(file_ref.children[0].children[0].text, "fileRef");
    assert_eq!(file_ref.children[1].children[0].rule, Rule::Uuid);
    assert_eq!(file_ref.children[1].children[0].text, "F2E640B5C2B85914F6801498");
    assert_eq!(file_ref.children[1].children[0].offset, 59);

    // Reducing the tree stores the second key in snake case.
    let (key, value) = PBXProjectParser::field(&tree).unwrap();
    assert_eq!(key, "ABCDEF0123456789ABCDEF01");
    let fields = value.try_into_object().unwrap();
    assert_eq!(fields.len(), 2);
    assert_eq!(
        fields.get("isa"),
        Some(&PBXValue::Kind(PBXObjectKind::Known(PBXKnownKind::PBXBuildFile)))
    );
    assert_eq!(
        fields.get("file_ref"),
        Some(&PBXValue::String("F2E640B5C2B85914F6801498".to_string()))
    );
    assert_eq!(fields.get("fileRef"), None);
}

#[test]
fn bool_accepts_yes_and_no_only() {
    assert_eq!(PBXProjectParser::bool(&token(Rule::Bool, "YES")), Ok(PBXValue::Bool(true)));
    assert_eq!(PBXProjectParser::bool(&token(Rule::Bool, "NO")), Ok(PBXValue::Bool(false)));
    for other in ["yes", "no", "Yes", "TRUE", "1", "", "YES ", "NOO", "Y"] {
        assert_eq!(
            PBXProjectParser::bool(&token(Rule::Bool, other)),
            Err(PBXError::InvalidBoolLiteral { text: other.to_string() })
        );
    }
}

#[test]
fn bool_tokens_in_a_text() {
    assert_eq!(value_of("YES"), Ok(PBXValue::Bool(true)));
    assert_eq!(value_of("NO"), Ok(PBXValue::Bool(false)));
    // Anything else that looks alike is an identifier, not a boolean.
    assert_eq!(value_of("yes"), Ok(PBXValue::String("yes".to_string())));
    assert_eq!(value_of("YESNO"), Ok(PBXValue::String("YESNO".to_string())));
}

#[test]
fn number_without_point_is_an_integer() {
    assert_eq!(PBXProjectParser::number(&token(Rule::Number, "42")), Ok(PBXValue::Number(42)));
    assert_eq!(PBXProjectParser::number(&token(Rule::Number, "0")), Ok(PBXValue::Number(0)));
    assert_eq!(PBXProjectParser::number(&token(Rule::Number, "007")), Ok(PBXValue::Number(7)));
    assert_eq!(PBXProjectParser::number(&token(Rule::Number, "-5")), Ok(PBXValue::Number(-5)));
    assert_eq!(PBXProjectParser::number(&token(Rule::Number, "+5")), Ok(PBXValue::Number(5)));
    assert_eq!(
        PBXProjectParser::number(&token(Rule::Number, "9223372036854775807")),
        Ok(PBXValue::Number(i64::MAX))
    );
    assert_eq!(
        PBXProjectParser::number(&token(Rule::Number, "-9223372036854775808")),
        Ok(PBXValue::Number(i64::MIN))
    );
    assert_eq!(value_of("1240"), Ok(PBXValue::Number(1240)));
}

#[test]
fn number_with_point_stays_a_string() {
    assert_eq!(
        PBXProjectParser::number(&token(Rule::Number, "5.0")),
        Ok(PBXValue::String("5.0".to_string()))
    );
    assert_eq!(
        PBXProjectParser::number(&token(Rule::Number, "10.15")),
        Ok(PBXValue::String("10.15".to_string()))
    );
    assert_eq!(value_of("9.3"), Ok(PBXValue::String("9.3".to_string())));
    // More than one point is no number at all; the text is kept all the same.
    assert_eq!(value_of("1.4.0"), Ok(PBXValue::String("1.4.0".to_string())));
}

#[test]
fn number_that_is_no_integer_is_refused() {
    for bad in ["9223372036854775808", "-9223372036854775809", "99999999999999999999", "", "-", "+", "12a", "1 2", "--1"] {
        assert_eq!(
            PBXProjectParser::number(&token(Rule::Number, bad)),
            Err(PBXError::InvalidNumberLiteral { text: bad.to_string() })
        );
    }
    assert_eq!(
        value_of("99999999999999999999"),
        Err(PBXError::InvalidNumberLiteral { text: "99999999999999999999".to_string() })
    );
}

#[test]
fn key_is_stored_in_snake_case() {
    let key = |rule: Rule, text: &str| {
        PBXProjectParser::key(&branch(Rule::Key, vec![token(rule, text)]))
    };
    assert_eq!(key(Rule::Ident, "fileRef"), Ok("file_ref".to_string()));
    assert_eq!(key(Rule::Ident, "archiveVersion"), Ok("archive_version".to_string()));
    assert_eq!(key(Rule::Ident, "rootObject"), Ok("root_object".to_string()));
    assert_eq!(key(Rule::Ident, "isa"), Ok("isa".to_string()));
    assert_eq!(key(Rule::Ident, "repositoryURL"), Ok("repository_url".to_string()));
    assert_eq!(
        key(Rule::Ident, "defaultConfigurationIsVisible"),
        Ok("default_configuration_is_visible".to_string())
    );
    assert_eq!(key(Rule::Ident, "PRODUCT_NAME"), Ok("product_name".to_string()));
    assert_eq!(key(Rule::String, "\"buildSettings\""), Ok("build_settings".to_string()));
}

#[test]
fn key_that_is_an_identifier_is_kept() {
    let key = |rule: Rule, text: &str| {
        PBXProjectParser::key(&branch(Rule::Key, vec![token(rule, text)]))
    };
    assert_eq!(
        key(Rule::Uuid, "0EC07ACE89150EC90442393B"),
        Ok("0EC07ACE89150EC90442393B".to_string())
    );
    assert_eq!(
        key(Rule::Uuid, "abcdefABCDEF0123456789ab"),
        Ok("abcdefABCDEF0123456789ab".to_string())
    );
    // The shape decides, whatever the rule of the token says.
    assert_eq!(
        key(Rule::Ident, "F2E640B5C2B85914F6801498"),
        Ok("F2E640B5C2B85914F6801498".to_string())
    );
    assert_eq!(
        key(Rule::String, "\"F2E640B5C2B85914F6801498\""),
        Ok("F2E640B5C2B85914F6801498".to_string())
    );
    // 23 and 25 digits are no identifier.
    assert_eq!(
        key(Rule::Ident, "F2E640B5C2B85914F680149"),
        Ok("f_2_e_640_b_5_c_2_b_85914_f_680149".to_string())
    );
}

#[test]
fn key_without_a_token_is_malformed() {
    let node = Node { rule: Rule::Key, text: "k".to_string(), offset: 9, children: vec![] };
    assert_eq!(
        PBXProjectParser::key(&node),
        Err(PBXError::ParseError {
            position: 9,
            expected: Expected::Children,
            found: "k".to_string()
        })
    );
}

#[test]
fn string_loses_its_quotes_and_nothing_else() {
    assert_eq!(
        PBXProjectParser::string(&token(Rule::String, "\"hello world\"")),
        Ok(PBXValue::String("hello world".to_string()))
    );
    assert_eq!(
        PBXProjectParser::string(&token(Rule::String, "\"\"")),
        Ok(PBXValue::String(String::new()))
    );
    assert_eq!(
        PBXProjectParser::string(&token(Rule::String, "\"a \\\"b\\\" c\"")),
        Ok(PBXValue::String("a \\\"b\\\" c".to_string()))
    );
    assert_eq!(
        PBXProjectParser::string(&token(Rule::String, "bare")),
        Ok(PBXValue::String("bare".to_string()))
    );
    assert_eq!(
        PBXProjectParser::string(&token(Rule::String, "\"")),
        Ok(PBXValue::String("\"".to_string()))
    );
    assert_eq!(value_of("\"$(TARGET_NAME)\""), Ok(PBXValue::String("$(TARGET_NAME)".to_string())));
    assert_eq!(
        value_of("\"say \\\"hi\\\"\" "),
        Ok(PBXValue::String("say \\\"hi\\\"".to_string()))
    );
    assert_eq!(value_of("\"über\""), Ok(PBXValue::String("über".to_string())));
}

#[test]
fn kind_is_known_or_unknown_but_never_fails() {
    assert_eq!(
        PBXProjectParser::kind(&token(Rule::Kind, "PBXProject")),
        Ok(PBXValue::Kind(PBXObjectKind::Known(PBXKnownKind::PBXProject)))
    );
    assert_eq!(
        PBXProjectParser::kind(&token(Rule::Kind, "PBXSomethingNew")),
        Ok(PBXValue::Kind(PBXObjectKind::Unknown("PBXSomethingNew".to_string())))
    );
    assert_eq!(
        PBXProjectParser::kind(&token(Rule::Kind, "")),
        Ok(PBXValue::Kind(PBXObjectKind::Unknown(String::new())))
    );
    assert_eq!(
        value_of("XCBuildConfiguration"),
        Ok(PBXValue::Kind(PBXObjectKind::Known(PBXKnownKind::XCBuildConfiguration)))
    );
}

#[test]
fn ident_and_uuid_are_strings() {
    assert_eq!(
        PBXProjectParser::ident(&token(Rule::Ident, "Debug")),
        Ok(PBXValue::String("Debug".to_string()))
    );
    assert_eq!(
        PBXProjectParser::uuid(&token(Rule::Uuid, "F2E640B5C2B85914F6801498")),
        Ok(PBXValue::String("F2E640B5C2B85914F6801498".to_string()))
    );
    assert_eq!(value_of("sourcecode.swift"), Ok(PBXValue::String("sourcecode.swift".to_string())));
    assert_eq!(value_of("Sources/App/main.swift"), Ok(PBXValue::String("Sources/App/main.swift".to_string())));
    assert_eq!(value_of("$SRCROOT"), Ok(PBXValue::String("$SRCROOT".to_string())));
}

#[test]
fn literal_forms_are_told_apart_in_order() {
    let rule_of = |text: &str| {
        PBXProjectParser::parse(Rule::Value, text).unwrap().children[0].rule
    };
    assert_eq!(rule_of("\"YES\""), Rule::String);
    assert_eq!(rule_of("000000000000000000000000"), Rule::Uuid);
    assert_eq!(rule_of("00000000000000000000000"), Rule::Number);
    assert_eq!(rule_of("PBXGroup"), Rule::Kind);
    assert_eq!(rule_of("PBXGroups"), Rule::Ident);
    assert_eq!(rule_of("YES"), Rule::Bool);
    assert_eq!(rule_of("NO"), Rule::Bool);
    assert_eq!(rule_of("12"), Rule::Number);
    assert_eq!(rule_of("12.5"), Rule::Number);
    assert_eq!(rule_of("12."), Rule::Ident);
    assert_eq!(rule_of(".5"), Rule::Ident);
    assert_eq!(rule_of("1.2.3"), Rule::Ident);
    assert_eq!(rule_of("x12"), Rule::Ident);
    assert_eq!(rule_of("(a)"), Rule::Array);
    assert_eq!(rule_of("{a = b;}"), Rule::Object);
}

#[test]
fn array_keeps_the_order_of_its_values() {
    assert_eq!(
        value_of("( a, b, c, )"),
        Ok(PBXValue::Array(vec![
            PBXValue::String("a".to_string()),
            PBXValue::String("b".to_string()),
            PBXValue::String("c".to_string()),
        ]))
    );
    assert_eq!(
        value_of("(1, YES, \"x y\", (2), { k = v; })").map(|v| match v {
            PBXValue::Array(items) => items.len(),
            _ => 0,
        }),
        Ok(5)
    );
    assert_eq!(value_of("()"), Ok(PBXValue::Array(vec![])));
    assert_eq!(value_of("( /* nothing */ )"), Ok(PBXValue::Array(vec![])));
    // Commas may be left out.
    assert_eq!(
        value_of("(a b)"),
        Ok(PBXValue::Array(vec![
            PBXValue::String("a".to_string()),
            PBXValue::String("b".to_string()),
        ]))
    );
    assert_eq!(
        value_of("(1, 1.5)"),
        Ok(PBXValue::Array(vec![PBXValue::Number(1), PBXValue::String("1.5".to_string())]))
    );
}

#[test]
fn array_fails_with_its_first_bad_item() {
    let good = branch(Rule::Value, vec![token(Rule::Number, "1")]);
    let bad_bool = branch(Rule::Value, vec![token(Rule::Bool, "maybe")]);
    let bad_number = branch(Rule::Value, vec![token(Rule::Number, "x")]);
    let array = branch(Rule::Array, vec![good, bad_bool, bad_number]);
    assert_eq!(
        PBXProjectParser::array(&array),
        Err(PBXError::InvalidBoolLiteral { text: "maybe".to_string() })
    );
}

#[test]
fn object_keeps_the_later_of_two_fields_with_one_key() {
    let fields = value_of("{ a = 1; b = 2; a = 3; }").unwrap().try_into_object().unwrap();
    assert_eq!(fields.len(), 2);
    assert_eq!(fields.get("a"), Some(&PBXValue::Number(3)));
    assert_eq!(fields.get("b"), Some(&PBXValue::Number(2)));
    // Two spellings of one stored key count as one key.
    let fields = value_of("{ fileRef = 1; file_ref = 2; }").unwrap().try_into_object().unwrap();
    assert_eq!(fields.len(), 1);
    assert_eq!(fields.get("file_ref"), Some(&PBXValue::Number(2)));
}

#[test]
fn object_and_nesting() {
    let fields = value_of("{ outer = { inner = ( { deep = YES; } ); }; }")
        .unwrap()
        .try_into_object()
        .unwrap();
    let outer = match fields.get("outer") {
        Some(PBXValue::Object(outer)) => outer,
        other => panic!("no object: {:?}", other),
    };
    let inner = match outer.get("inner") {
        Some(PBXValue::Array(items)) => items,
        other => panic!("no array: {:?}", other),
    };
    assert_eq!(inner.len(), 1);
    match &inner[0] {
        PBXValue::Object(deep) => assert_eq!(deep.get("deep"), Some(&PBXValue::Bool(true))),
        other => panic!("no object: {:?}", other),
    }
    assert_eq!(value_of("{}").unwrap().try_into_object().unwrap().len(), 0);
}

#[test]
fn value_with_a_wrong_number_of_children_is_malformed() {
    let none = Node { rule: Rule::Value, text: String::new(), offset: 3, children: vec![] };
    assert_eq!(
        PBXProjectParser::value(&none),
        Err(PBXError::ParseError {
            position: 3,
            expected: Expected::Children,
            found: String::new()
        })
    );
    let two = branch(Rule::Value, vec![token(Rule::Bool, "YES"), token(Rule::Bool, "NO")]);
    assert!(matches!(
        PBXProjectParser::value(&two),
        Err(PBXError::ParseError { expected: Expected::Children, .. })
    ));
    let wrong = branch(Rule::Value, vec![branch(Rule::Field, vec![])]);
    assert!(matches!(
        PBXProjectParser::value(&wrong),
        Err(PBXError::ParseError { expected: Expected::Children, .. })
    ));
}

#[test]
fn field_needs_exactly_a_key_and_a_value() {
    let key = || branch(Rule::Key, vec![token(Rule::Ident, "someKey")]);
    let value = || branch(Rule::Value, vec![token(Rule::Number, "1")]);
    assert_eq!(
        PBXProjectParser::field(&branch(Rule::Field, vec![key(), value()])),
        Ok(("some_key".to_string(), PBXValue::Number(1)))
    );
    for children in [vec![], vec![key()], vec![key(), value(), value()]] {
        assert!(matches!(
            PBXProjectParser::field(&branch(Rule::Field, children)),
            Err(PBXError::ParseError { expected: Expected::Children, .. })
        ));
    }
    // The first child is read as the key and the second as the value,
    // whatever their rules are.
    assert_eq!(
        PBXProjectParser::field(&branch(Rule::Field, vec![value(), key()])),
        Ok(("1".to_string(), PBXValue::String("someKey".to_string())))
    );
}

#[test]
fn comments_and_white_space_mean_nothing() {
    let plain = value_of("{a=1;b=(x,y);}").unwrap();
    let spaced = value_of(
        "  // leading line\n\t{ /* one */ a /* two */ = /* three */ 1 /* four */ ; // five\n b = ( x , /* six */ y , ) ; \r\n } ",
    )
    .unwrap();
    assert_eq!(plain, spaced);
}

#[test]
fn an_open_block_comment_is_no_comment() {
    // The slash is then a word of its own, and the star fits nowhere.
    assert_eq!(
        PBXProjectParser::parse(Rule::Object, "{ a = 1; /* never closed }").map(|_| ()),
        Err(PBXError::ParseError {
            position: 10,
            expected: Expected::Equals,
            found: "*".to_string()
        })
    );
    assert_eq!(
        PBXProjectParser::parse(Rule::Object, "{ a = 1; /* closed */ }").map(|n| n.children.len()),
        Ok(1)
    );
}

#[test]
fn parse_errors_name_the_place() {
    let parse = |rule: Rule, text: &str| PBXProjectParser::parse(rule, text).map(|_| ());
    assert_eq!(
        parse(Rule::Object, "{ a = 1 }"),
        Err(PBXError::ParseError {
            position: 8,
            expected: Expected::Semicolon,
            found: "}".to_string()
        })
    );
    assert_eq!(
        parse(Rule::Object, "{ a 1; }"),
        Err(PBXError::ParseError {
            position: 4,
            expected: Expected::Equals,
            found: "1".to_string()
        })
    );
    assert_eq!(
        parse(Rule::Object, "{ a = 1;"),
        Err(PBXError::ParseError { position: 8, expected: Expected::Key, found: String::new() })
    );
    assert_eq!(
        parse(Rule::Object, "a = 1;"),
        Err(PBXError::ParseError {
            position: 0,
            expected: Expected::OpenBrace,
            found: "a".to_string()
        })
    );
    assert_eq!(
        parse(Rule::Object, "{ a = ; }"),
        Err(PBXError::ParseError {
            position: 6,
            expected: Expected::Value,
            found: ";".to_string()
        })
    );
    assert_eq!(
        parse(Rule::Value, "( a, b"),
        Err(PBXError::ParseError { position: 6, expected: Expected::Value, found: String::new() })
    );
    assert_eq!(
        parse(Rule::Array, "a"),
        Err(PBXError::ParseError {
            position: 0,
            expected: Expected::OpenParen,
            found: "a".to_string()
        })
    );
    assert_eq!(
        parse(Rule::Value, "  \"never closed"),
        Err(PBXError::ParseError {
            position: 2,
            expected: Expected::ClosingQuote,
            found: "\"".to_string()
        })
    );
    assert_eq!(
        parse(Rule::Value, "\"ends in a backslash\\"),
        Err(PBXError::ParseError {
            position: 0,
            expected: Expected::ClosingQuote,
            found: "\"".to_string()
        })
    );
    assert_eq!(
        parse(Rule::File, "{ a = 1; } trailing"),
        Err(PBXError::ParseError {
            position: 11,
            expected: Expected::EndOfInput,
            found: "t".to_string()
        })
    );
    assert_eq!(
        parse(Rule::Value, "é"),
        Err(PBXError::ParseError {
            position: 0,
            expected: Expected::Value,
            found: "é".to_string()
        })
    );
    assert_eq!(
        parse(Rule::Field, "= 1;"),
        Err(PBXError::ParseError { position: 0, expected: Expected::Key, found: "=".to_string() })
    );
}

#[test]
fn positions_count_characters() {
    // Two characters of two bytes each stand before the offending one.
    assert_eq!(
        PBXProjectParser::parse(Rule::Object, "{ a = \"éé\" ! }").map(|_| ()),
        Err(PBXError::ParseError {
            position: 11,
            expected: Expected::Semicolon,
            found: "!".to_string()
        })
    );
}

#[test]
fn tokens_can_be_asked_for_by_rule() {
    let bool_node = PBXProjectParser::parse(Rule::Bool, " YES").unwrap();
    assert_eq!(bool_node, Node { rule: Rule::Bool, text: "YES".to_string(), offset: 1, children: vec![] });
    let string = PBXProjectParser::parse(Rule::String, "\"a b\"").unwrap();
    assert_eq!(string.text, "\"a b\"");
    assert_eq!(
        PBXProjectParser::parse(Rule::Bool, "maybe").map(|_| ()),
        Err(PBXError::ParseError {
            position: 0,
            expected: Expected::Token,
            found: "m".to_string()
        })
    );
    assert_eq!(
        PBXProjectParser::parse(Rule::Number, "").map(|_| ()),
        Err(PBXError::ParseError { position: 0, expected: Expected::Token, found: String::new() })
    );
    let key = PBXProjectParser::parse(Rule::Key, "YES").unwrap();
    assert_eq!(key.children[0].rule, Rule::Ident);
}

#[test]
fn file_is_one_object_and_nothing_else() {
    let tree = PBXProjectParser::parse(Rule::File, "// !$*UTF8*$!\n{ archiveVersion = 1; }\n").unwrap();
    assert_eq!(tree.rule, Rule::File);
    assert_eq!(tree.children.len(), 1);
    let record = PBXProjectParser::file(&tree).unwrap();
    assert_eq!(record.get("archive_version"), Some(&PBXValue::Number(1)));
    let empty = Node { rule: Rule::File, text: String::new(), offset: 0, children: vec![] };
    assert!(matches!(
        PBXProjectParser::file(&empty),
        Err(PBXError::ParseError { expected: Expected::Children, .. })
    ));
}
