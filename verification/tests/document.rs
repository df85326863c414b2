use xcodeproj::build_configuration::XCBuildConfiguration;
use xcodeproj::data::PBXProjectData;
use xcodeproj::error::{Expected, PBXError, ValueKind};
use xcodeproj::kind::{PBXKnownKind, PBXObjectKind};
use xcodeproj::object::PBXObject;
use xcodeproj::swift_package::XCVersionRequirement;
use xcodeproj::value::{PBXHashMap, PBXValue};

const SAMPLE: &str = r#"// !$*UTF8*$!
{
	archiveVersion = 1;
	classes = {
	};
	objectVersion = 50;
	objects = {

/* Begin XCBuildConfiguration section */
		AAAAAAAAAAAAAAAAAAAAAAA1 /* Debug */ = {
			isa = XCBuildConfiguration;
			buildSettings = {
				PRODUCT_NAME = "$(TARGET_NAME)";
				SWIFT_VERSION = 5.0;
				ENABLE_TESTABILITY = YES;
			};
			name = Debug;
		};
		AAAAAAAAAAAAAAAAAAAAAAA2 /* Release */ = { isa = XCBuildConfiguration; buildSettings = { }; name = Release; };
/* End XCBuildConfiguration section */

		BBBBBBBBBBBBBBBBBBBBBBB1 /* Build configuration list */ = {
			isa = XCConfigurationList;
			buildConfigurations = (
				AAAAAAAAAAAAAAAAAAAAAAA1 /* Debug */,
				AAAAAAAAAAAAAAAAAAAAAAA2 /* Release */,
				CCCCCCCCCCCCCCCCCCCCCCC9,
			);
			defaultConfigurationIsVisible = 0;
			defaultConfigurationName = Release;
		};
		DDDDDDDDDDDDDDDDDDDDDDD1 = {
			isa = XCRemoteSwiftPackageReference;
			repositoryURL = "https://github.com/apple/swift-log";
			requirement = {
				kind = upToNextMajorVersion;
				minimumVersion = 1.4.0;
			};
		};
		EEEEEEEEEEEEEEEEEEEEEEE1 = { isa = PBXProject; buildConfigurationList = BBBBBBBBBBBBBBBBBBBBBBB1; };
		FFFFFFFFFFFFFFFFFFFFFFF1 = { isa = PBXFancyNewThing; value = 3; };
	};
	rootObject = EEEEEEEEEEEEEEEEEEEEEEE1 /* Project object */;
}
"#;

#[test]
fn document_from_a_whole_text() {
    let document = PBXProjectData::try_from(SAMPLE).unwrap();
    assert_eq!(document.archive_version, 1);
    assert_eq!(document.object_version, 50);
    assert_eq!(document.classes, PBXHashMap::new());
    assert_eq!(document.root_object_reference, "EEEEEEEEEEEEEEEEEEEEEEE1");
    assert_eq!(document.objects.len(), 6);

    let mut settings = PBXHashMap::new();
    settings.insert("product_name".to_string(), PBXValue::String("$(TARGET_NAME)".to_string()));
    settings.insert("swift_version".to_string(), PBXValue::String("5.0".to_string()));
    settings.insert("enable_testability".to_string(), PBXValue::Bool(true));
    assert_eq!(
        document.objects.get("AAAAAAAAAAAAAAAAAAAAAAA1"),
        Some(&PBXObject::XCBuildConfiguration(XCBuildConfiguration::new(
            "Debug".to_string(),
            settings,
            None
        )))
    );

    let list = document
        .objects
        .get("BBBBBBBBBBBBBBBBBBBBBBB1")
        .and_then(|o| o.as_xc_configuration_list())
        .unwrap();
    assert_eq!(
        list.build_configuration_references(),
        &vec![
            "AAAAAAAAAAAAAAAAAAAAAAA1".to_string(),
            "AAAAAAAAAAAAAAAAAAAAAAA2".to_string(),
            "CCCCCCCCCCCCCCCCCCCCCCC9".to_string(),
        ]
    );
    assert!(!list.default_configuration_is_visible);
    assert_eq!(list.default_configuration_name, Some("Release".to_string()));
    // The third reference leads nowhere and is passed over.
    let names: Vec<&str> = list
        .get_build_configurations(&document.objects)
        .iter()
        .map(|c| c.name.as_str())
        .collect();
    assert_eq!(names, vec!["Debug", "Release"]);
    assert_eq!(
        list.get_configuration_by_name(&document.objects, "Release").map(|c| c.name.as_str()),
        Some("Release")
    );

    let package = document
        .objects
        .get("DDDDDDDDDDDDDDDDDDDDDDD1")
        .and_then(|o| o.as_xc_remote_swift_package_reference())
        .unwrap();
    assert_eq!(package.name(), Some("swift-log"));
    assert_eq!(
        package.version_requirement(),
        Some(&XCVersionRequirement::UpToNextMajorVersion("1.4.0".to_string()))
    );

    let mut project_fields = PBXHashMap::new();
    project_fields.insert(
        "build_configuration_list".to_string(),
        PBXValue::String("BBBBBBBBBBBBBBBBBBBBBBB1".to_string()),
    );
    assert_eq!(
        document.objects.get("EEEEEEEEEEEEEEEEEEEEEEE1"),
        Some(&PBXObject::Other {
            kind: PBXObjectKind::Known(PBXKnownKind::PBXProject),
            fields: project_fields
        })
    );

    let mut fancy_fields = PBXHashMap::new();
    fancy_fields.insert("value".to_string(), PBXValue::Number(3));
    assert_eq!(
        document.objects.get("FFFFFFFFFFFFFFFFFFFFFFF1"),
        Some(&PBXObject::Other {
            kind: PBXObjectKind::Unknown("PBXFancyNewThing".to_string()),
            fields: fancy_fields
        })
    );
    assert_eq!(document.objects.at(0).map(|(id, _)| id.as_str()), Some("AAAAAAAAAAAAAAAAAAAAAAA1"));
}

#[test]
fn document_from_an_owned_text() {
    let text = "{ archiveVersion = 1; objectVersion = 46; objects = {}; rootObject = R; }";
    let document = PBXProjectData::try_from(text.to_string()).unwrap();
    assert_eq!(document, PBXProjectData::try_from(text).unwrap());
    assert_eq!(document.object_version, 46);
    assert_eq!(document.root_object_reference, "R");
    assert!(document.objects.is_empty());
    assert!(document.classes.is_empty());
}

#[test]
fn document_without_root_object_is_refused() {
    let text = "// !$*UTF8*$!\n{ archiveVersion = 1; classes = {}; objectVersion = 50; objects = {}; }";
    assert_eq!(
        PBXProjectData::try_from(text),
        Err(PBXError::MissingField { key: "root_object".to_string() })
    );
    // Asked for before the objects: named even where both are missing.
    assert_eq!(
        PBXProjectData::try_from("{ archiveVersion = 1; objectVersion = 50; }"),
        Err(PBXError::MissingField { key: "root_object".to_string() })
    );
}

#[test]
fn document_names_the_field_that_fails() {
    assert_eq!(
        PBXProjectData::try_from("{ objectVersion = 50; objects = {}; rootObject = R; }"),
        Err(PBXError::MissingField { key: "archive_version".to_string() })
    );
    assert_eq!(
        PBXProjectData::try_from("{ archiveVersion = 1; objects = {}; rootObject = R; }"),
        Err(PBXError::MissingField { key: "object_version".to_string() })
    );
    assert_eq!(
        PBXProjectData::try_from("{ archiveVersion = 1; objectVersion = 50; rootObject = R; }"),
        Err(PBXError::MissingField { key: "objects".to_string() })
    );
    assert_eq!(
        PBXProjectData::try_from("{}"),
        Err(PBXError::MissingField { key: "archive_version".to_string() })
    );
    assert_eq!(
        PBXProjectData::try_from(
            "{ archiveVersion = 1.5; objectVersion = 50; objects = {}; rootObject = R; }"
        ),
        Err(PBXError::TypeMismatch {
            key: "archive_version".to_string(),
            expected_kind: ValueKind::Number,
            actual_kind: ValueKind::String
        })
    );
    assert_eq!(
        PBXProjectData::try_from(
            "{ archiveVersion = 1; objectVersion = 50; objects = (); rootObject = R; }"
        ),
        Err(PBXError::TypeMismatch {
            key: "objects".to_string(),
            expected_kind: ValueKind::Object,
            actual_kind: ValueKind::Array
        })
    );
    assert_eq!(
        PBXProjectData::try_from(
            "{ archiveVersion = 1; objectVersion = 50; objects = {}; rootObject = 12; }"
        ),
        Err(PBXError::TypeMismatch {
            key: "root_object".to_string(),
            expected_kind: ValueKind::String,
            actual_kind: ValueKind::Number
        })
    );
}

#[test]
fn document_fails_as_a_whole() {
    assert_eq!(
        PBXProjectData::try_from(
            "{ archiveVersion = 1; objectVersion = 50; rootObject = R; objects = { A = { name = x; }; }; }"
        ),
        Err(PBXError::MissingField { key: "isa".to_string() })
    );
    assert_eq!(
        PBXProjectData::try_from(
            "{ archiveVersion = 1; objectVersion = 50; rootObject = R; objects = { A = { isa = XCBuildConfiguration; name = x; }; }; }"
        ),
        Err(PBXError::MissingField { key: "build_settings".to_string() })
    );
    assert_eq!(
        PBXProjectData::try_from(
            "{ archiveVersion = 1; objectVersion = 50; rootObject = R; objects = { 0123456789ABCDEF01234567 = 1; }; }"
        ),
        Err(PBXError::TypeMismatch {
            key: "0123456789ABCDEF01234567".to_string(),
            expected_kind: ValueKind::Object,
            actual_kind: ValueKind::Number
        })
    );
    assert_eq!(
        PBXProjectData::try_from("{ archiveVersion = 1; objectVersion = 50; rootObject = R; objects = {}; "),
        Err(PBXError::ParseError { position: 72, expected: Expected::Key, found: String::new() })
    );
    assert_eq!(
        PBXProjectData::try_from(""),
        Err(PBXError::ParseError {
            position: 0,
            expected: Expected::OpenBrace,
            found: String::new()
        })
    );
    assert_eq!(
        PBXProjectData::try_from(
            "{ archiveVersion = 99999999999999999999; objectVersion = 50; rootObject = R; objects = {}; }"
        ),
        Err(PBXError::InvalidNumberLiteral { text: "99999999999999999999".to_string() })
    );
}

#[test]
fn classes_default_to_empty() {
    let document = PBXProjectData::try_from(
        "{ archiveVersion = 1; objectVersion = 50; rootObject = R; objects = {}; classes = 7; }",
    )
    .unwrap();
    assert!(document.classes.is_empty());
    let document = PBXProjectData::try_from(
        "{ archiveVersion = 1; objectVersion = 50; rootObject = R; objects = {}; classes = { a = b; }; }",
    )
    .unwrap();
    assert_eq!(document.classes.get("a"), Some(&PBXValue::String("b".to_string())));
}

#[test]
fn versions_keep_their_low_eight_bits() {
    let document = PBXProjectData::try_from(
        "{ archiveVersion = 257; objectVersion = 1024; rootObject = R; objects = {}; }",
    )
    .unwrap();
    assert_eq!(document.archive_version, 1);
    assert_eq!(document.object_version, 0);
    let document = PBXProjectData::try_from(
        "{ archiveVersion = 255; objectVersion = 256; rootObject = R; objects = {}; }",
    )
    .unwrap();
    assert_eq!(document.archive_version, 255);
    assert_eq!(document.object_version, 0);
}

#[test]
fn document_from_a_record() {
    let mut record = PBXHashMap::new();
    record.insert("archive_version".to_string(), PBXValue::Number(1));
    record.insert("object_version".to_string(), PBXValue::Number(-1));
    record.insert("root_object".to_string(), PBXValue::String("R".to_string()));
    record.insert("objects".to_string(), PBXValue::Object(PBXHashMap::new()));
    let document = PBXProjectData::from_hashmap(record).unwrap();
    assert_eq!(document.archive_version, 1);
    assert_eq!(document.object_version, 255);
    assert_eq!(
        document,
        PBXProjectData::new(
            1,
            255,
            PBXHashMap::new(),
            xcodeproj::collection::PBXRootObject::new(),
            "R".to_string()
        )
    );
}
