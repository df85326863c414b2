//! The project document: what a whole text of the format describes.

use vstd::prelude::*;
use crate::collection::{graph_of, PBXRootObject};
use crate::error::{view_of_result, PBXError, PBXErrorView};
use crate::grammar::Rule;
use crate::keyed::lookup;
use crate::object::PBXObjectView;
use crate::parser::{file_of, PBXProjectParser};
use crate::recognize::tree_of;
use crate::value::{
    required_number, required_object, required_string, PBXHashMap, PBXValueView,
};

verus! {

/// A project document.
#[derive(Debug, PartialEq, Eq)]
pub struct PBXProjectData {
    /// The version of the archive format.
    pub archive_version: u8,
    /// The version of the object format.
    pub object_version: u8,
    /// The class table.
    pub classes: PBXHashMap,
    /// The objects of the project.
    pub objects: PBXRootObject,
    /// The identifier of the project's root object.
    pub root_object_reference: String,
}

/// The mathematical content of a `PBXProjectData`.
pub struct PBXProjectDataView {
    pub archive_version: u8,
    pub object_version: u8,
    pub classes: Seq<(Seq<char>, PBXValueView)>,
    pub objects: Seq<(Seq<char>, PBXObjectView)>,
    pub root_object_reference: Seq<char>,
}

impl View for PBXProjectData {
    type V = PBXProjectDataView;

    open spec fn view(&self) -> PBXProjectDataView {
        PBXProjectDataView {
            archive_version: self.archive_version,
            object_version: self.object_version,
            classes: self.classes@,
            objects: self.objects@,
            root_object_reference: self.root_object_reference@,
        }
    }
}

/// The low eight bits of a number of 64 bits.
pub open spec fn low_byte(n: int) -> u8 {
    (n as i64) as u8
}

/// The record under `key` if there is one, else an empty record.
pub open spec fn object_or_empty(m: Seq<(Seq<char>, PBXValueView)>, key: Seq<char>) -> Seq<
    (Seq<char>, PBXValueView),
> {
    match lookup(m, key) {
        Some(PBXValueView::Object(fields)) => fields,
        _ => Seq::empty(),
    }
}

impl PBXProjectDataView {
    /// The document that the top-level record of a text describes. The
    /// fields are asked for in this order, and the first that fails decides
    /// the error: `archive_version` and `object_version` (numbers, of which
    /// the low eight bits are kept), `classes` (a record, empty if there is
    /// none), `root_object` (a string), `objects` (a record of records).
    pub open spec fn of_record(m: Seq<(Seq<char>, PBXValueView)>) -> Result<
        PBXProjectDataView,
        PBXErrorView,
    > {
        match required_number(m, "archive_version"@) {
            Err(e) => Err(e),
            Ok(archive_version) => match required_number(m, "object_version"@) {
                Err(e) => Err(e),
                Ok(object_version) => match required_string(m, "root_object"@) {
                    Err(e) => Err(e),
                    Ok(root_object_reference) => match required_object(m, "objects"@) {
                        Err(e) => Err(e),
                        Ok(objects) => match graph_of(objects, objects.len()) {
                            Err(e) => Err(e),
                            Ok(graph) => Ok(
                                PBXProjectDataView {
                                    archive_version: low_byte(archive_version),
                                    object_version: low_byte(object_version),
                                    classes: object_or_empty(m, "classes"@),
                                    objects: graph,
                                    root_object_reference,
                                },
                            ),
                        },
                    },
                },
            },
        }
    }

    /// The document that a text describes: the text is read as a file, the
    /// parse tree reduced to a record, and the record read as a document.
    pub open spec fn of_text(text: Seq<char>) -> Result<PBXProjectDataView, PBXErrorView> {
        match tree_of(Rule::File, text) {
            Err(e) => Err(e),
            Ok(tree) => match file_of(tree) {
                Err(e) => Err(e),
                Ok(m) => Self::of_record(m),
            },
        }
    }
}

/// A record with the two version numbers and without a `root_object` field
/// describes no document: what is missing is named.
pub proof fn lemma_missing_root_object(m: Seq<(Seq<char>, PBXValueView)>)
    requires
        required_number(m, "archive_version"@) is Ok,
        required_number(m, "object_version"@) is Ok,
        lookup(m, "root_object"@) is None,
    ensures
        PBXProjectDataView::of_record(m) == Err::<PBXProjectDataView, PBXErrorView>(
            PBXErrorView::MissingField { key: "root_object"@ },
        ),
{
}

/// A record that describes no document fails with the name of the field
/// that is missing or of another shape.
pub proof fn lemma_record_error_names_a_field(m: Seq<(Seq<char>, PBXValueView)>)
    ensures
        PBXProjectDataView::of_record(m) matches Err(e) ==> e.names_a_field(),
{
    match required_object(m, "objects"@) {
        Ok(objects) => {
            crate::collection::lemma_graph_error_names_a_field(objects, objects.len());
        },
        Err(_) => {},
    }
}

/// A text that describes no document fails in one of three ways: with the
/// place where it stops following the grammar, with a number that is no
/// integer of 64 bits, or with the name of a field that is missing or of
/// another shape.
pub proof fn lemma_text_error(text: Seq<char>)
    ensures
        PBXProjectDataView::of_text(text) matches Err(e) ==> e is ParseError
            || e is InvalidNumberLiteral || e.names_a_field(),
{
    match tree_of(Rule::File, text) {
        Ok(tree) => {
            crate::parser::lemma_file_reduces(text);
            match file_of(tree) {
                Ok(m) => {
                    lemma_record_error_names_a_field(m);
                },
                Err(_) => {},
            }
        },
        Err(_) => {},
    }
}

/// The keys of the top-level record are five different texts.
proof fn lemma_keys_distinct()
    ensures
        "archive_version"@ != "object_version"@,
        "archive_version"@ != "classes"@,
        "archive_version"@ != "root_object"@,
        "archive_version"@ != "objects"@,
        "object_version"@ != "classes"@,
        "object_version"@ != "root_object"@,
        "object_version"@ != "objects"@,
        "classes"@ != "root_object"@,
        "classes"@ != "objects"@,
        "root_object"@ != "objects"@,
{
    reveal_strlit("archive_version");
    reveal_strlit("object_version");
    reveal_strlit("classes");
    reveal_strlit("root_object");
    reveal_strlit("objects");
    assert("archive_version"@.len() == 15);
    assert("object_version"@.len() == 14);
    assert("root_object"@.len() == 11);
    assert("classes"@.len() == 7 && "classes"@[0] == 'c');
    assert("objects"@.len() == 7 && "objects"@[0] == 'o');
}

impl PBXProjectData {
    /// A document of these parts.
    pub fn new(
        archive_version: u8,
        object_version: u8,
        classes: PBXHashMap,
        objects: PBXRootObject,
        root_object_reference: String,
    ) -> (r: PBXProjectData)
        ensures
            r.archive_version == archive_version,
            r.object_version == object_version,
            r.classes == classes,
            r.objects == objects,
            r.root_object_reference == root_object_reference,
    {
        PBXProjectData { archive_version, object_version, classes, objects, root_object_reference }
    }

    /// Reads a document from the top-level record of a text. Nothing is
    /// returned of a record that fails in any part.
    pub fn from_hashmap(object: PBXHashMap) -> (r: Result<PBXProjectData, PBXError>)
        ensures
            view_of_result(r) == PBXProjectDataView::of_record(object@),
    {
        let mut object = object;
        let ghost m = object@;
        proof {
            lemma_keys_distinct();
        }
        let archive_version = match object.try_remove_number("archive_version") {
            Ok(n) => n,
            Err(e) => {
                return Err(e);
            },
        };
        let object_version = match object.try_remove_number("object_version") {
            Ok(n) => n,
            Err(e) => {
                return Err(e);
            },
        };
        let classes = match object.remove_object("classes") {
            Some(classes) => classes,
            None => PBXHashMap::new(),
        };
        let root_object_reference = match object.try_remove_string("root_object") {
            Ok(text) => text,
            Err(e) => {
                return Err(e);
            },
        };
        let objects = match object.try_remove_object("objects") {
            Ok(objects) => objects,
            Err(e) => {
                return Err(e);
            },
        };
        let objects = match PBXRootObject::from_hashmap(objects) {
            Ok(graph) => graph,
            Err(e) => {
                return Err(e);
            },
        };
        Ok(
            PBXProjectData {
                archive_version: #[verifier::truncate]
                (archive_version as u8),
                object_version: #[verifier::truncate]
                (object_version as u8),
                classes,
                objects,
                root_object_reference,
            },
        )
    }
}

/// What `try_from` returns is stated on `try_from` itself, over views: a
/// specification cannot write down a `String` of a given text.
impl vstd::std_specs::convert::TryFromSpecImpl<&str> for PBXProjectData {
    open spec fn obeys_try_from_spec() -> bool {
        false
    }

    open spec fn try_from_spec(content: &str) -> Result<PBXProjectData, PBXError> {
        arbitrary()
    }
}

impl TryFrom<&str> for PBXProjectData {
    type Error = PBXError;

    /// Reads a document from the text of a project file.
    fn try_from(content: &str) -> (r: Result<PBXProjectData, PBXError>)
        ensures
            view_of_result(r) == PBXProjectDataView::of_text(content@),
    {
        let node = match PBXProjectParser::parse(Rule::File, content) {
            Ok(node) => node,
            Err(e) => {
                return Err(e);
            },
        };
        let object = match PBXProjectParser::file(&node) {
            Ok(object) => object,
            Err(e) => {
                return Err(e);
            },
        };
        PBXProjectData::from_hashmap(object)
    }
}

/// As for `&str`: the contract stands on `try_from` itself.
impl vstd::std_specs::convert::TryFromSpecImpl<String> for PBXProjectData {
    open spec fn obeys_try_from_spec() -> bool {
        false
    }

    open spec fn try_from_spec(content: String) -> Result<PBXProjectData, PBXError> {
        arbitrary()
    }
}

impl TryFrom<String> for PBXProjectData {
    type Error = PBXError;

    /// Reads a document from the text of a project file.
    fn try_from(content: String) -> (r: Result<PBXProjectData, PBXError>)
        ensures
            view_of_result(r) == PBXProjectDataView::of_text(content@),
    {
        PBXProjectData::try_from(content.as_str())
    }
}

} // verus!
