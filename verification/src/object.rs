//! The objects of a project: one variant for each kind that has a typed
//! form, and one that keeps the record of any other kind as it is.

use vstd::prelude::*;
use crate::build_configuration::{XCBuildConfiguration, XCBuildConfigurationView};
use crate::configuration_list::{XCConfigurationList, XCConfigurationListView};
use crate::error::{view_of_result, PBXError, PBXErrorView, ValueKind};
use crate::keyed::{lookup, without};
use crate::kind::{PBXKnownKind, PBXObjectKind, PBXObjectKindView};
use crate::swift_package::{XCRemoteSwiftPackageReference, XCRemoteSwiftPackageReferenceView};
use crate::value::{PBXHashMap, PBXValue, PBXValueView};

verus! {

/// An object of a project.
#[derive(Debug, PartialEq, Eq)]
pub enum PBXObject {
    XCBuildConfiguration(XCBuildConfiguration),
    XCConfigurationList(XCConfigurationList),
    XCRemoteSwiftPackageReference(XCRemoteSwiftPackageReference),
    /// An object of a kind that has no typed form: its kind and its record
    /// without the `isa` field.
    Other { kind: PBXObjectKind, fields: PBXHashMap },
}

/// The mathematical content of a `PBXObject`.
pub enum PBXObjectView {
    XCBuildConfiguration(XCBuildConfigurationView),
    XCConfigurationList(XCConfigurationListView),
    XCRemoteSwiftPackageReference(XCRemoteSwiftPackageReferenceView),
    Other { kind: PBXObjectKindView, fields: Seq<(Seq<char>, PBXValueView)> },
}

impl View for PBXObject {
    type V = PBXObjectView;

    open spec fn view(&self) -> PBXObjectView {
        match self {
            PBXObject::XCBuildConfiguration(c) => PBXObjectView::XCBuildConfiguration(c@),
            PBXObject::XCConfigurationList(l) => PBXObjectView::XCConfigurationList(l@),
            PBXObject::XCRemoteSwiftPackageReference(r) => {
                PBXObjectView::XCRemoteSwiftPackageReference(r@)
            },
            PBXObject::Other { kind, fields } => PBXObjectView::Other {
                kind: kind@,
                fields: fields@,
            },
        }
    }
}

/// Whether objects of the kind `kind` have a typed form.
pub open spec fn has_typed_form(kind: PBXObjectKindView) -> bool {
    ||| kind == PBXObjectKindView::Known(PBXKnownKind::XCBuildConfiguration)
    ||| kind == PBXObjectKindView::Known(PBXKnownKind::XCConfigurationList)
    ||| kind == PBXObjectKindView::Known(PBXKnownKind::XCRemoteSwiftPackageReference)
}

impl PBXObjectView {
    /// The kind of the object.
    pub open spec fn kind(self) -> PBXObjectKindView {
        match self {
            PBXObjectView::XCBuildConfiguration(_) => PBXObjectKindView::Known(
                PBXKnownKind::XCBuildConfiguration,
            ),
            PBXObjectView::XCConfigurationList(_) => PBXObjectKindView::Known(
                PBXKnownKind::XCConfigurationList,
            ),
            PBXObjectView::XCRemoteSwiftPackageReference(_) => PBXObjectKindView::Known(
                PBXKnownKind::XCRemoteSwiftPackageReference,
            ),
            PBXObjectView::Other { kind, .. } => kind,
        }
    }

    /// The object of the kind `kind` that the record `m` describes: the typed
    /// form where the kind has one, else the record as it is.
    pub open spec fn of(kind: PBXObjectKindView, m: Seq<(Seq<char>, PBXValueView)>) -> Result<
        PBXObjectView,
        PBXErrorView,
    > {
        if kind == PBXObjectKindView::Known(PBXKnownKind::XCBuildConfiguration) {
            match XCBuildConfigurationView::of_record(m) {
                Ok(c) => Ok(PBXObjectView::XCBuildConfiguration(c)),
                Err(e) => Err(e),
            }
        } else if kind == PBXObjectKindView::Known(PBXKnownKind::XCConfigurationList) {
            match XCConfigurationListView::of_record(m) {
                Ok(l) => Ok(PBXObjectView::XCConfigurationList(l)),
                Err(e) => Err(e),
            }
        } else if kind == PBXObjectKindView::Known(PBXKnownKind::XCRemoteSwiftPackageReference) {
            Ok(
                PBXObjectView::XCRemoteSwiftPackageReference(
                    XCRemoteSwiftPackageReferenceView::of_record(m),
                ),
            )
        } else {
            Ok(PBXObjectView::Other { kind, fields: m })
        }
    }

    /// The kind that the `isa` field of a record names. A tag that the
    /// grammar did not know is a string there, and names an unknown kind.
    pub open spec fn kind_of_record(m: Seq<(Seq<char>, PBXValueView)>) -> Result<
        PBXObjectKindView,
        PBXErrorView,
    > {
        match lookup(m, "isa"@) {
            Some(PBXValueView::Kind(kind)) => Ok(kind),
            Some(PBXValueView::String(tag)) => Ok(PBXObjectKindView::of_tag(tag)),
            Some(other) => Err(
                PBXErrorView::TypeMismatch {
                    key: "isa"@,
                    expected_kind: ValueKind::Kind,
                    actual_kind: other.kind(),
                },
            ),
            None => Err(PBXErrorView::MissingField { key: "isa"@ }),
        }
    }

    /// The object that a record describes: of the kind that its `isa` field
    /// names, made of its other fields.
    pub open spec fn of_record(m: Seq<(Seq<char>, PBXValueView)>) -> Result<
        PBXObjectView,
        PBXErrorView,
    > {
        match Self::kind_of_record(m) {
            Ok(kind) => Self::of(kind, without(m, "isa"@)),
            Err(e) => Err(e),
        }
    }
}

/// A record that describes no object fails with the name of the field that
/// is missing or of another shape.
pub proof fn lemma_object_error_names_a_field(m: Seq<(Seq<char>, PBXValueView)>)
    ensures
        PBXObjectView::of_record(m) matches Err(e) ==> e.names_a_field(),
{
    let fields = without(m, "isa"@);
    match crate::value::required_array(fields, "build_configurations"@) {
        Ok(items) => {
            crate::value::lemma_strings_of_names_the_field(items, "build_configurations"@);
        },
        Err(_) => {},
    }
}

/// An object is of the kind that it was made for.
pub proof fn lemma_object_kind(kind: PBXObjectKindView, m: Seq<(Seq<char>, PBXValueView)>)
    ensures
        PBXObjectView::of(kind, m) matches Ok(object) ==> object.kind() == kind,
{
}

/// A kind without a typed form never fails: the object keeps the record.
pub proof fn lemma_object_of_other_kind(
    kind: PBXObjectKindView,
    m: Seq<(Seq<char>, PBXValueView)>,
)
    requires
        !has_typed_form(kind),
    ensures
        PBXObjectView::of(kind, m) == Ok::<PBXObjectView, PBXErrorView>(
            PBXObjectView::Other { kind, fields: m },
        ),
{
}

/// A record whose `isa` field holds a tag that is none of the known ones
/// describes an object of the unknown kind that carries the tag.
pub proof fn lemma_unknown_kind_object(m: Seq<(Seq<char>, PBXValueView)>, tag: Seq<char>)
    requires
        PBXKnownKind::of_tag(tag) is None,
        lookup(m, "isa"@) == Some(PBXValueView::String(tag)) || lookup(m, "isa"@) == Some(
            PBXValueView::Kind(PBXObjectKindView::Unknown(tag)),
        ),
    ensures
        PBXObjectView::of_record(m) == Ok::<PBXObjectView, PBXErrorView>(
            PBXObjectView::Other {
                kind: PBXObjectKindView::Unknown(tag),
                fields: without(m, "isa"@),
            },
        ),
{
}

impl PBXObject {
    /// Makes the object of the kind `kind` from its record.
    pub fn new(kind: PBXObjectKind, fields: PBXHashMap) -> (r: Result<PBXObject, PBXError>)
        ensures
            view_of_result(r) == PBXObjectView::of(kind@, fields@),
    {
        match kind {
            PBXObjectKind::Known(PBXKnownKind::XCBuildConfiguration) => {
                match XCBuildConfiguration::from_hashmap(fields) {
                    Ok(c) => Ok(PBXObject::XCBuildConfiguration(c)),
                    Err(e) => Err(e),
                }
            },
            PBXObjectKind::Known(PBXKnownKind::XCConfigurationList) => {
                match XCConfigurationList::try_from(fields) {
                    Ok(l) => Ok(PBXObject::XCConfigurationList(l)),
                    Err(e) => Err(e),
                }
            },
            PBXObjectKind::Known(PBXKnownKind::XCRemoteSwiftPackageReference) => {
                match XCRemoteSwiftPackageReference::from_hashmap(fields) {
                    Ok(r) => Ok(PBXObject::XCRemoteSwiftPackageReference(r)),
                    Err(e) => Err(e),
                }
            },
            kind => Ok(PBXObject::Other { kind, fields }),
        }
    }

    /// Makes the object that a record describes.
    pub fn from_hashmap(fields: PBXHashMap) -> (r: Result<PBXObject, PBXError>)
        ensures
            view_of_result(r) == PBXObjectView::of_record(fields@),
    {
        let mut fields = fields;
        let kind = match fields.remove_value("isa") {
            Some(PBXValue::Kind(kind)) => kind,
            Some(PBXValue::String(tag)) => PBXObjectKind::from(tag.as_str()),
            Some(other) => {
                return Err(
                    PBXError::TypeMismatch {
                        key: "isa".to_owned(),
                        expected_kind: ValueKind::Kind,
                        actual_kind: other.kind(),
                    },
                );
            },
            None => {
                return Err(PBXError::MissingField { key: "isa".to_owned() });
            },
        };
        Self::new(kind, fields)
    }

    /// The kind of the object.
    pub fn kind(&self) -> (r: PBXObjectKind)
        ensures
            r@ == self@.kind(),
    {
        match self {
            PBXObject::XCBuildConfiguration(_) => PBXObjectKind::Known(
                PBXKnownKind::XCBuildConfiguration,
            ),
            PBXObject::XCConfigurationList(_) => PBXObjectKind::Known(
                PBXKnownKind::XCConfigurationList,
            ),
            PBXObject::XCRemoteSwiftPackageReference(_) => PBXObjectKind::Known(
                PBXKnownKind::XCRemoteSwiftPackageReference,
            ),
            PBXObject::Other { kind, .. } => match kind {
                PBXObjectKind::Known(k) => PBXObjectKind::Known(*k),
                PBXObjectKind::Unknown(tag) => PBXObjectKind::Unknown(tag.clone()),
            },
        }
    }

    /// The build configuration, if the object is one.
    pub fn as_xc_build_configuration(&self) -> (r: Option<&XCBuildConfiguration>)
        ensures
            match r {
                Some(c) => *self == PBXObject::XCBuildConfiguration(*c),
                None => !(self is XCBuildConfiguration),
            },
    {
        match self {
            PBXObject::XCBuildConfiguration(c) => Some(c),
            _ => None,
        }
    }

    /// The configuration list, if the object is one.
    pub fn as_xc_configuration_list(&self) -> (r: Option<&XCConfigurationList>)
        ensures
            match r {
                Some(l) => *self == PBXObject::XCConfigurationList(*l),
                None => !(self is XCConfigurationList),
            },
    {
        match self {
            PBXObject::XCConfigurationList(l) => Some(l),
            _ => None,
        }
    }

    /// The package reference, if the object is one.
    pub fn as_xc_remote_swift_package_reference(&self) -> (r: Option<
        &XCRemoteSwiftPackageReference,
    >)
        ensures
            match r {
                Some(p) => *self == PBXObject::XCRemoteSwiftPackageReference(*p),
                None => !(self is XCRemoteSwiftPackageReference),
            },
    {
        match self {
            PBXObject::XCRemoteSwiftPackageReference(p) => Some(p),
            _ => None,
        }
    }
}

} // verus!
