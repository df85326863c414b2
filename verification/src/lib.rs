//! Xcode project documents: from the text of a project file to generic
//! values, and from those to a typed object graph that can be edited.
//!
//! A text is recognized by the grammar ([`grammar`], [`recognize`]) as a
//! parse tree, the tree is reduced to generic values ([`parser`],
//! [`value`]), and the top-level record is read as a document ([`data`])
//! whose objects ([`object`]) stand in a graph under their identifiers
//! ([`collection`]). Every function states what it returns over the
//! mathematical content of its arguments, and is proved to return it; the
//! few calls into other crates are believed, and say so where they stand.

pub mod build_configuration;
pub mod collection;
pub mod configuration_list;
pub mod data;
pub mod error;
pub mod grammar;
pub mod keyed;
pub mod kind;
pub mod object;
pub mod parser;
pub mod recognize;
pub mod swift_package;
pub mod text;
pub mod value;

pub use crate::build_configuration::XCBuildConfiguration;
pub use crate::collection::PBXRootObject;
pub use crate::configuration_list::XCConfigurationList;
pub use crate::data::PBXProjectData;
pub use crate::error::PBXError;
pub use crate::grammar::{Node, Rule};
pub use crate::kind::{PBXKnownKind, PBXObjectKind};
pub use crate::object::PBXObject;
pub use crate::parser::PBXProjectParser;
pub use crate::swift_package::{XCRemoteSwiftPackageReference, XCVersionRequirement};
pub use crate::value::{PBXHashMap, PBXValue};
