//! Build configurations: a name and the build settings that go by it.

use vstd::prelude::*;
use crate::error::{view_of_result, PBXError, PBXErrorView};
use crate::text::option_text;
use crate::value::{
    optional_string, required_object, required_string, PBXHashMap, PBXValueView,
};

verus! {

/// A named set of build settings, such as `Debug` or `Release`.
#[derive(Debug, PartialEq, Eq)]
pub struct XCBuildConfiguration {
    /// The name of the configuration.
    pub name: String,
    /// The build settings.
    pub build_settings: PBXHashMap,
    /// The identifier of the file that the settings are based on.
    pub base_configuration_reference: Option<String>,
}

/// The mathematical content of an `XCBuildConfiguration`.
pub struct XCBuildConfigurationView {
    pub name: Seq<char>,
    pub build_settings: Seq<(Seq<char>, PBXValueView)>,
    pub base_configuration_reference: Option<Seq<char>>,
}

impl View for XCBuildConfiguration {
    type V = XCBuildConfigurationView;

    open spec fn view(&self) -> XCBuildConfigurationView {
        XCBuildConfigurationView {
            name: self.name@,
            build_settings: self.build_settings@,
            base_configuration_reference: option_text(self.base_configuration_reference),
        }
    }
}

impl XCBuildConfigurationView {
    /// The configuration that a record describes: `name` and
    /// `build_settings` are required, `base_configuration_reference` is not.
    pub open spec fn of_record(m: Seq<(Seq<char>, PBXValueView)>) -> Result<
        XCBuildConfigurationView,
        PBXErrorView,
    > {
        match required_string(m, "name"@) {
            Err(e) => Err(e),
            Ok(name) => match required_object(m, "build_settings"@) {
                Err(e) => Err(e),
                Ok(build_settings) => Ok(
                    XCBuildConfigurationView {
                        name,
                        build_settings,
                        base_configuration_reference: optional_string(
                            m,
                            "base_configuration_reference"@,
                        ),
                    },
                ),
            },
        }
    }

    /// A configuration of the name `name` with no settings.
    pub open spec fn named(name: Seq<char>) -> XCBuildConfigurationView {
        XCBuildConfigurationView {
            name,
            build_settings: Seq::empty(),
            base_configuration_reference: None,
        }
    }
}

impl XCBuildConfiguration {
    /// A configuration of these parts.
    pub fn new(
        name: String,
        build_settings: PBXHashMap,
        base_configuration_reference: Option<String>,
    ) -> (r: XCBuildConfiguration)
        ensures
            r.name == name,
            r.build_settings == build_settings,
            r.base_configuration_reference == base_configuration_reference,
    {
        XCBuildConfiguration { name, build_settings, base_configuration_reference }
    }

    /// Reads a configuration from its record.
    pub fn from_hashmap(value: PBXHashMap) -> (r: Result<XCBuildConfiguration, PBXError>)
        ensures
            view_of_result(r) == XCBuildConfigurationView::of_record(value@),
    {
        let mut value = value;
        proof {
            // The three keys are three different texts.
            reveal_strlit("name");
            reveal_strlit("build_settings");
            reveal_strlit("base_configuration_reference");
            assert("name"@.len() == 4);
            assert("build_settings"@.len() == 14);
            assert("base_configuration_reference"@.len() == 28);
        }
        let name = match value.try_remove_string("name") {
            Ok(name) => name,
            Err(e) => {
                return Err(e);
            },
        };
        let build_settings = match value.try_remove_object("build_settings") {
            Ok(fields) => fields,
            Err(e) => {
                return Err(e);
            },
        };
        let base_configuration_reference = value.remove_string("base_configuration_reference");
        Ok(XCBuildConfiguration { name, build_settings, base_configuration_reference })
    }
}

} // verus!
