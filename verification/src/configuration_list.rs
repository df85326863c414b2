//! Configuration lists: the build configurations of a project or a target,
//! by reference.

use vstd::prelude::*;
use crate::build_configuration::{XCBuildConfiguration, XCBuildConfigurationView};
use crate::collection::PBXRootObject;
use crate::error::{view_of_result, PBXError, PBXErrorView};
use crate::keyed::{
    is_first, lemma_key_index_absent, lemma_key_index_found, lemma_with, lookup, unique_keys, with,
};
use crate::object::{PBXObject, PBXObjectView};
use crate::text::{is_digit, option_text, str_eq};
use crate::value::{
    optional_string, required_array, required_number, strings_of, texts_view, PBXHashMap,
    PBXValue, PBXValueView,
};

verus! {

/// The build configurations of a project or a target: their identifiers in
/// order, and which of them is the default.
#[derive(Debug, PartialEq, Eq)]
pub struct XCConfigurationList {
    /// Element build configurations.
    build_configuration_references: Vec<String>,
    /// Element default configuration is visible.
    pub default_configuration_is_visible: bool,
    /// Element default configuration name
    pub default_configuration_name: Option<String>,
}

/// The mathematical content of an `XCConfigurationList`.
pub struct XCConfigurationListView {
    pub build_configuration_references: Seq<Seq<char>>,
    pub default_configuration_is_visible: bool,
    pub default_configuration_name: Option<Seq<char>>,
}

impl View for XCConfigurationList {
    type V = XCConfigurationListView;

    closed spec fn view(&self) -> XCConfigurationListView {
        XCConfigurationListView {
            build_configuration_references: texts_view(self.build_configuration_references@),
            default_configuration_is_visible: self.default_configuration_is_visible,
            default_configuration_name: option_text(self.default_configuration_name),
        }
    }
}

/// The build configurations that `references` lead to in `graph`, in the
/// order of the references. A reference that leads to nothing, or to an
/// object of another kind, is passed over.
pub open spec fn resolved(
    references: Seq<Seq<char>>,
    graph: Seq<(Seq<char>, PBXObjectView)>,
) -> Seq<XCBuildConfigurationView>
    decreases references.len(),
{
    if references.len() == 0 {
        Seq::empty()
    } else {
        let front = resolved(references.drop_last(), graph);
        match lookup(graph, references.last()) {
            Some(PBXObjectView::XCBuildConfiguration(c)) => front.push(c),
            _ => front,
        }
    }
}

/// Each configuration under its name.
pub open spec fn by_name(configurations: Seq<XCBuildConfigurationView>) -> Seq<
    (Seq<char>, XCBuildConfigurationView),
> {
    Seq::new(configurations.len(), |i: int| (configurations[i].name, configurations[i]))
}

/// The views of a sequence of build configurations.
pub open spec fn configurations_view(configurations: Seq<&XCBuildConfiguration>) -> Seq<
    XCBuildConfigurationView,
> {
    Seq::new(configurations.len(), |i: int| configurations[i]@)
}

/// The text form of a random identifier: 36 characters, hyphens at the
/// places 8, 13, 18 and 23, digits and the letters `a` to `f` everywhere else.
pub open spec fn is_hyphenated_identifier(id: Seq<char>) -> bool {
    &&& id.len() == 36
    &&& forall|i: int|
        0 <= i < 36 ==> if i == 8 || i == 13 || i == 18 || i == 23 {
            #[trigger] id[i] == '-'
        } else {
            is_digit(id[i]) || 'a' <= id[i] <= 'f'
        }
}

/// `uuid::Uuid::new_v4` and the identifier's `to_string`: a random
/// identifier in its hyphenated lower case form. Which identifier comes is
/// left open; two calls may well give the same. The call does not return
/// where the system has no random bytes to give.
#[verifier::external_body]
fn fresh_identifier() -> (id: String)
    ensures
        is_hyphenated_identifier(id@),
{
    uuid::Uuid::new_v4().to_string()
}

impl XCConfigurationListView {
    /// The list that a record describes: `build_configurations` must be an
    /// array of strings and `default_configuration_is_visible` a number, 1
    /// for yes; `default_configuration_name` is not required.
    pub open spec fn of_record(m: Seq<(Seq<char>, PBXValueView)>) -> Result<
        XCConfigurationListView,
        PBXErrorView,
    > {
        match required_array(m, "build_configurations"@) {
            Err(e) => Err(e),
            Ok(items) => match strings_of(items, "build_configurations"@) {
                Err(e) => Err(e),
                Ok(references) => match required_number(m, "default_configuration_is_visible"@) {
                    Err(e) => Err(e),
                    Ok(visible) => Ok(
                        XCConfigurationListView {
                            build_configuration_references: references,
                            default_configuration_is_visible: visible == 1,
                            default_configuration_name: optional_string(
                                m,
                                "default_configuration_name"@,
                            ),
                        },
                    ),
                },
            },
        }
    }

    /// The list with the two references `debug_id` and `release_id` behind
    /// the ones it has.
    pub open spec fn with_defaults(self, debug_id: Seq<char>, release_id: Seq<char>) -> XCConfigurationListView {
        XCConfigurationListView {
            build_configuration_references: self.build_configuration_references.push(
                debug_id,
            ).push(release_id),
            ..self
        }
    }
}

/// The graph with an empty configuration `Debug` under `debug_id` and then
/// an empty configuration `Release` under `release_id`.
pub open spec fn graph_with_defaults(
    graph: Seq<(Seq<char>, PBXObjectView)>,
    debug_id: Seq<char>,
    release_id: Seq<char>,
) -> Seq<(Seq<char>, PBXObjectView)> {
    with(
        with(
            graph,
            debug_id,
            PBXObjectView::XCBuildConfiguration(XCBuildConfigurationView::named("Debug"@)),
        ),
        release_id,
        PBXObjectView::XCBuildConfiguration(XCBuildConfigurationView::named("Release"@)),
    )
}

/// Both identifiers lead to their configurations: `release_id` to
/// `Release`, and `debug_id`, unless it is the same identifier, to `Debug`.
pub open spec fn defaults_present(
    graph: Seq<(Seq<char>, PBXObjectView)>,
    debug_id: Seq<char>,
    release_id: Seq<char>,
) -> bool {
    &&& unique_keys(graph)
    &&& lookup(graph, release_id) == Some(
        PBXObjectView::XCBuildConfiguration(XCBuildConfigurationView::named("Release"@)),
    )
    &&& debug_id != release_id ==> lookup(graph, debug_id) == Some(
        PBXObjectView::XCBuildConfiguration(XCBuildConfigurationView::named("Debug"@)),
    )
}

impl XCConfigurationList {
    /// A list of these parts.
    pub fn new(
        build_configuration_references: Vec<String>,
        default_configuration_is_visible: bool,
        default_configuration_name: Option<String>,
    ) -> (r: XCConfigurationList)
        ensures
            r@ == (XCConfigurationListView {
                build_configuration_references: texts_view(build_configuration_references@),
                default_configuration_is_visible,
                default_configuration_name: option_text(default_configuration_name),
            }),
    {
        XCConfigurationList {
            build_configuration_references,
            default_configuration_is_visible,
            default_configuration_name,
        }
    }

    /// The identifiers of the build configurations, in order.
    pub fn build_configuration_references(&self) -> (r: &Vec<String>)
        ensures
            texts_view(r@) == self@.build_configuration_references,
    {
        &self.build_configuration_references
    }

    /// Build configurations
    pub fn set_build_configuration_references(&mut self, references: Vec<String>) -> (r: Vec<
        String,
    >)
        ensures
            texts_view(r@) == old(self)@.build_configuration_references,
            final(self)@ == (XCConfigurationListView {
                build_configuration_references: texts_view(references@),
                ..old(self)@
            }),
    {
        let mut references = references;
        core::mem::swap(&mut self.build_configuration_references, &mut references);
        references
    }

    /// Build configurations
    pub fn get_build_configurations<'a>(&'a self, data: &'a PBXRootObject) -> (r: Vec<
        &'a XCBuildConfiguration,
    >)
        ensures
            configurations_view(r@) == resolved(self@.build_configuration_references, data@),
    {
        let ghost references = self@.build_configuration_references;
        let mut found: Vec<&'a XCBuildConfiguration> = Vec::new();
        let mut i: usize = 0;
        proof {
            assert(references.take(0) =~= Seq::<Seq<char>>::empty());
            assert(configurations_view(found@) =~= Seq::<XCBuildConfigurationView>::empty());
        }
        while i < self.build_configuration_references.len()
            invariant
                i <= self.build_configuration_references@.len(),
                references == texts_view(self.build_configuration_references@),
                configurations_view(found@) == resolved(references.take(i as int), data@),
            decreases self.build_configuration_references@.len() - i,
        {
            proof {
                assert(references.take(i + 1).drop_last() =~= references.take(i as int));
                assert(references.take(i + 1).last() == self.build_configuration_references@[i as int]@);
            }
            match data.get(self.build_configuration_references[i].as_str()) {
                Some(object) => match object.as_xc_build_configuration() {
                    Some(configuration) => {
                        let ghost before = found@;
                        found.push(configuration);
                        proof {
                            assert(configurations_view(found@) =~= configurations_view(
                                before,
                            ).push(configuration@));
                        }
                    },
                    None => {},
                },
                None => {},
            }
            i += 1;
        }
        proof {
            assert(references.take(references.len() as int) =~= references);
        }
        found
    }

    /// Returns the build configuration with the given name (if it exists)
    pub fn get_configuration_by_name<'a>(
        &'a self,
        data: &'a PBXRootObject,
        name: &'a str,
    ) -> (r: Option<&'a XCBuildConfiguration>)
        ensures
            match r {
                Some(configuration) => lookup(
                    by_name(resolved(self@.build_configuration_references, data@)),
                    name@,
                ) == Some(configuration@),
                None => lookup(
                    by_name(resolved(self@.build_configuration_references, data@)),
                    name@,
                ) is None,
            },
    {
        let found = self.get_build_configurations(data);
        let ghost named = by_name(configurations_view(found@));
        let mut i: usize = 0;
        while i < found.len()
            invariant
                i <= found@.len(),
                named == by_name(configurations_view(found@)),
                named == by_name(resolved(self@.build_configuration_references, data@)),
                forall|j: int| 0 <= j < i ==> (#[trigger] named[j]).0 != name@,
            decreases found@.len() - i,
        {
            let configuration: &'a XCBuildConfiguration = found[i];
            proof {
                assert(named[i as int] == (configuration@.name, configuration@));
            }
            if str_eq(configuration.name.as_str(), name) {
                proof {
                    assert(is_first(named, name@, i as int));
                    lemma_key_index_found(named, name@, i as int);
                    assert(lookup(named, name@) == Some(configuration@));
                }
                return Some(configuration);
            }
            i += 1;
        }
        proof {
            lemma_key_index_absent(named, name@);
        }
        None
    }

    /// Puts an empty configuration `Debug` under `debug_id` and an empty
    /// configuration `Release` under `release_id` into the graph, and the two
    /// identifiers, in that order, behind the references of the list.
    pub fn add_configurations(
        &mut self,
        data: &mut PBXRootObject,
        debug_id: String,
        release_id: String,
    )
        ensures
            final(self)@ == old(self)@.with_defaults(debug_id@, release_id@),
            final(data)@ == graph_with_defaults(old(data)@, debug_id@, release_id@),
            defaults_present(final(data)@, debug_id@, release_id@),
    {
        proof {
            use_type_invariant(&*data);
            data.lemma_inv();
        }
        let debug = XCBuildConfiguration::new("Debug".to_owned(), PBXHashMap::new(), None);
        let release = XCBuildConfiguration::new("Release".to_owned(), PBXHashMap::new(), None);
        data.insert(debug_id.clone(), PBXObject::XCBuildConfiguration(debug));
        let ghost middle = data@;
        data.insert(release_id.clone(), PBXObject::XCBuildConfiguration(release));
        proof {
            let release_view = PBXObjectView::XCBuildConfiguration(
                XCBuildConfigurationView::named("Release"@),
            );
            let debug_view = PBXObjectView::XCBuildConfiguration(
                XCBuildConfigurationView::named("Debug"@),
            );
            lemma_with(old(data)@, debug_id@, debug_view, debug_id@);
            lemma_with(middle, release_id@, release_view, debug_id@);
        }
        let ghost before = self.build_configuration_references@;
        self.build_configuration_references.push(debug_id);
        self.build_configuration_references.push(release_id);
        proof {
            assert(texts_view(self.build_configuration_references@) =~= texts_view(before).push(
                debug_id@,
            ).push(release_id@));
        }
    }

    /// Adds the default configurations, debug and release
    pub fn add_default_configurations(&mut self, data: &mut PBXRootObject)
        ensures
            final(self)@.build_configuration_references.len() == old(
                self,
            )@.build_configuration_references.len() + 2,
            ({
                let n = old(self)@.build_configuration_references.len() as int;
                let debug_id = final(self)@.build_configuration_references[n];
                let release_id = final(self)@.build_configuration_references[n + 1];
                &&& is_hyphenated_identifier(debug_id)
                &&& is_hyphenated_identifier(release_id)
                &&& final(self)@ == old(self)@.with_defaults(debug_id, release_id)
                &&& final(data)@ == graph_with_defaults(old(data)@, debug_id, release_id)
                &&& defaults_present(final(data)@, debug_id, release_id)
            }),
    {
        let debug_id = fresh_identifier();
        let release_id = fresh_identifier();
        self.add_configurations(data, debug_id, release_id);
    }

}

/// What `try_from` returns is stated on `try_from` itself, over views: a
/// specification cannot write down a `String` of a given text.
impl vstd::std_specs::convert::TryFromSpecImpl<PBXHashMap> for XCConfigurationList {
    open spec fn obeys_try_from_spec() -> bool {
        false
    }

    open spec fn try_from_spec(value: PBXHashMap) -> Result<XCConfigurationList, PBXError> {
        arbitrary()
    }
}

impl TryFrom<PBXHashMap> for XCConfigurationList {
    type Error = PBXError;

    /// Reads a list from its record.
    fn try_from(value: PBXHashMap) -> (r: Result<XCConfigurationList, PBXError>)
        ensures
            view_of_result(r) == XCConfigurationListView::of_record(value@),
    {
        let mut value = value;
        proof {
            // The three keys are three different texts.
            reveal_strlit("build_configurations");
            reveal_strlit("default_configuration_is_visible");
            reveal_strlit("default_configuration_name");
            assert("build_configurations"@.len() == 20);
            assert("default_configuration_is_visible"@.len() == 32);
            assert("default_configuration_name"@.len() == 26);
        }
        let items = match value.try_remove_vec("build_configurations") {
            Ok(items) => items,
            Err(e) => {
                return Err(e);
            },
        };
        let build_configuration_references = match PBXValue::try_into_vec_strings(
            items,
            "build_configurations",
        ) {
            Ok(references) => references,
            Err(e) => {
                return Err(e);
            },
        };
        let visible = match value.try_remove_number("default_configuration_is_visible") {
            Ok(n) => n,
            Err(e) => {
                return Err(e);
            },
        };
        let default_configuration_name = value.remove_string("default_configuration_name");
        Ok(
            XCConfigurationList {
                build_configuration_references,
                default_configuration_is_visible: visible == 1,
                default_configuration_name,
            },
        )
    }
}

} // verus!
