//! References to Swift packages that live in a remote repository.

use vstd::prelude::*;
use vstd::string::StrSliceExecFns;
use crate::error::PBXError;
use crate::keyed::lookup;
use crate::text::{chars_of, option_text, str_eq};
use crate::value::{optional_string, PBXHashMap, PBXValue, PBXValueView};

verus! {

/// The versions of a package that a project accepts.
#[derive(Debug, PartialEq, Eq)]
pub enum XCVersionRequirement {
    /// From a version up to the next major one.
    UpToNextMajorVersion(String),
    /// From a version up to the next minor one.
    UpToNextMinorVersion(String),
    /// From a lowest to a highest version.
    Range(String, String),
    /// One version.
    Exact(String),
    /// The head of a branch.
    Branch(String),
    /// One revision.
    Revision(String),
}

/// The mathematical content of an `XCVersionRequirement`.
pub enum XCVersionRequirementView {
    UpToNextMajorVersion(Seq<char>),
    UpToNextMinorVersion(Seq<char>),
    Range(Seq<char>, Seq<char>),
    Exact(Seq<char>),
    Branch(Seq<char>),
    Revision(Seq<char>),
}

impl View for XCVersionRequirement {
    type V = XCVersionRequirementView;

    open spec fn view(&self) -> XCVersionRequirementView {
        match self {
            XCVersionRequirement::UpToNextMajorVersion(v) => {
                XCVersionRequirementView::UpToNextMajorVersion(v@)
            },
            XCVersionRequirement::UpToNextMinorVersion(v) => {
                XCVersionRequirementView::UpToNextMinorVersion(v@)
            },
            XCVersionRequirement::Range(low, high) => XCVersionRequirementView::Range(low@, high@),
            XCVersionRequirement::Exact(v) => XCVersionRequirementView::Exact(v@),
            XCVersionRequirement::Branch(b) => XCVersionRequirementView::Branch(b@),
            XCVersionRequirement::Revision(r) => XCVersionRequirementView::Revision(r@),
        }
    }
}

/// The view of an optional requirement.
pub open spec fn option_requirement(r: Option<XCVersionRequirement>) -> Option<
    XCVersionRequirementView,
> {
    match r {
        Some(r) => Some(r@),
        None => None,
    }
}

impl XCVersionRequirementView {
    /// The requirement that a record describes: its `kind` names the variant,
    /// and the strings of the variant stand under the keys that go with the
    /// kind. A record that lacks one of them describes none.
    pub open spec fn of_record(m: Seq<(Seq<char>, PBXValueView)>) -> Option<
        XCVersionRequirementView,
    > {
        match optional_string(m, "kind"@) {
            None => None,
            Some(kind) => if kind == "upToNextMajorVersion"@ {
                match optional_string(m, "minimum_version"@) {
                    Some(v) => Some(XCVersionRequirementView::UpToNextMajorVersion(v)),
                    None => None,
                }
            } else if kind == "upToNextMinorVersion"@ {
                match optional_string(m, "minimum_version"@) {
                    Some(v) => Some(XCVersionRequirementView::UpToNextMinorVersion(v)),
                    None => None,
                }
            } else if kind == "versionRange"@ {
                match (
                    optional_string(m, "minimum_version"@),
                    optional_string(m, "maximum_version"@),
                ) {
                    (Some(low), Some(high)) => Some(XCVersionRequirementView::Range(low, high)),
                    _ => None,
                }
            } else if kind == "exactVersion"@ {
                match optional_string(m, "version"@) {
                    Some(v) => Some(XCVersionRequirementView::Exact(v)),
                    None => None,
                }
            } else if kind == "branch"@ {
                match optional_string(m, "branch"@) {
                    Some(b) => Some(XCVersionRequirementView::Branch(b)),
                    None => None,
                }
            } else if kind == "revision"@ {
                match optional_string(m, "revision"@) {
                    Some(r) => Some(XCVersionRequirementView::Revision(r)),
                    None => None,
                }
            } else {
                None
            },
        }
    }

    /// The requirement that a value describes: that of its record, if the
    /// value is an object.
    pub open spec fn of_value(value: PBXValueView) -> Option<XCVersionRequirementView> {
        match value {
            PBXValueView::Object(m) => Self::of_record(m),
            _ => None,
        }
    }
}

fn cloned(text: Option<&String>) -> (r: Option<String>)
    ensures
        match text {
            Some(text) => r is Some && r->0@ == text@,
            None => r is None,
        },
{
    match text {
        Some(text) => Some(text.clone()),
        None => None,
    }
}

impl XCVersionRequirement {
    /// Reads a requirement from its record.
    pub fn from_hashmap(value: &PBXHashMap) -> (r: Option<XCVersionRequirement>)
        ensures
            option_requirement(r) == XCVersionRequirementView::of_record(value@),
    {
        let kind = match value.get_string("kind") {
            Some(kind) => kind,
            None => {
                return None;
            },
        };
        let kind = kind.as_str();
        if str_eq(kind, "upToNextMajorVersion") {
            match cloned(value.get_string("minimum_version")) {
                Some(v) => Some(XCVersionRequirement::UpToNextMajorVersion(v)),
                None => None,
            }
        } else if str_eq(kind, "upToNextMinorVersion") {
            match cloned(value.get_string("minimum_version")) {
                Some(v) => Some(XCVersionRequirement::UpToNextMinorVersion(v)),
                None => None,
            }
        } else if str_eq(kind, "versionRange") {
            match (
                cloned(value.get_string("minimum_version")),
                cloned(value.get_string("maximum_version")),
            ) {
                (Some(low), Some(high)) => Some(XCVersionRequirement::Range(low, high)),
                _ => None,
            }
        } else if str_eq(kind, "exactVersion") {
            match cloned(value.get_string("version")) {
                Some(v) => Some(XCVersionRequirement::Exact(v)),
                None => None,
            }
        } else if str_eq(kind, "branch") {
            match cloned(value.get_string("branch")) {
                Some(b) => Some(XCVersionRequirement::Branch(b)),
                None => None,
            }
        } else if str_eq(kind, "revision") {
            match cloned(value.get_string("revision")) {
                Some(r) => Some(XCVersionRequirement::Revision(r)),
                None => None,
            }
        } else {
            None
        }
    }

    /// Reads a requirement from a value: an object is read as its record,
    /// any other value describes none.
    pub fn from_value(value: &PBXValue) -> (r: Option<XCVersionRequirement>)
        ensures
            option_requirement(r) == XCVersionRequirementView::of_value(value@),
    {
        match value {
            PBXValue::Object(fields) => Self::from_hashmap(fields),
            _ => None,
        }
    }
}

/// Where the last segment of a path starts: behind its last `/`, or at its
/// start if it has none.
pub open spec fn segment_start(path: Seq<char>) -> int
    decreases path.len(),
{
    if path.len() == 0 || path.last() == '/' {
        path.len() as int
    } else {
        segment_start(path.drop_last())
    }
}

/// What stands behind the last `/` of a path; the whole path if it has none.
pub open spec fn last_segment(path: Seq<char>) -> Seq<char> {
    path.skip(segment_start(path))
}

/// The last segment holds no `/`, and stands at the start of the path or
/// behind a `/`.
pub proof fn lemma_last_segment(path: Seq<char>)
    ensures
        0 <= segment_start(path) <= path.len(),
        segment_start(path) == 0 || path[segment_start(path) - 1] == '/',
        forall|i: int| 0 <= i < last_segment(path).len() ==> last_segment(path)[i] != '/',
    decreases path.len(),
{
    if path.len() != 0 && path.last() != '/' {
        let front = path.drop_last();
        lemma_last_segment(front);
        assert forall|i: int| 0 <= i < last_segment(path).len() implies last_segment(path)[i]
            != '/' by {
            if i < last_segment(front).len() {
                assert(last_segment(path)[i] == last_segment(front)[i]);
            }
        }
    }
}

/// A reference to a Swift package in a remote repository.
#[derive(Debug, PartialEq, Eq)]
pub struct XCRemoteSwiftPackageReference {
    /// Repository url.
    pub repository_url: Option<String>,
    /// Version rules.
    pub version_requirement: Option<XCVersionRequirement>,
}

/// The mathematical content of an `XCRemoteSwiftPackageReference`.
pub struct XCRemoteSwiftPackageReferenceView {
    pub repository_url: Option<Seq<char>>,
    pub version_requirement: Option<XCVersionRequirementView>,
}

impl View for XCRemoteSwiftPackageReference {
    type V = XCRemoteSwiftPackageReferenceView;

    open spec fn view(&self) -> XCRemoteSwiftPackageReferenceView {
        XCRemoteSwiftPackageReferenceView {
            repository_url: option_text(self.repository_url),
            version_requirement: option_requirement(self.version_requirement),
        }
    }
}

impl XCRemoteSwiftPackageReferenceView {
    /// The reference that a record describes. Neither field is required, and
    /// one that holds a value of another shape counts as absent.
    pub open spec fn of_record(m: Seq<(Seq<char>, PBXValueView)>) -> XCRemoteSwiftPackageReferenceView {
        XCRemoteSwiftPackageReferenceView {
            repository_url: optional_string(m, "repository_url"@),
            version_requirement: match lookup(m, "requirement"@) {
                Some(value) => XCVersionRequirementView::of_value(value),
                None => None,
            },
        }
    }
}

impl XCRemoteSwiftPackageReference {
    /// A reference of these parts.
    pub fn new(
        repository_url: Option<String>,
        version_requirement: Option<XCVersionRequirement>,
    ) -> (r: XCRemoteSwiftPackageReference)
        ensures
            r.repository_url == repository_url,
            r.version_requirement == version_requirement,
    {
        XCRemoteSwiftPackageReference { repository_url, version_requirement }
    }

    /// The name of the package: the last segment of the repository url.
    pub fn name(&self) -> (r: Option<&str>)
        ensures
            match r {
                Some(name) => self@.repository_url is Some && name@ == last_segment(
                    self@.repository_url->0,
                ),
                None => self@.repository_url is None,
            },
    {
        match &self.repository_url {
            Some(url) => {
                let chars = chars_of(url.as_str());
                let mut start: usize = chars.len();
                proof {
                    assert(chars@.take(chars@.len() as int) =~= chars@);
                }
                while start > 0 && chars[start - 1] != '/'
                    invariant
                        start <= chars@.len(),
                        segment_start(chars@) == segment_start(chars@.take(start as int)),
                    decreases start,
                {
                    proof {
                        assert(chars@.take(start as int).drop_last() =~= chars@.take(start - 1));
                    }
                    start -= 1;
                }
                let name = url.as_str().substring_char(start, chars.len());
                proof {
                    assert(chars@.subrange(start as int, chars@.len() as int) =~= chars@.skip(
                        start as int,
                    ));
                }
                Some(name)
            },
            None => None,
        }
    }

    /// The version rules.
    #[must_use]
    pub fn version_requirement(&self) -> (r: Option<&XCVersionRequirement>)
        ensures
            match r {
                Some(requirement) => self.version_requirement == Some(*requirement),
                None => self.version_requirement is None,
            },
    {
        self.version_requirement.as_ref()
    }

    /// Reads a reference from its record. Never fails.
    pub fn from_hashmap(value: PBXHashMap) -> (r: Result<XCRemoteSwiftPackageReference, PBXError>)
        ensures
            r is Ok,
            r->Ok_0@ == XCRemoteSwiftPackageReferenceView::of_record(value@),
    {
        let mut value = value;
        proof {
            // The two keys are two different texts.
            reveal_strlit("repository_url");
            reveal_strlit("requirement");
            assert("repository_url"@.len() == 14);
            assert("requirement"@.len() == 11);
        }
        let repository_url = match value.remove_value("repository_url") {
            Some(PBXValue::String(url)) => Some(url),
            _ => None,
        };
        let version_requirement = match value.remove_value("requirement") {
            Some(requirement) => XCVersionRequirement::from_value(&requirement),
            None => None,
        };
        Ok(XCRemoteSwiftPackageReference { repository_url, version_requirement })
    }
}

} // verus!
