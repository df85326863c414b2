//! The type tags that an object record carries in its `isa` field.

use vstd::prelude::*;
use crate::text::str_eq;

verus! {

/// The object type tags of Xcode that this library knows by name.
#[derive(Clone, Copy, Debug, PartialEq, Eq, Hash, Structural)]
pub enum PBXKnownKind {
    PBXAggregateTarget,
    PBXBuildFile,
    PBXBuildRule,
    PBXContainerItemProxy,
    PBXCopyFilesBuildPhase,
    PBXFileReference,
    PBXFrameworksBuildPhase,
    PBXGroup,
    PBXHeadersBuildPhase,
    PBXLegacyTarget,
    PBXNativeTarget,
    PBXProject,
    PBXReferenceProxy,
    PBXResourcesBuildPhase,
    PBXRezBuildPhase,
    PBXShellScriptBuildPhase,
    PBXSourcesBuildPhase,
    PBXTargetDependency,
    PBXVariantGroup,
    XCBuildConfiguration,
    XCConfigurationList,
    XCRemoteSwiftPackageReference,
    XCSwiftPackageProductDependency,
    XCVersionGroup,
}

impl PBXKnownKind {
    /// The tag as it is written in a project document.
    pub open spec fn spec_tag(self) -> Seq<char> {
        match self {
            PBXKnownKind::PBXAggregateTarget => "PBXAggregateTarget"@,
            PBXKnownKind::PBXBuildFile => "PBXBuildFile"@,
            PBXKnownKind::PBXBuildRule => "PBXBuildRule"@,
            PBXKnownKind::PBXContainerItemProxy => "PBXContainerItemProxy"@,
            PBXKnownKind::PBXCopyFilesBuildPhase => "PBXCopyFilesBuildPhase"@,
            PBXKnownKind::PBXFileReference => "PBXFileReference"@,
            PBXKnownKind::PBXFrameworksBuildPhase => "PBXFrameworksBuildPhase"@,
            PBXKnownKind::PBXGroup => "PBXGroup"@,
            PBXKnownKind::PBXHeadersBuildPhase => "PBXHeadersBuildPhase"@,
            PBXKnownKind::PBXLegacyTarget => "PBXLegacyTarget"@,
            PBXKnownKind::PBXNativeTarget => "PBXNativeTarget"@,
            PBXKnownKind::PBXProject => "PBXProject"@,
            PBXKnownKind::PBXReferenceProxy => "PBXReferenceProxy"@,
            PBXKnownKind::PBXResourcesBuildPhase => "PBXResourcesBuildPhase"@,
            PBXKnownKind::PBXRezBuildPhase => "PBXRezBuildPhase"@,
            PBXKnownKind::PBXShellScriptBuildPhase => "PBXShellScriptBuildPhase"@,
            PBXKnownKind::PBXSourcesBuildPhase => "PBXSourcesBuildPhase"@,
            PBXKnownKind::PBXTargetDependency => "PBXTargetDependency"@,
            PBXKnownKind::PBXVariantGroup => "PBXVariantGroup"@,
            PBXKnownKind::XCBuildConfiguration => "XCBuildConfiguration"@,
            PBXKnownKind::XCConfigurationList => "XCConfigurationList"@,
            PBXKnownKind::XCRemoteSwiftPackageReference => "XCRemoteSwiftPackageReference"@,
            PBXKnownKind::XCSwiftPackageProductDependency => "XCSwiftPackageProductDependency"@,
            PBXKnownKind::XCVersionGroup => "XCVersionGroup"@,
        }
    }

    /// The known kind that is written as `tag`, if there is one.
    pub open spec fn of_tag(tag: Seq<char>) -> Option<PBXKnownKind> {
        if exists|k: PBXKnownKind| #[trigger] k.spec_tag() == tag {
            Some(choose|k: PBXKnownKind| #[trigger] k.spec_tag() == tag)
        } else {
            None
        }
    }

    /// The tag as it is written in a project document.
    pub fn tag(self) -> (r: &'static str)
        ensures
            r@ == self.spec_tag(),
    {
        match self {
            PBXKnownKind::PBXAggregateTarget => "PBXAggregateTarget",
            PBXKnownKind::PBXBuildFile => "PBXBuildFile",
            PBXKnownKind::PBXBuildRule => "PBXBuildRule",
            PBXKnownKind::PBXContainerItemProxy => "PBXContainerItemProxy",
            PBXKnownKind::PBXCopyFilesBuildPhase => "PBXCopyFilesBuildPhase",
            PBXKnownKind::PBXFileReference => "PBXFileReference",
            PBXKnownKind::PBXFrameworksBuildPhase => "PBXFrameworksBuildPhase",
            PBXKnownKind::PBXGroup => "PBXGroup",
            PBXKnownKind::PBXHeadersBuildPhase => "PBXHeadersBuildPhase",
            PBXKnownKind::PBXLegacyTarget => "PBXLegacyTarget",
            PBXKnownKind::PBXNativeTarget => "PBXNativeTarget",
            PBXKnownKind::PBXProject => "PBXProject",
            PBXKnownKind::PBXReferenceProxy => "PBXReferenceProxy",
            PBXKnownKind::PBXResourcesBuildPhase => "PBXResourcesBuildPhase",
            PBXKnownKind::PBXRezBuildPhase => "PBXRezBuildPhase",
            PBXKnownKind::PBXShellScriptBuildPhase => "PBXShellScriptBuildPhase",
            PBXKnownKind::PBXSourcesBuildPhase => "PBXSourcesBuildPhase",
            PBXKnownKind::PBXTargetDependency => "PBXTargetDependency",
            PBXKnownKind::PBXVariantGroup => "PBXVariantGroup",
            PBXKnownKind::XCBuildConfiguration => "XCBuildConfiguration",
            PBXKnownKind::XCConfigurationList => "XCConfigurationList",
            PBXKnownKind::XCRemoteSwiftPackageReference => "XCRemoteSwiftPackageReference",
            PBXKnownKind::XCSwiftPackageProductDependency => "XCSwiftPackageProductDependency",
            PBXKnownKind::XCVersionGroup => "XCVersionGroup",
        }
    }

    /// Every known kind, in the order of the declaration.
    pub fn all() -> (r: Vec<PBXKnownKind>)
        ensures
            forall|k: PBXKnownKind| #[trigger] r@.contains(k),
    {
        let r = vec![
            PBXKnownKind::PBXAggregateTarget,
            PBXKnownKind::PBXBuildFile,
            PBXKnownKind::PBXBuildRule,
            PBXKnownKind::PBXContainerItemProxy,
            PBXKnownKind::PBXCopyFilesBuildPhase,
            PBXKnownKind::PBXFileReference,
            PBXKnownKind::PBXFrameworksBuildPhase,
            PBXKnownKind::PBXGroup,
            PBXKnownKind::PBXHeadersBuildPhase,
            PBXKnownKind::PBXLegacyTarget,
            PBXKnownKind::PBXNativeTarget,
            PBXKnownKind::PBXProject,
            PBXKnownKind::PBXReferenceProxy,
            PBXKnownKind::PBXResourcesBuildPhase,
            PBXKnownKind::PBXRezBuildPhase,
            PBXKnownKind::PBXShellScriptBuildPhase,
            PBXKnownKind::PBXSourcesBuildPhase,
            PBXKnownKind::PBXTargetDependency,
            PBXKnownKind::PBXVariantGroup,
            PBXKnownKind::XCBuildConfiguration,
            PBXKnownKind::XCConfigurationList,
            PBXKnownKind::XCRemoteSwiftPackageReference,
            PBXKnownKind::XCSwiftPackageProductDependency,
            PBXKnownKind::XCVersionGroup,
        ];
        proof {
            assert forall|k: PBXKnownKind| #[trigger] r@.contains(k) by {
                let i: int = match k {
                    PBXKnownKind::PBXAggregateTarget => 0,
                    PBXKnownKind::PBXBuildFile => 1,
                    PBXKnownKind::PBXBuildRule => 2,
                    PBXKnownKind::PBXContainerItemProxy => 3,
                    PBXKnownKind::PBXCopyFilesBuildPhase => 4,
                    PBXKnownKind::PBXFileReference => 5,
                    PBXKnownKind::PBXFrameworksBuildPhase => 6,
                    PBXKnownKind::PBXGroup => 7,
                    PBXKnownKind::PBXHeadersBuildPhase => 8,
                    PBXKnownKind::PBXLegacyTarget => 9,
                    PBXKnownKind::PBXNativeTarget => 10,
                    PBXKnownKind::PBXProject => 11,
                    PBXKnownKind::PBXReferenceProxy => 12,
                    PBXKnownKind::PBXResourcesBuildPhase => 13,
                    PBXKnownKind::PBXRezBuildPhase => 14,
                    PBXKnownKind::PBXShellScriptBuildPhase => 15,
                    PBXKnownKind::PBXSourcesBuildPhase => 16,
                    PBXKnownKind::PBXTargetDependency => 17,
                    PBXKnownKind::PBXVariantGroup => 18,
                    PBXKnownKind::XCBuildConfiguration => 19,
                    PBXKnownKind::XCConfigurationList => 20,
                    PBXKnownKind::XCRemoteSwiftPackageReference => 21,
                    PBXKnownKind::XCSwiftPackageProductDependency => 22,
                    PBXKnownKind::XCVersionGroup => 23,
                };
                assert(r@[i] == k);
            }
        }
        r
    }

    /// No two known kinds are written alike.
    pub proof fn lemma_tags_distinct(a: PBXKnownKind, b: PBXKnownKind)
        requires
            a != b,
        ensures
            a.spec_tag() != b.spec_tag(),
    {
        reveal_strlit("PBXAggregateTarget");
        reveal_strlit("PBXBuildFile");
        reveal_strlit("PBXBuildRule");
        reveal_strlit("PBXContainerItemProxy");
        reveal_strlit("PBXCopyFilesBuildPhase");
        reveal_strlit("PBXFileReference");
        reveal_strlit("PBXFrameworksBuildPhase");
        reveal_strlit("PBXGroup");
        reveal_strlit("PBXHeadersBuildPhase");
        reveal_strlit("PBXLegacyTarget");
        reveal_strlit("PBXNativeTarget");
        reveal_strlit("PBXProject");
        reveal_strlit("PBXReferenceProxy");
        reveal_strlit("PBXResourcesBuildPhase");
        reveal_strlit("PBXRezBuildPhase");
        reveal_strlit("PBXShellScriptBuildPhase");
        reveal_strlit("PBXSourcesBuildPhase");
        reveal_strlit("PBXTargetDependency");
        reveal_strlit("PBXVariantGroup");
        reveal_strlit("XCBuildConfiguration");
        reveal_strlit("XCConfigurationList");
        reveal_strlit("XCRemoteSwiftPackageReference");
        reveal_strlit("XCSwiftPackageProductDependency");
        reveal_strlit("XCVersionGroup");
        let s = a.spec_tag();
        let t = b.spec_tag();
        if s.len() == t.len() {
            assert(s[0] != t[0] || s[3] != t[3] || (s.len() > 8 && s[8] != t[8]));
        }
    }

    /// Writing a known kind as its tag and looking the tag up gives the kind back.
    pub proof fn lemma_of_tag_of_spec_tag(k: PBXKnownKind)
        ensures
            Self::of_tag(k.spec_tag()) == Some(k),
    {
        let found = choose|j: PBXKnownKind| #[trigger] j.spec_tag() == k.spec_tag();
        if found != k {
            Self::lemma_tags_distinct(found, k);
        }
    }

    /// Looks `tag` up among the known kinds.
    pub fn from_tag(tag: &str) -> (r: Option<PBXKnownKind>)
        ensures
            r == Self::of_tag(tag@),
    {
        let all = Self::all();
        let mut i: usize = 0;
        while i < all.len()
            invariant
                i <= all@.len(),
                forall|k: PBXKnownKind| #[trigger] all@.contains(k),
                forall|j: int| 0 <= j < i ==> (#[trigger] all@[j]).spec_tag() != tag@,
            decreases all@.len() - i,
        {
            if str_eq(all[i].tag(), tag) {
                proof {
                    let found = choose|k: PBXKnownKind| #[trigger] k.spec_tag() == tag@;
                    if found != all@[i as int] {
                        Self::lemma_tags_distinct(found, all@[i as int]);
                    }
                }
                return Some(all[i]);
            }
            i += 1;
        }
        proof {
            assert forall|k: PBXKnownKind| #[trigger] k.spec_tag() != tag@ by {
                assert(all@.contains(k));
                let j = choose|j: int| 0 <= j < all@.len() && all@[j] == k;
                assert(all@[j].spec_tag() != tag@);
            }
        }
        None
    }
}

/// The type tag of an object record: one of the known kinds, or any other
/// tag, kept as it was written.
#[derive(Clone, Debug, PartialEq, Eq, Hash)]
pub enum PBXObjectKind {
    Known(PBXKnownKind),
    Unknown(String),
}

/// The mathematical content of a `PBXObjectKind`.
pub enum PBXObjectKindView {
    Known(PBXKnownKind),
    Unknown(Seq<char>),
}

impl PBXObjectKindView {
    /// The kind that is written as `tag`: the known kind of that name, or the
    /// unknown kind that carries the tag.
    pub open spec fn of_tag(tag: Seq<char>) -> PBXObjectKindView {
        match PBXKnownKind::of_tag(tag) {
            Some(k) => PBXObjectKindView::Known(k),
            None => PBXObjectKindView::Unknown(tag),
        }
    }

    /// The tag as it is written in a project document.
    pub open spec fn tag(self) -> Seq<char> {
        match self {
            PBXObjectKindView::Known(k) => k.spec_tag(),
            PBXObjectKindView::Unknown(tag) => tag,
        }
    }
}

impl View for PBXObjectKind {
    type V = PBXObjectKindView;

    open spec fn view(&self) -> PBXObjectKindView {
        match self {
            PBXObjectKind::Known(k) => PBXObjectKindView::Known(*k),
            PBXObjectKind::Unknown(tag) => PBXObjectKindView::Unknown(tag@),
        }
    }
}

impl PBXObjectKind {
    /// The tag as it is written in a project document.
    pub fn as_str(&self) -> (r: &str)
        ensures
            r@ == self@.tag(),
    {
        match self {
            PBXObjectKind::Known(k) => k.tag(),
            PBXObjectKind::Unknown(tag) => tag.as_str(),
        }
    }

    /// Whether the tag is none of the known ones.
    pub fn is_unknown(&self) -> (r: bool)
        ensures
            r == (self@ is Unknown),
    {
        match self {
            PBXObjectKind::Known(_) => false,
            PBXObjectKind::Unknown(_) => true,
        }
    }
}

/// What `from` returns is stated on `from` itself, over views: a
/// specification cannot write down a `String` of a given text.
impl vstd::std_specs::convert::FromSpecImpl<&str> for PBXObjectKind {
    open spec fn obeys_from_spec() -> bool {
        false
    }

    open spec fn from_spec(tag: &str) -> PBXObjectKind {
        arbitrary()
    }
}

impl From<&str> for PBXObjectKind {
    /// Reads a tag: never fails, an unrecognized tag gives `Unknown`.
    fn from(tag: &str) -> (r: PBXObjectKind)
        ensures
            r@ == PBXObjectKindView::of_tag(tag@),
    {
        match PBXKnownKind::from_tag(tag) {
            Some(k) => PBXObjectKind::Known(k),
            None => PBXObjectKind::Unknown(tag.to_owned()),
        }
    }
}

/// Reading the tag of a kind gives the kind back, unless the kind is an
/// `Unknown` that carries a known tag.
pub proof fn lemma_kind_of_its_tag(k: PBXObjectKindView)
    requires
        k matches PBXObjectKindView::Unknown(tag) ==> PBXKnownKind::of_tag(tag) is None,
    ensures
        PBXObjectKindView::of_tag(k.tag()) == k,
{
    match k {
        PBXObjectKindView::Known(known) => {
            PBXKnownKind::lemma_of_tag_of_spec_tag(known);
        },
        PBXObjectKindView::Unknown(_) => {},
    }
}

} // verus!
