//! The object graph: every object of a project under its identifier.
//!
//! Objects point at each other by identifier only; to follow a reference is
//! to look the identifier up here, and an identifier that leads nowhere is
//! no error.

use vstd::prelude::*;
use crate::error::{view_of_result, PBXError, PBXErrorView, ValueKind};
use crate::keyed::{
    find_text, is_first, key_index, lemma_key_index_absent, lemma_key_index_found, lemma_with,
    lemma_without, lookup, unique_keys, with, without,
};
use crate::object::{PBXObject, PBXObjectView};
use crate::value::{fields_view, PBXHashMap, PBXValue, PBXValueView};

verus! {

/// The objects of a project, each under its identifier, in the order in
/// which the identifiers came in. No identifier stands twice.
#[derive(Debug, PartialEq, Eq)]
pub struct PBXRootObject {
    ids: Vec<String>,
    objects: Vec<PBXObject>,
}

impl View for PBXRootObject {
    type V = Seq<(Seq<char>, PBXObjectView)>;

    closed spec fn view(&self) -> Seq<(Seq<char>, PBXObjectView)> {
        paired(self.ids@, self.objects@)
    }
}

/// The views of identifiers and objects, pair by pair.
pub open spec fn paired(ids: Seq<String>, objects: Seq<PBXObject>) -> Seq<
    (Seq<char>, PBXObjectView),
> {
    Seq::new(ids.len(), |i: int| (ids[i]@, objects[i]@))
}

/// The graph that the first `k` entries of a record of records describe:
/// each entry gives the identifier and the record of one object. An entry
/// that is no record, or a record that describes no object, fails the whole.
pub open spec fn graph_of(entries: Seq<(Seq<char>, PBXValueView)>, k: nat) -> Result<
    Seq<(Seq<char>, PBXObjectView)>,
    PBXErrorView,
>
    decreases k,
{
    if k == 0 || k > entries.len() {
        Ok(Seq::empty())
    } else {
        match graph_of(entries, (k - 1) as nat) {
            Ok(graph) => match entries[k - 1].1 {
                PBXValueView::Object(m) => match PBXObjectView::of_record(m) {
                    Ok(object) => Ok(with(graph, entries[k - 1].0, object)),
                    Err(e) => Err(e),
                },
                other => Err(
                    PBXErrorView::TypeMismatch {
                        key: entries[k - 1].0,
                        expected_kind: ValueKind::Object,
                        actual_kind: other.kind(),
                    },
                ),
            },
            Err(e) => Err(e),
        }
    }
}

/// A record of records that describes no graph fails with the name of the
/// field that is missing or of another shape.
pub proof fn lemma_graph_error_names_a_field(entries: Seq<(Seq<char>, PBXValueView)>, k: nat)
    ensures
        graph_of(entries, k) matches Err(e) ==> e.names_a_field(),
    decreases k,
{
    if 0 < k <= entries.len() {
        lemma_graph_error_names_a_field(entries, (k - 1) as nat);
        match entries[k - 1].1 {
            PBXValueView::Object(m) => {
                crate::object::lemma_object_error_names_a_field(m);
            },
            _ => {},
        }
    }
}

/// An entry that fails among the first `k` makes the whole graph fail alike.
pub proof fn lemma_graph_of_error(entries: Seq<(Seq<char>, PBXValueView)>, k: nat, n: nat)
    requires
        k <= n <= entries.len(),
        graph_of(entries, k) is Err,
    ensures
        graph_of(entries, n) == graph_of(entries, k),
    decreases n,
{
    if k < n {
        lemma_graph_of_error(entries, k, (n - 1) as nat);
    }
}

impl PBXRootObject {
    /// Every identifier has its object, and no identifier stands twice.
    #[verifier::type_invariant]
    pub closed spec fn inv(self) -> bool {
        &&& self.ids@.len() == self.objects@.len()
        &&& forall|i: int, j: int|
            0 <= i < j < self.ids@.len() ==> (#[trigger] self.ids@[i])@ != (
            #[trigger] self.ids@[j])@
    }

    /// In a graph that meets its invariant no identifier stands twice.
    pub proof fn lemma_inv(&self)
        requires
            self.inv(),
        ensures
            unique_keys(self@),
    {
        assert forall|i: int, j: int| 0 <= i < j < self@.len() implies (#[trigger] self@[i]).0 != (
        #[trigger] self@[j]).0 by {
            assert(self.ids@[i]@ != self.ids@[j]@);
        }
    }

    /// An empty graph.
    pub fn new() -> (r: PBXRootObject)
        ensures
            r@ == Seq::<(Seq<char>, PBXObjectView)>::empty(),
    {
        let r = PBXRootObject { ids: Vec::new(), objects: Vec::new() };
        proof {
            assert(r@ =~= Seq::<(Seq<char>, PBXObjectView)>::empty());
        }
        r
    }

    /// The number of objects.
    pub fn len(&self) -> (r: usize)
        ensures
            r == self@.len(),
    {
        self.ids.len()
    }

    /// Whether the graph holds no object.
    pub fn is_empty(&self) -> (r: bool)
        ensures
            r == (self@.len() == 0),
    {
        self.ids.len() == 0
    }

    fn position(&self, id: &str) -> (r: Option<usize>)
        ensures
            match r {
                Some(i) => key_index(self@, id@) == Some(i as int) && i < self.ids@.len(),
                None => key_index(self@, id@) is None,
            },
    {
        let r = find_text(&self.ids, id);
        proof {
            match r {
                Some(i) => {
                    assert(is_first(self@, id@, i as int)) by {
                        assert forall|j: int| 0 <= j < i implies (#[trigger] self@[j]).0 != id@ by {
                            assert(self.ids@[j]@ != id@);
                        }
                    }
                    lemma_key_index_found(self@, id@, i as int);
                },
                None => {
                    assert forall|j: int| 0 <= j < self@.len() implies (#[trigger] self@[j]).0
                        != id@ by {
                        assert(self.ids@[j]@ != id@);
                    }
                    lemma_key_index_absent(self@, id@);
                },
            }
        }
        r
    }

    /// Whether an object stands under `id`.
    pub fn contains_key(&self, id: &str) -> (r: bool)
        ensures
            r == (lookup(self@, id@) is Some),
    {
        self.position(id).is_some()
    }

    /// The object under `id`. An identifier that the graph does not hold
    /// leads to nothing.
    pub fn get(&self, id: &str) -> (r: Option<&PBXObject>)
        ensures
            match r {
                Some(object) => lookup(self@, id@) == Some(object@),
                None => lookup(self@, id@) is None,
            },
    {
        proof {
            use_type_invariant(self);
        }
        match self.position(id) {
            Some(i) => Some(&self.objects[i]),
            None => None,
        }
    }

    /// The object under `id`, to be changed in place.
    pub fn get_mut(&mut self, id: &str) -> (r: Option<&mut PBXObject>)
        ensures
            match r {
                Some(object) => lookup(old(self)@, id@) == Some((*object)@) && final(self)@ == with(
                    old(self)@,
                    id@,
                    (*final(object))@,
                ),
                None => lookup(old(self)@, id@) is None && final(self)@ == old(self)@,
            },
    {
        proof {
            use_type_invariant(&*self);
        }
        match self.position(id) {
            Some(i) => {
                let object = &mut self.objects[i];
                proof {
                    assert(paired(old(self).ids@, old(self).objects@.update(i as int, *final(object)))
                        =~= old(self)@.update(i as int, (id@, (*final(object))@)));
                }
                Some(object)
            },
            None => None,
        }
    }

    /// The identifier and the object at the place `index`, counted in the
    /// order in which the identifiers came in.
    pub fn at(&self, index: usize) -> (r: Option<(&String, &PBXObject)>)
        ensures
            match r {
                Some((id, object)) => index < self@.len() && self@[index as int] == (id@, object@),
                None => index >= self@.len(),
            },
    {
        proof {
            use_type_invariant(self);
        }
        if index < self.ids.len() {
            Some((&self.ids[index], &self.objects[index]))
        } else {
            None
        }
    }

    /// Puts `object` under `id` and hands back the object that stood there.
    /// An identifier that the graph holds already keeps its place.
    pub fn insert(&mut self, id: String, object: PBXObject) -> (r: Option<PBXObject>)
        ensures
            final(self)@ == with(old(self)@, id@, object@),
            unique_keys(final(self)@),
            match r {
                Some(previous) => lookup(old(self)@, id@) == Some(previous@),
                None => lookup(old(self)@, id@) is None,
            },
    {
        proof {
            use_type_invariant(&*self);
            self.lemma_inv();
            lemma_with(self@, id@, object@, id@);
        }
        let found = self.position(id.as_str());
        let mut taken = PBXRootObject::new();
        core::mem::swap(self, &mut taken);
        let PBXRootObject { ids, objects } = taken;
        let mut ids = ids;
        let mut objects = objects;
        let ghost old_ids = ids@;
        let ghost old_objects = objects@;
        let r = match found {
            Some(i) => {
                let previous = objects.remove(i);
                objects.insert(i, object);
                proof {
                    assert(objects@ =~= old_objects.update(i as int, object));
                    assert(paired(ids@, objects@) =~= paired(old_ids, old_objects).update(
                        i as int,
                        (id@, object@),
                    ));
                }
                Some(previous)
            },
            None => {
                ids.push(id);
                objects.push(object);
                proof {
                    assert(paired(ids@, objects@) =~= paired(old_ids, old_objects).push(
                        (id@, object@),
                    ));
                }
                None
            },
        };
        proof {
            assert forall|a: int, b: int| 0 <= a < b < ids@.len() implies (#[trigger] ids@[a])@ != (
            #[trigger] ids@[b])@ by {
                let m = paired(ids@, objects@);
                assert(m[a].0 != m[b].0);
            }
        }
        *self = PBXRootObject { ids, objects };
        r
    }

    /// Takes the object under `id` out of the graph.
    pub fn remove(&mut self, id: &str) -> (r: Option<PBXObject>)
        ensures
            final(self)@ == without(old(self)@, id@),
            unique_keys(final(self)@),
            match r {
                Some(object) => lookup(old(self)@, id@) == Some(object@),
                None => lookup(old(self)@, id@) is None,
            },
    {
        proof {
            use_type_invariant(&*self);
            self.lemma_inv();
            lemma_without(self@, id@, id@);
        }
        match self.position(id) {
            Some(i) => {
                let mut taken = PBXRootObject::new();
                core::mem::swap(self, &mut taken);
                let PBXRootObject { ids, objects } = taken;
                let mut ids = ids;
                let mut objects = objects;
                let ghost old_ids = ids@;
                let ghost old_objects = objects@;
                ids.remove(i);
                let object = objects.remove(i);
                proof {
                    assert(paired(ids@, objects@) =~= paired(old_ids, old_objects).remove(i as int));
                    assert forall|a: int, b: int| 0 <= a < b < ids@.len() implies (
                    #[trigger] ids@[a])@ != (#[trigger] ids@[b])@ by {
                        let m = paired(ids@, objects@);
                        assert(m[a].0 != m[b].0);
                    }
                }
                *self = PBXRootObject { ids, objects };
                Some(object)
            },
            None => None,
        }
    }

    /// Makes the graph that a record of records describes: each field gives
    /// the identifier and the record of one object.
    pub fn from_hashmap(objects: PBXHashMap) -> (r: Result<PBXRootObject, PBXError>)
        ensures
            view_of_result(r) == graph_of(objects@, objects@.len()),
    {
        let ghost all = objects@;
        let entries = objects.into_entries();
        let mut graph = PBXRootObject::new();
        let ghost mut k: nat = 0;
        for entry in it: entries
            invariant
                it.seq() == entries@,
                fields_view(entries@) == all,
                all == objects@,
                k == it.index(),
                graph_of(all, k) == Ok::<Seq<(Seq<char>, PBXObjectView)>, PBXErrorView>(graph@),
        {
            let (id, value) = entry;
            let ghost value_view = value@;
            proof {
                assert(k < all.len());
                assert(all[k as int] == (id@, value@));
                assert(graph_of(all, k + 1) == match graph_of(all, k) {
                    Ok(graph) => match all[k as int].1 {
                        PBXValueView::Object(m) => match PBXObjectView::of_record(m) {
                            Ok(object) => Ok(with(graph, all[k as int].0, object)),
                            Err(e) => Err(e),
                        },
                        other => Err(
                            PBXErrorView::TypeMismatch {
                                key: all[k as int].0,
                                expected_kind: ValueKind::Object,
                                actual_kind: other.kind(),
                            },
                        ),
                    },
                    Err(e) => Err(e),
                });
            }
            match value {
                PBXValue::Object(fields) => match PBXObject::from_hashmap(fields) {
                    Ok(object) => {
                        graph.insert(id, object);
                    },
                    Err(e) => {
                        proof {
                            lemma_graph_of_error(all, k + 1, all.len());
                        }
                        return Err(e);
                    },
                },
                other => {
                    let actual_kind = other.kind();
                    proof {
                        lemma_graph_of_error(all, k + 1, all.len());
                    }
                    return Err(
                        PBXError::TypeMismatch {
                            key: id,
                            expected_kind: ValueKind::Object,
                            actual_kind,
                        },
                    );
                },
            }
            proof {
                k = k + 1;
            }
        }
        Ok(graph)
    }
}

} // verus!
