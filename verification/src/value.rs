//! Generic values, as the format writes them, and the record: a map from
//! keys to values whose typed accessors take a field out as they read it.

use vstd::prelude::*;
use crate::error::{PBXError, PBXErrorView, ValueKind};
use crate::keyed::{
    find_key, is_first, key_index, lemma_key_index_absent, lemma_key_index_found, lemma_with,
    lemma_without, lookup, unique_keys, with, without,
};
use crate::kind::{PBXObjectKind, PBXObjectKindView};

verus! {

/// A value of the format.
///
/// A number written with a decimal point is a `String`: such a token is a
/// version, not a quantity.
#[derive(Debug, PartialEq, Eq)]
pub enum PBXValue {
    String(String),
    Object(PBXHashMap),
    Array(Vec<PBXValue>),
    Number(i64),
    Bool(bool),
    Kind(PBXObjectKind),
}

/// A record: fields in the order in which their keys first came in, no key twice.
#[derive(Debug, PartialEq, Eq)]
pub struct PBXHashMap {
    entries: Vec<(String, PBXValue)>,
}

/// The mathematical content of a `PBXValue`.
pub enum PBXValueView {
    String(Seq<char>),
    Object(Seq<(Seq<char>, PBXValueView)>),
    Array(Seq<PBXValueView>),
    Number(int),
    Bool(bool),
    Kind(PBXObjectKindView),
}

impl PBXValueView {
    /// The shape of the value.
    pub open spec fn kind(self) -> ValueKind {
        match self {
            PBXValueView::String(_) => ValueKind::String,
            PBXValueView::Object(_) => ValueKind::Object,
            PBXValueView::Array(_) => ValueKind::Array,
            PBXValueView::Number(_) => ValueKind::Number,
            PBXValueView::Bool(_) => ValueKind::Bool,
            PBXValueView::Kind(_) => ValueKind::Kind,
        }
    }
}

/// The views of the first `k` of `items`.
pub open spec fn items_view(items: &Vec<PBXValue>, k: nat) -> Seq<PBXValueView>
    decreases items, k,
{
    if k == 0 || k > items@.len() {
        Seq::empty()
    } else {
        items_view(items, (k - 1) as nat).push(items@[k - 1].view())
    }
}

impl View for PBXValue {
    type V = PBXValueView;

    open spec fn view(&self) -> PBXValueView
        decreases self,
    {
        match self {
            PBXValue::String(s) => PBXValueView::String(s@),
            PBXValue::Object(fields) => PBXValueView::Object(fields.view()),
            PBXValue::Array(items) => PBXValueView::Array(items_view(items, items@.len())),
            PBXValue::Number(n) => PBXValueView::Number(*n as int),
            PBXValue::Bool(b) => PBXValueView::Bool(*b),
            PBXValue::Kind(k) => PBXValueView::Kind(k@),
        }
    }
}

/// The views of a sequence of values.
pub open spec fn values_view(values: Seq<PBXValue>) -> Seq<PBXValueView> {
    Seq::new(values.len(), |i: int| values[i]@)
}

/// The views of a sequence of fields.
pub open spec fn fields_view(fields: Seq<(String, PBXValue)>) -> Seq<(Seq<char>, PBXValueView)> {
    Seq::new(fields.len(), |i: int| (fields[i].0@, fields[i].1@))
}

/// The views of the items of an array are the items of its view.
pub proof fn lemma_items_view(items: &Vec<PBXValue>, k: nat)
    requires
        k <= items@.len(),
    ensures
        items_view(items, k) == values_view(items@.take(k as int)),
    decreases k,
{
    if k > 0 {
        lemma_items_view(items, (k - 1) as nat);
        assert(items_view(items, k) == items_view(items, (k - 1) as nat).push(
            items@[k - 1].view(),
        ));
        assert(items_view(items, k) =~= values_view(items@.take(k as int)));
    } else {
        assert(items_view(items, 0) == Seq::<PBXValueView>::empty());
        assert(items_view(items, k) =~= values_view(items@.take(k as int)));
    }
}

/// The view of an array is the views of its items.
pub proof fn lemma_array_view(items: &Vec<PBXValue>)
    ensures
        items_view(items, items@.len()) == values_view(items@),
{
    lemma_items_view(items, items@.len());
    assert(items@.take(items@.len() as int) =~= items@);
}

impl View for PBXHashMap {
    type V = Seq<(Seq<char>, PBXValueView)>;

    /// The fields, each as its key and the view of its value.
    closed spec fn view(&self) -> Seq<(Seq<char>, PBXValueView)>
        decreases self, 1nat, 0nat,
    {
        self.fields_upto(self.entries@.len())
    }
}

impl Default for PBXHashMap {
    /// An empty record.
    fn default() -> (r: PBXHashMap)
        ensures
            r@ == Seq::<(Seq<char>, PBXValueView)>::empty(),
    {
        PBXHashMap::new()
    }
}

impl vstd::std_specs::core::IndexSpecImpl<&str> for PBXHashMap {
    open spec fn index_req(&self, index: &&str) -> bool {
        lookup(self@, (*index)@) is Some
    }
}

impl core::ops::Index<&str> for PBXHashMap {
    type Output = PBXValue;

    /// The value of the field `key`, which the record must hold.
    fn index(&self, key: &str) -> (r: &PBXValue)
        ensures
            lookup(self@, key@) == Some(r@),
    {
        match self.get(key) {
            Some(value) => value,
            None => vstd::pervasive::unreached(),
        }
    }
}

/// The error that asking a record for a field of the shape `expected` under
/// `key` ends in, if it does: the field is missing, or holds another shape.
pub open spec fn field_error(
    m: Seq<(Seq<char>, PBXValueView)>,
    key: Seq<char>,
    expected: ValueKind,
) -> Option<PBXErrorView> {
    match lookup(m, key) {
        None => Some(PBXErrorView::MissingField { key }),
        Some(value) => if value.kind() == expected {
            None
        } else {
            Some(
                PBXErrorView::TypeMismatch {
                    key,
                    expected_kind: expected,
                    actual_kind: value.kind(),
                },
            )
        },
    }
}

/// The string that the field `key` must hold.
pub open spec fn required_string(m: Seq<(Seq<char>, PBXValueView)>, key: Seq<char>) -> Result<
    Seq<char>,
    PBXErrorView,
> {
    match lookup(m, key) {
        Some(PBXValueView::String(text)) => Ok(text),
        _ => Err(field_error(m, key, ValueKind::String)->0),
    }
}

/// The number that the field `key` must hold.
pub open spec fn required_number(m: Seq<(Seq<char>, PBXValueView)>, key: Seq<char>) -> Result<
    int,
    PBXErrorView,
> {
    match lookup(m, key) {
        Some(PBXValueView::Number(n)) => Ok(n),
        _ => Err(field_error(m, key, ValueKind::Number)->0),
    }
}

/// The record that the field `key` must hold.
pub open spec fn required_object(m: Seq<(Seq<char>, PBXValueView)>, key: Seq<char>) -> Result<
    Seq<(Seq<char>, PBXValueView)>,
    PBXErrorView,
> {
    match lookup(m, key) {
        Some(PBXValueView::Object(fields)) => Ok(fields),
        _ => Err(field_error(m, key, ValueKind::Object)->0),
    }
}

/// The items that the field `key` must hold.
pub open spec fn required_array(m: Seq<(Seq<char>, PBXValueView)>, key: Seq<char>) -> Result<
    Seq<PBXValueView>,
    PBXErrorView,
> {
    match lookup(m, key) {
        Some(PBXValueView::Array(items)) => Ok(items),
        _ => Err(field_error(m, key, ValueKind::Array)->0),
    }
}

/// The string that the field `key` holds, if it is there and holds one.
pub open spec fn optional_string(m: Seq<(Seq<char>, PBXValueView)>, key: Seq<char>) -> Option<
    Seq<char>,
> {
    match lookup(m, key) {
        Some(PBXValueView::String(text)) => Some(text),
        _ => None,
    }
}

/// The texts of `values`, if every one of them is a string; else the error
/// that names `key` and the shape of the first value that is none.
pub open spec fn strings_of(values: Seq<PBXValueView>, key: Seq<char>) -> Result<
    Seq<Seq<char>>,
    PBXErrorView,
>
    decreases values.len(),
{
    if values.len() == 0 {
        Ok(Seq::empty())
    } else {
        match strings_of(values.drop_last(), key) {
            Ok(texts) => match values.last() {
                PBXValueView::String(text) => Ok(texts.push(text)),
                other => Err(
                    PBXErrorView::TypeMismatch {
                        key,
                        expected_kind: ValueKind::String,
                        actual_kind: other.kind(),
                    },
                ),
            },
            Err(e) => Err(e),
        }
    }
}

/// The views of a sequence of strings.
pub open spec fn texts_view(texts: Seq<String>) -> Seq<Seq<char>> {
    Seq::new(texts.len(), |i: int| texts[i]@)
}

impl PBXValue {
    /// The shape of the value.
    pub fn kind(&self) -> (r: ValueKind)
        ensures
            r == self@.kind(),
    {
        match self {
            PBXValue::String(_) => ValueKind::String,
            PBXValue::Object(_) => ValueKind::Object,
            PBXValue::Array(_) => ValueKind::Array,
            PBXValue::Number(_) => ValueKind::Number,
            PBXValue::Bool(_) => ValueKind::Bool,
            PBXValue::Kind(_) => ValueKind::Kind,
        }
    }

    /// The record that an object value holds; any other value comes back as it is.
    pub fn try_into_object(self) -> (r: Result<PBXHashMap, PBXValue>)
        ensures
            match r {
                Ok(fields) => self@ == PBXValueView::Object(fields@),
                Err(value) => !(self@ is Object) && value@ == self@,
            },
    {
        match self {
            PBXValue::Object(fields) => Ok(fields),
            other => Err(other),
        }
    }

    /// The text that a string value holds; any other value comes back as it is.
    pub fn try_into_string(self) -> (r: Result<String, PBXValue>)
        ensures
            match r {
                Ok(text) => self@ == PBXValueView::String(text@),
                Err(value) => !(self@ is String) && value@ == self@,
            },
    {
        match self {
            PBXValue::String(text) => Ok(text),
            other => Err(other),
        }
    }

    /// The items that an array value holds; any other value comes back as it is.
    pub fn try_into_array(self) -> (r: Result<Vec<PBXValue>, PBXValue>)
        ensures
            match r {
                Ok(items) => self@ == PBXValueView::Array(values_view(items@)),
                Err(value) => !(self@ is Array) && value@ == self@,
            },
    {
        match self {
            PBXValue::Array(items) => {
                proof {
                    lemma_array_view(&items);
                }
                Ok(items)
            },
            other => Err(other),
        }
    }

    /// The texts of `values`, which were found under `key`: every one of them
    /// has to be a string.
    pub fn try_into_vec_strings(values: Vec<PBXValue>, key: &str) -> (r: Result<
        Vec<String>,
        PBXError,
    >)
        ensures
            match r {
                Ok(texts) => strings_of(values_view(values@), key@) == Ok::<
                    Seq<Seq<char>>,
                    PBXErrorView,
                >(texts_view(texts@)),
                Err(e) => strings_of(values_view(values@), key@) == Err::<
                    Seq<Seq<char>>,
                    PBXErrorView,
                >(e@),
            },
    {
        let ghost all = values_view(values@);
        let mut texts: Vec<String> = Vec::new();
        let mut i: usize = 0;
        proof {
            assert(all.take(0) =~= Seq::<PBXValueView>::empty());
            assert(texts_view(texts@) =~= Seq::<Seq<char>>::empty());
        }
        while i < values.len()
            invariant
                i <= values@.len(),
                all == values_view(values@),
                strings_of(all.take(i as int), key@) == Ok::<Seq<Seq<char>>, PBXErrorView>(
                    texts_view(texts@),
                ),
            decreases values@.len() - i,
        {
            proof {
                assert(all.take(i + 1).drop_last() =~= all.take(i as int));
                assert(all.take(i + 1).last() == values@[i as int]@);
            }
            match &values[i] {
                PBXValue::String(text) => {
                    let ghost before = texts@;
                    texts.push(text.clone());
                    proof {
                        assert(texts_view(texts@) =~= texts_view(before).push(text@));
                    }
                },
                other => {
                    let actual_kind = other.kind();
                    proof {
                        lemma_strings_of_error(all, key@, i + 1);
                    }
                    return Err(
                        PBXError::TypeMismatch {
                            key: key.to_owned(),
                            expected_kind: ValueKind::String,
                            actual_kind,
                        },
                    );
                },
            }
            i += 1;
        }
        proof {
            assert(all.take(values@.len() as int) =~= all);
        }
        Ok(texts)
    }
}

/// A list of values that are not all strings fails with the name of the
/// field that it was found under.
pub proof fn lemma_strings_of_names_the_field(values: Seq<PBXValueView>, key: Seq<char>)
    ensures
        strings_of(values, key) matches Err(e) ==> e.names_a_field(),
    decreases values.len(),
{
    if values.len() > 0 {
        lemma_strings_of_names_the_field(values.drop_last(), key);
    }
}

/// A value that is no string among the first `k` spoils the whole list.
pub proof fn lemma_strings_of_error(values: Seq<PBXValueView>, key: Seq<char>, k: int)
    requires
        0 <= k <= values.len(),
        strings_of(values.take(k), key) is Err,
    ensures
        strings_of(values, key) == strings_of(values.take(k), key),
    decreases values.len(),
{
    if k == values.len() {
        assert(values.take(k) =~= values);
    } else {
        assert(values.drop_last().take(k) =~= values.take(k));
        lemma_strings_of_error(values.drop_last(), key, k);
    }
}

impl PBXHashMap {
    /// No key stands in the record twice.
    #[verifier::type_invariant]
    pub closed spec fn inv(self) -> bool {
        forall|i: int, j: int|
            0 <= i < j < self.entries@.len() ==> (#[trigger] self.entries@[i]).0@ != (
            #[trigger] self.entries@[j]).0@
    }

    /// The views of the first `k` fields.
    pub closed spec fn fields_upto(&self, k: nat) -> Seq<(Seq<char>, PBXValueView)>
        decreases self, 0nat, k,
    {
        if k == 0 || k > self.entries@.len() {
            Seq::empty()
        } else {
            self.fields_upto((k - 1) as nat).push(
                (self.entries@[k - 1].0@, self.entries@[k - 1].1.view()),
            )
        }
    }

    proof fn lemma_fields_upto(&self, k: nat)
        requires
            k <= self.entries@.len(),
        ensures
            self.fields_upto(k) == fields_view(self.entries@.take(k as int)),
        decreases k,
    {
        if k > 0 {
            self.lemma_fields_upto((k - 1) as nat);
            assert(self.fields_upto(k) == self.fields_upto((k - 1) as nat).push(
                (self.entries@[k - 1].0@, self.entries@[k - 1].1.view()),
            ));
            assert(self.fields_upto(k) =~= fields_view(self.entries@.take(k as int)));
        } else {
            assert(self.fields_upto(0) == Seq::<(Seq<char>, PBXValueView)>::empty());
            assert(self.fields_upto(k) =~= fields_view(self.entries@.take(k as int)));
        }
    }

    proof fn lemma_view(&self)
        ensures
            self@ == fields_view(self.entries@),
            self.inv() ==> unique_keys(self@),
    {
        self.lemma_fields_upto(self.entries@.len());
        assert(self.entries@.take(self.entries@.len() as int) =~= self.entries@);
        assert(self@ == self.fields_upto(self.entries@.len()));
        if self.inv() {
            assert forall|i: int, j: int| 0 <= i < j < self@.len() implies (#[trigger] self@[i]).0
                != (#[trigger] self@[j]).0 by {
                assert(self.entries@[i].0@ != self.entries@[j].0@);
            }
        }
    }

    /// In a record that meets its invariant no key stands twice.
    pub proof fn lemma_inv(&self)
        requires
            self.inv(),
        ensures
            unique_keys(self@),
    {
        self.lemma_view();
    }

    /// An empty record.
    pub fn new() -> (r: PBXHashMap)
        ensures
            r@ == Seq::<(Seq<char>, PBXValueView)>::empty(),
    {
        let r = PBXHashMap { entries: Vec::new() };
        proof {
            r.lemma_view();
            assert(fields_view(r.entries@) =~= Seq::<(Seq<char>, PBXValueView)>::empty());
        }
        r
    }

    /// The fields, in their order.
    pub fn into_entries(self) -> (r: Vec<(String, PBXValue)>)
        ensures
            fields_view(r@) == self@,
            unique_keys(self@),
    {
        proof {
            use_type_invariant(&self);
            self.lemma_view();
        }
        self.entries
    }

    /// The number of fields.
    pub fn len(&self) -> (r: usize)
        ensures
            r == self@.len(),
    {
        proof {
            self.lemma_view();
        }
        self.entries.len()
    }

    /// Whether the record has no field.
    pub fn is_empty(&self) -> (r: bool)
        ensures
            r == (self@.len() == 0),
    {
        proof {
            self.lemma_view();
        }
        self.entries.len() == 0
    }

    /// The place of `key` among the fields.
    fn position(&self, key: &str) -> (r: Option<usize>)
        ensures
            match r {
                Some(i) => key_index(self@, key@) == Some(i as int) && i < self.entries@.len(),
                None => key_index(self@, key@) is None,
            },
    {
        proof {
            self.lemma_view();
        }
        let r = find_key(&self.entries, key);
        proof {
            match r {
                Some(i) => {
                    assert(is_first(self@, key@, i as int)) by {
                        assert forall|j: int| 0 <= j < i implies (#[trigger] self@[j]).0 != key@ by {
                            assert(self.entries@[j].0@ != key@);
                        }
                    }
                    lemma_key_index_found(self@, key@, i as int);
                },
                None => {
                    assert forall|j: int| 0 <= j < self@.len() implies (#[trigger] self@[j]).0
                        != key@ by {
                        assert(self.entries@[j].0@ != key@);
                    }
                    lemma_key_index_absent(self@, key@);
                },
            }
        }
        r
    }

    /// Whether the record has a field `key`.
    pub fn contains_key(&self, key: &str) -> (r: bool)
        ensures
            r == (lookup(self@, key@) is Some),
    {
        self.position(key).is_some()
    }

    /// The value of the field `key`.
    pub fn get(&self, key: &str) -> (r: Option<&PBXValue>)
        ensures
            match r {
                Some(value) => lookup(self@, key@) == Some(value@),
                None => lookup(self@, key@) is None,
            },
    {
        proof {
            self.lemma_view();
        }
        match self.position(key) {
            Some(i) => Some(&self.entries[i].1),
            None => None,
        }
    }

    /// The string that the field `key` holds, if it is there and holds one.
    pub fn get_string(&self, key: &str) -> (r: Option<&String>)
        ensures
            match r {
                Some(text) => optional_string(self@, key@) == Some(text@),
                None => optional_string(self@, key@) is None,
            },
    {
        match self.get(key) {
            Some(PBXValue::String(text)) => Some(text),
            _ => None,
        }
    }

    /// Puts `value` under `key` and hands back the value that stood there. A
    /// key that the record holds already keeps its place.
    pub fn insert(&mut self, key: String, value: PBXValue) -> (r: Option<PBXValue>)
        ensures
            final(self)@ == with(old(self)@, key@, value@),
            unique_keys(final(self)@),
            match r {
                Some(previous) => lookup(old(self)@, key@) == Some(previous@),
                None => lookup(old(self)@, key@) is None,
            },
    {
        proof {
            use_type_invariant(&*self);
            self.lemma_view();
            lemma_with(self@, key@, value@, key@);
        }
        let found = self.position(key.as_str());
        let ghost before = self.entries@;
        let mut entries: Vec<(String, PBXValue)> = Vec::new();
        core::mem::swap(&mut self.entries, &mut entries);
        let r = match found {
            Some(i) => {
                let (_, previous) = entries.remove(i);
                entries.insert(i, (key, value));
                proof {
                    assert(entries@ =~= before.update(i as int, (key, value)));
                    assert(fields_view(entries@) =~= fields_view(before).update(
                        i as int,
                        (key@, value@),
                    ));
                }
                Some(previous)
            },
            None => {
                entries.push((key, value));
                proof {
                    assert(fields_view(entries@) =~= fields_view(before).push((key@, value@)));
                }
                None
            },
        };
        proof {
            assert forall|a: int, b: int| 0 <= a < b < entries@.len() implies (
            #[trigger] entries@[a]).0@ != (#[trigger] entries@[b]).0@ by {
                let m = fields_view(entries@);
                assert(m[a].0 != m[b].0);
            }
        }
        core::mem::swap(&mut self.entries, &mut entries);
        proof {
            self.lemma_view();
        }
        r
    }

    /// Takes the field `key` out of the record, whatever it holds.
    pub fn remove_value(&mut self, key: &str) -> (r: Option<PBXValue>)
        ensures
            final(self)@ == without(old(self)@, key@),
            unique_keys(final(self)@),
            forall|other: Seq<char>|
                other != key@ ==> #[trigger] lookup(final(self)@, other) == lookup(
                    old(self)@,
                    other,
                ),
            match r {
                Some(value) => lookup(old(self)@, key@) == Some(value@),
                None => lookup(old(self)@, key@) is None,
            },
    {
        proof {
            use_type_invariant(&*self);
            self.lemma_view();
            lemma_without(self@, key@, key@);
            assert forall|other: Seq<char>| other != key@ implies #[trigger] lookup(
                without(self@, key@),
                other,
            ) == lookup(self@, other) by {
                lemma_without(self@, key@, other);
            }
        }
        match self.position(key) {
            Some(i) => {
                let ghost before = self.entries@;
                let mut entries: Vec<(String, PBXValue)> = Vec::new();
                core::mem::swap(&mut self.entries, &mut entries);
                let (_, value) = entries.remove(i);
                proof {
                    assert(fields_view(entries@) =~= fields_view(before).remove(i as int));
                    assert forall|a: int, b: int| 0 <= a < b < entries@.len() implies (
                    #[trigger] entries@[a]).0@ != (#[trigger] entries@[b]).0@ by {
                        let m = fields_view(entries@);
                        assert(m[a].0 != m[b].0);
                    }
                }
                core::mem::swap(&mut self.entries, &mut entries);
                proof {
                    self.lemma_view();
                }
                Some(value)
            },
            None => None,
        }
    }

    /// Takes the field `key` out if it holds a string.
    pub fn remove_string(&mut self, key: &str) -> (r: Option<String>)
        ensures
            unique_keys(final(self)@),
            forall|other: Seq<char>|
                other != key@ ==> #[trigger] lookup(final(self)@, other) == lookup(
                    old(self)@,
                    other,
                ),
            match r {
                Some(text) => lookup(old(self)@, key@) == Some(PBXValueView::String(text@))
                    && final(self)@ == without(old(self)@, key@),
                None => !(lookup(old(self)@, key@) matches Some(PBXValueView::String(_)))
                    && final(self)@ == old(self)@,
            },
    {
        proof {
            use_type_invariant(&*self);
            self.lemma_view();
        }
        let fits = match self.get(key) {
            Some(PBXValue::String(_)) => true,
            _ => false,
        };
        if !fits {
            return None;
        }
        match self.remove_value(key) {
            Some(PBXValue::String(text)) => Some(text),
            _ => None,
        }
    }

    /// Takes the field `key` out if it holds a number.
    pub fn remove_number(&mut self, key: &str) -> (r: Option<i64>)
        ensures
            unique_keys(final(self)@),
            forall|other: Seq<char>|
                other != key@ ==> #[trigger] lookup(final(self)@, other) == lookup(
                    old(self)@,
                    other,
                ),
            match r {
                Some(n) => lookup(old(self)@, key@) == Some(PBXValueView::Number(n as int))
                    && final(self)@ == without(old(self)@, key@),
                None => !(lookup(old(self)@, key@) matches Some(PBXValueView::Number(_)))
                    && final(self)@ == old(self)@,
            },
    {
        proof {
            use_type_invariant(&*self);
            self.lemma_view();
        }
        let fits = match self.get(key) {
            Some(PBXValue::Number(_)) => true,
            _ => false,
        };
        if !fits {
            return None;
        }
        match self.remove_value(key) {
            Some(PBXValue::Number(n)) => Some(n),
            _ => None,
        }
    }

    /// Takes the field `key` out if it holds an object.
    pub fn remove_object(&mut self, key: &str) -> (r: Option<PBXHashMap>)
        ensures
            unique_keys(final(self)@),
            forall|other: Seq<char>|
                other != key@ ==> #[trigger] lookup(final(self)@, other) == lookup(
                    old(self)@,
                    other,
                ),
            match r {
                Some(fields) => lookup(old(self)@, key@) == Some(PBXValueView::Object(fields@))
                    && final(self)@ == without(old(self)@, key@),
                None => !(lookup(old(self)@, key@) matches Some(PBXValueView::Object(_)))
                    && final(self)@ == old(self)@,
            },
    {
        proof {
            use_type_invariant(&*self);
            self.lemma_view();
        }
        let fits = match self.get(key) {
            Some(PBXValue::Object(_)) => true,
            _ => false,
        };
        if !fits {
            return None;
        }
        match self.remove_value(key) {
            Some(PBXValue::Object(fields)) => Some(fields),
            _ => None,
        }
    }

    /// Takes the field `key` out if it holds an array.
    pub fn remove_vec(&mut self, key: &str) -> (r: Option<Vec<PBXValue>>)
        ensures
            unique_keys(final(self)@),
            forall|other: Seq<char>|
                other != key@ ==> #[trigger] lookup(final(self)@, other) == lookup(
                    old(self)@,
                    other,
                ),
            match r {
                Some(items) => lookup(old(self)@, key@) == Some(
                    PBXValueView::Array(values_view(items@)),
                ) && final(self)@ == without(old(self)@, key@),
                None => !(lookup(old(self)@, key@) matches Some(PBXValueView::Array(_)))
                    && final(self)@ == old(self)@,
            },
    {
        proof {
            use_type_invariant(&*self);
            self.lemma_view();
        }
        let fits = match self.get(key) {
            Some(PBXValue::Array(_)) => true,
            _ => false,
        };
        if !fits {
            return None;
        }
        match self.remove_value(key) {
            Some(PBXValue::Array(items)) => {
                proof {
                    lemma_array_view(&items);
                }
                Some(items)
            },
            _ => None,
        }
    }

    /// The error that a field which is absent, or of another shape than
    /// `expected`, is reported as.
    fn error_for(&self, key: &str, expected: ValueKind) -> (e: PBXError)
        requires
            field_error(self@, key@, expected) is Some,
        ensures
            field_error(self@, key@, expected) == Some(e@),
    {
        match self.get(key) {
            Some(value) => PBXError::TypeMismatch {
                key: key.to_owned(),
                expected_kind: expected,
                actual_kind: value.kind(),
            },
            None => PBXError::MissingField { key: key.to_owned() },
        }
    }

    /// Takes the string out that the field `key` must hold.
    pub fn try_remove_string(&mut self, key: &str) -> (r: Result<String, PBXError>)
        ensures
            unique_keys(final(self)@),
            forall|other: Seq<char>|
                other != key@ ==> #[trigger] lookup(final(self)@, other) == lookup(
                    old(self)@,
                    other,
                ),
            match r {
                Ok(text) => lookup(old(self)@, key@) == Some(PBXValueView::String(text@))
                    && final(self)@ == without(old(self)@, key@),
                Err(e) => field_error(old(self)@, key@, ValueKind::String) == Some(e@)
                    && final(self)@ == old(self)@,
            },
    {
        match self.remove_string(key) {
            Some(text) => Ok(text),
            None => Err(self.error_for(key, ValueKind::String)),
        }
    }

    /// Takes the number out that the field `key` must hold.
    pub fn try_remove_number(&mut self, key: &str) -> (r: Result<i64, PBXError>)
        ensures
            unique_keys(final(self)@),
            forall|other: Seq<char>|
                other != key@ ==> #[trigger] lookup(final(self)@, other) == lookup(
                    old(self)@,
                    other,
                ),
            match r {
                Ok(n) => lookup(old(self)@, key@) == Some(PBXValueView::Number(n as int))
                    && final(self)@ == without(old(self)@, key@),
                Err(e) => field_error(old(self)@, key@, ValueKind::Number) == Some(e@)
                    && final(self)@ == old(self)@,
            },
    {
        match self.remove_number(key) {
            Some(n) => Ok(n),
            None => Err(self.error_for(key, ValueKind::Number)),
        }
    }

    /// Takes the object out that the field `key` must hold.
    pub fn try_remove_object(&mut self, key: &str) -> (r: Result<PBXHashMap, PBXError>)
        ensures
            unique_keys(final(self)@),
            forall|other: Seq<char>|
                other != key@ ==> #[trigger] lookup(final(self)@, other) == lookup(
                    old(self)@,
                    other,
                ),
            match r {
                Ok(fields) => lookup(old(self)@, key@) == Some(PBXValueView::Object(fields@))
                    && final(self)@ == without(old(self)@, key@),
                Err(e) => field_error(old(self)@, key@, ValueKind::Object) == Some(e@)
                    && final(self)@ == old(self)@,
            },
    {
        match self.remove_object(key) {
            Some(fields) => Ok(fields),
            None => Err(self.error_for(key, ValueKind::Object)),
        }
    }

    /// Takes the array out that the field `key` must hold.
    pub fn try_remove_vec(&mut self, key: &str) -> (r: Result<Vec<PBXValue>, PBXError>)
        ensures
            unique_keys(final(self)@),
            forall|other: Seq<char>|
                other != key@ ==> #[trigger] lookup(final(self)@, other) == lookup(
                    old(self)@,
                    other,
                ),
            match r {
                Ok(items) => lookup(old(self)@, key@) == Some(
                    PBXValueView::Array(values_view(items@)),
                ) && final(self)@ == without(old(self)@, key@),
                Err(e) => field_error(old(self)@, key@, ValueKind::Array) == Some(e@)
                    && final(self)@ == old(self)@,
            },
    {
        match self.remove_vec(key) {
            Some(items) => Ok(items),
            None => Err(self.error_for(key, ValueKind::Array)),
        }
    }
}

} // verus!
