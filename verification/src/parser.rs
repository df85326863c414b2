//! From a parse tree to generic values: one reducer for each rule of the
//! grammar, under the rule's name.

use vstd::prelude::*;
use convert_case::{Case, Casing};
use itertools::Itertools;
use crate::error::{view_of_result, Expected, PBXError, PBXErrorView};
use crate::grammar::{
    at, classify, is_reference, nodes_view, parse_array, parse_elements, parse_field,
    parse_fields, parse_key, parse_object, parse_value, skip_trivia, word_end, Node, NodeView,
    Rule,
};
use crate::keyed::with;
use crate::kind::{PBXObjectKind, PBXObjectKindView};
use crate::recognize::{
    check_reference, lemma_field_bounds, lemma_skip_trivia_bounds, lemma_token_bounds,
    lemma_value_bounds, recognize, tree_of,
};
use crate::text::{chars_of, integer_of, parse_integer, str_eq, string_of};
use crate::value::{lemma_array_view, values_view, PBXHashMap, PBXValue, PBXValueView};

verus! {

/// The snake case form of a text, as the crate `convert_case` makes it.
pub uninterp spec fn snake_case(text: Seq<char>) -> Seq<char>;

/// `convert_case::Casing::to_case` with `Case::Snake`: splits the text into
/// words and joins their lower case forms with underscores. The result
/// depends on the text alone.
#[verifier::external_body]
fn to_snake_case(text: &str) -> (r: String)
    ensures
        r@ == snake_case(text@),
{
    text.to_case(Case::Snake)
}

/// `itertools::Itertools::collect_tuple` on the children of a node: both of
/// them if there are exactly two, nothing else.
#[verifier::external_body]
fn pair_of(children: &Vec<Node>) -> (r: Option<(&Node, &Node)>)
    ensures
        match r {
            Some((first, second)) => children@.len() == 2 && *first == children@[0] && *second
                == children@[1],
            None => children@.len() != 2,
        },
{
    children.iter().collect_tuple()
}

/// A text without the quotes around it; a text that does not stand between
/// two quotes as it is.
pub open spec fn strip_quotes(text: Seq<char>) -> Seq<char> {
    if text.len() >= 2 && text[0] == '"' && text.last() == '"' {
        text.subrange(1, text.len() - 1)
    } else {
        text
    }
}

/// The text that a token says as a key.
pub open spec fn key_text(token: NodeView) -> Seq<char> {
    if token.rule == Rule::String {
        strip_quotes(token.text)
    } else {
        token.text
    }
}

/// The key under which a field is stored: an object identifier as it is,
/// any other key in snake case.
pub open spec fn normalized_key(text: Seq<char>) -> Seq<char> {
    if is_reference(text) {
        text
    } else {
        snake_case(text)
    }
}

/// The error for a node that lacks the children that its rule calls for.
pub open spec fn malformed(node: NodeView) -> PBXErrorView {
    PBXErrorView::ParseError {
        position: node.offset,
        expected: Expected::Children,
        found: node.text,
    }
}

/// What a `Key` node reduces to.
pub open spec fn key_of(node: NodeView) -> Result<Seq<char>, PBXErrorView> {
    if node.children.len() == 0 {
        Err(malformed(node))
    } else {
        Ok(normalized_key(key_text(node.children[0])))
    }
}

/// Whether a text holds a decimal point.
pub open spec fn has_decimal_point(text: Seq<char>) -> bool {
    exists|i: int| 0 <= i < text.len() && text[i] == '.'
}

/// What a `Number` token reduces to: the integer it denotes, or, with a
/// decimal point in it, its text as a string.
pub open spec fn number_of(node: NodeView) -> Result<PBXValueView, PBXErrorView> {
    if has_decimal_point(node.text) {
        Ok(PBXValueView::String(node.text))
    } else {
        match integer_of(node.text) {
            Some(n) => Ok(PBXValueView::Number(n)),
            None => Err(PBXErrorView::InvalidNumberLiteral { text: node.text }),
        }
    }
}

/// What a `Bool` token reduces to.
pub open spec fn bool_of(node: NodeView) -> Result<PBXValueView, PBXErrorView> {
    if node.text == "YES"@ {
        Ok(PBXValueView::Bool(true))
    } else if node.text == "NO"@ {
        Ok(PBXValueView::Bool(false))
    } else {
        Err(PBXErrorView::InvalidBoolLiteral { text: node.text })
    }
}

/// What a `Value` node reduces to.
pub open spec fn value_of(node: NodeView) -> Result<PBXValueView, PBXErrorView>
    decreases node, 0nat,
{
    if node.children.len() != 1 {
        Err(malformed(node))
    } else {
        let inner = node.children[0];
        match inner.rule {
            Rule::Array => array_of(inner),
            Rule::Object => object_of(inner),
            Rule::String => Ok(PBXValueView::String(strip_quotes(inner.text))),
            Rule::Bool => bool_of(inner),
            Rule::Kind => Ok(PBXValueView::Kind(PBXObjectKindView::of_tag(inner.text))),
            Rule::Number => number_of(inner),
            Rule::Uuid => Ok(PBXValueView::String(inner.text)),
            Rule::Ident => Ok(PBXValueView::String(inner.text)),
            _ => Err(malformed(node)),
        }
    }
}

/// What the first `k` children of an `Array` node reduce to: the error of
/// the first that fails, if one does.
pub open spec fn items_of(children: Seq<NodeView>, k: nat) -> Result<
    Seq<PBXValueView>,
    PBXErrorView,
>
    decreases children, k,
{
    if k == 0 || k > children.len() {
        Ok(Seq::empty())
    } else {
        match items_of(children, (k - 1) as nat) {
            Ok(items) => match value_of(children[k - 1]) {
                Ok(value) => Ok(items.push(value)),
                Err(e) => Err(e),
            },
            Err(e) => Err(e),
        }
    }
}

/// What an `Array` node reduces to.
pub open spec fn array_of(node: NodeView) -> Result<PBXValueView, PBXErrorView>
    decreases node, 0nat,
{
    match items_of(node.children, node.children.len()) {
        Ok(items) => Ok(PBXValueView::Array(items)),
        Err(e) => Err(e),
    }
}

/// What a `Field` node reduces to: the stored key and the value.
pub open spec fn field_of(node: NodeView) -> Result<(Seq<char>, PBXValueView), PBXErrorView>
    decreases node, 0nat,
{
    if node.children.len() != 2 {
        Err(malformed(node))
    } else {
        match key_of(node.children[0]) {
            Ok(key) => match value_of(node.children[1]) {
                Ok(value) => Ok((key, value)),
                Err(e) => Err(e),
            },
            Err(e) => Err(e),
        }
    }
}

/// What the first `k` children of an `Object` node reduce to. Of two fields
/// with one key the later one stays.
pub open spec fn fields_of(children: Seq<NodeView>, k: nat) -> Result<
    Seq<(Seq<char>, PBXValueView)>,
    PBXErrorView,
>
    decreases children, k,
{
    if k == 0 || k > children.len() {
        Ok(Seq::empty())
    } else {
        match fields_of(children, (k - 1) as nat) {
            Ok(fields) => match field_of(children[k - 1]) {
                Ok((key, value)) => Ok(with(fields, key, value)),
                Err(e) => Err(e),
            },
            Err(e) => Err(e),
        }
    }
}

/// The record that an `Object` node reduces to.
pub open spec fn record_of(node: NodeView) -> Result<Seq<(Seq<char>, PBXValueView)>, PBXErrorView>
    decreases node, 1nat,
{
    fields_of(node.children, node.children.len())
}

/// What an `Object` node reduces to.
pub open spec fn object_of(node: NodeView) -> Result<PBXValueView, PBXErrorView>
    decreases node, 2nat,
{
    match record_of(node) {
        Ok(fields) => Ok(PBXValueView::Object(fields)),
        Err(e) => Err(e),
    }
}

/// The record that a `File` node reduces to.
pub open spec fn file_of(node: NodeView) -> Result<Seq<(Seq<char>, PBXValueView)>, PBXErrorView> {
    if node.children.len() == 0 {
        Err(malformed(node))
    } else {
        record_of(node.children[0])
    }
}

/// A numeric token with a decimal point in it is kept as the text it is; one
/// without is the integer that its digits denote, as long as that integer
/// fits into 64 bits.
pub proof fn lemma_number_token(node: NodeView)
    requires
        crate::grammar::is_number(node.text),
    ensures
        has_decimal_point(node.text) ==> number_of(node) == Ok::<PBXValueView, PBXErrorView>(
            PBXValueView::String(node.text),
        ),
        !has_decimal_point(node.text) && crate::text::decimal_value(node.text) <= i64::MAX
            ==> number_of(node) == Ok::<PBXValueView, PBXErrorView>(
            PBXValueView::Number(crate::text::decimal_value(node.text)),
        ),
{
    let w = node.text;
    if !has_decimal_point(w) {
        if !(w.len() > 0 && crate::text::all_digits(w)) {
            let k = choose|k: int|
                0 < k < w.len() - 1 && w[k] == '.' && crate::text::all_digits(#[trigger] w.take(k))
                    && crate::text::all_digits(w.skip(k + 1));
            assert(w[k] == '.');
        }
        assert(w.len() > 0 && crate::text::all_digits(w));
        assert(crate::text::is_digit(w[0]));
        crate::text::lemma_decimal_value_monotonic(w, 0);
    }
}

/// An item that fails among the first `k` makes the whole array fail alike.
pub proof fn lemma_items_of_error(children: Seq<NodeView>, k: nat, n: nat)
    requires
        k <= n <= children.len(),
        items_of(children, k) is Err,
    ensures
        items_of(children, n) == items_of(children, k),
    decreases n,
{
    if k < n {
        lemma_items_of_error(children, k, (n - 1) as nat);
    }
}

/// A field that fails among the first `k` makes the whole object fail alike.
pub proof fn lemma_fields_of_error(children: Seq<NodeView>, k: nat, n: nat)
    requires
        k <= n <= children.len(),
        fields_of(children, k) is Err,
    ensures
        fields_of(children, n) == fields_of(children, k),
    decreases n,
{
    if k < n {
        lemma_fields_of_error(children, k, (n - 1) as nat);
    }
}

/// Whether a reduction went through, or failed for no other reason than a
/// number that is no integer of 64 bits.
pub open spec fn fails_on_a_number_only<T>(r: Result<T, PBXErrorView>) -> bool {
    match r {
        Ok(_) => true,
        Err(e) => e is InvalidNumberLiteral,
    }
}

/// An array of values that reduce, each but for its numbers, reduces but
/// for its numbers.
proof fn lemma_items_reduce(children: Seq<NodeView>, k: nat)
    requires
        k <= children.len(),
        forall|i: int|
            0 <= i < children.len() ==> fails_on_a_number_only(value_of(#[trigger] children[i])),
    ensures
        fails_on_a_number_only(items_of(children, k)),
    decreases k,
{
    if k > 0 {
        lemma_items_reduce(children, (k - 1) as nat);
        assert(fails_on_a_number_only(value_of(children[k - 1])));
    }
}

/// An object of fields that reduce, each but for its numbers, reduces but
/// for its numbers.
proof fn lemma_fields_reduce(children: Seq<NodeView>, k: nat)
    requires
        k <= children.len(),
        forall|i: int|
            0 <= i < children.len() ==> fails_on_a_number_only(field_of(#[trigger] children[i])),
    ensures
        fails_on_a_number_only(fields_of(children, k)),
    decreases k,
{
    if k > 0 {
        lemma_fields_reduce(children, (k - 1) as nat);
        assert(fails_on_a_number_only(field_of(children[k - 1])));
    }
}

/// A value that the grammar recognizes reduces to a value of the format.
/// The one thing that can stand in the way is a number that is no integer
/// of 64 bits: a tree that the grammar made never lacks a child, and its
/// boolean tokens are `YES` or `NO`.
pub proof fn lemma_value_reduces(s: Seq<char>, pos: int)
    requires
        0 <= pos <= s.len(),
    ensures
        parse_value(s, pos) matches Ok(parsed) ==> fails_on_a_number_only(value_of(parsed.node)),
    decreases s.len() - pos, 2int,
{
    match parse_value(s, pos) {
        Ok(parsed) => {
            assert(parsed.node.children.len() == 1);
            let inner = parsed.node.children[0];
            if at(s, pos, '(') {
                lemma_array_reduces(s, pos);
                assert(parse_array(s, pos) is Ok);
                assert(inner.rule == Rule::Array);
            } else if at(s, pos, '{') {
                lemma_object_reduces(s, pos);
                assert(parse_object(s, pos) is Ok);
                assert(inner.rule == Rule::Object);
            } else if at(s, pos, '"') {
                assert(inner.rule == Rule::String);
            } else {
                let word = s.subrange(pos, word_end(s, pos));
                assert(inner.rule == classify(word));
                assert(inner.text == word);
            }
        },
        Err(_) => {},
    }
}

/// An array that the grammar recognizes reduces, but for its numbers.
pub proof fn lemma_array_reduces(s: Seq<char>, pos: int)
    requires
        0 <= pos <= s.len(),
    ensures
        parse_array(s, pos) matches Ok(parsed) ==> fails_on_a_number_only(array_of(parsed.node)),
    decreases s.len() - pos, 1int,
{
    if at(s, pos, '(') {
        lemma_elements_reduce(s, pos + 1);
        match parse_elements(s, pos + 1) {
            Ok((items, _)) => {
                lemma_items_reduce(items, items.len());
            },
            Err(_) => {},
        }
    }
}

/// Each element of an array that the grammar recognizes reduces, but for
/// its numbers.
pub proof fn lemma_elements_reduce(s: Seq<char>, pos: int)
    requires
        0 <= pos <= s.len(),
    ensures
        parse_elements(s, pos) matches Ok((items, _)) ==> forall|i: int|
            0 <= i < items.len() ==> fails_on_a_number_only(value_of(#[trigger] items[i])),
    decreases s.len() - pos, 3int,
{
    lemma_skip_trivia_bounds(s, pos);
    let p = skip_trivia(s, pos);
    if !at(s, p, ')') {
        lemma_value_bounds(s, p);
        lemma_value_reduces(s, p);
        match parse_value(s, p) {
            Ok(value) => {
                lemma_skip_trivia_bounds(s, value.next);
                let q = skip_trivia(s, value.next);
                let r = if at(s, q, ',') { q + 1 } else { q };
                lemma_elements_reduce(s, r);
                match parse_elements(s, r) {
                    Ok((rest, _)) => {
                        let items = seq![value.node] + rest;
                        assert forall|i: int| 0 <= i < items.len() implies fails_on_a_number_only(
                            value_of(#[trigger] items[i]),
                        ) by {
                            if i > 0 {
                                assert(items[i] == rest[i - 1]);
                            }
                        }
                    },
                    Err(_) => {},
                }
            },
            Err(_) => {},
        }
    }
}

/// An object that the grammar recognizes reduces, but for its numbers.
pub proof fn lemma_object_reduces(s: Seq<char>, pos: int)
    requires
        0 <= pos <= s.len(),
    ensures
        parse_object(s, pos) matches Ok(parsed) ==> fails_on_a_number_only(record_of(parsed.node))
            && fails_on_a_number_only(object_of(parsed.node)),
    decreases s.len() - pos, 1int,
{
    if at(s, pos, '{') {
        lemma_fields_reduce_all(s, pos + 1);
        match parse_fields(s, pos + 1) {
            Ok((fields, _)) => {
                lemma_fields_reduce(fields, fields.len());
            },
            Err(_) => {},
        }
    }
}

/// Each field of an object that the grammar recognizes reduces, but for its
/// numbers.
pub proof fn lemma_fields_reduce_all(s: Seq<char>, pos: int)
    requires
        0 <= pos <= s.len(),
    ensures
        parse_fields(s, pos) matches Ok((fields, _)) ==> forall|i: int|
            0 <= i < fields.len() ==> fails_on_a_number_only(field_of(#[trigger] fields[i])),
    decreases s.len() - pos, 5int,
{
    lemma_skip_trivia_bounds(s, pos);
    let p = skip_trivia(s, pos);
    if !at(s, p, '}') {
        lemma_field_bounds(s, p);
        lemma_field_reduces(s, p);
        match parse_field(s, p) {
            Ok(field) => {
                lemma_fields_reduce_all(s, field.next);
                match parse_fields(s, field.next) {
                    Ok((rest, _)) => {
                        let fields = seq![field.node] + rest;
                        assert forall|i: int| 0 <= i < fields.len() implies fails_on_a_number_only(
                            field_of(#[trigger] fields[i]),
                        ) by {
                            if i > 0 {
                                assert(fields[i] == rest[i - 1]);
                            }
                        }
                    },
                    Err(_) => {},
                }
            },
            Err(_) => {},
        }
    }
}

/// A field that the grammar recognizes reduces, but for its numbers.
pub proof fn lemma_field_reduces(s: Seq<char>, pos: int)
    requires
        0 <= pos <= s.len(),
    ensures
        parse_field(s, pos) matches Ok(parsed) ==> fails_on_a_number_only(field_of(parsed.node)),
    decreases s.len() - pos, 4int,
{
    lemma_token_bounds(s, pos);
    match parse_key(s, pos) {
        Ok(key) => {
            assert(key.node.children.len() == 1);
            lemma_skip_trivia_bounds(s, key.next);
            let e = skip_trivia(s, key.next);
            if at(s, e, '=') {
                lemma_skip_trivia_bounds(s, e + 1);
                let q = skip_trivia(s, e + 1);
                lemma_value_reduces(s, q);
            }
        },
        Err(_) => {},
    }
}

/// A file that the grammar recognizes reduces to a record, but for its
/// numbers.
pub proof fn lemma_file_reduces(s: Seq<char>)
    ensures
        tree_of(Rule::File, s) matches Ok(tree) ==> fails_on_a_number_only(file_of(tree)),
{
    lemma_skip_trivia_bounds(s, 0);
    lemma_object_reduces(s, skip_trivia(s, 0));
}

fn error_malformed(node: &Node) -> (e: PBXError)
    ensures
        e@ == malformed(node@),
{
    proof {
        node.lemma_view();
    }
    PBXError::ParseError {
        position: node.offset,
        expected: Expected::Children,
        found: node.text.clone(),
    }
}

fn unquoted(text: &str) -> (r: String)
    ensures
        r@ == strip_quotes(text@),
{
    let chars = chars_of(text);
    let n = chars.len();
    if n >= 2 && chars[0] == '"' && chars[n - 1] == '"' {
        string_of(&chars, 1, n - 1)
    } else {
        proof {
            assert(chars@.subrange(0, n as int) =~= chars@);
        }
        string_of(&chars, 0, n)
    }
}

fn contains_decimal_point(text: &str) -> (r: bool)
    ensures
        r == has_decimal_point(text@),
{
    let chars = chars_of(text);
    let mut i: usize = 0;
    while i < chars.len()
        invariant
            i <= chars@.len(),
            chars@ == text@,
            forall|j: int| 0 <= j < i ==> chars@[j] != '.',
        decreases chars@.len() - i,
    {
        if chars[i] == '.' {
            return true;
        }
        i += 1;
    }
    false
}

/// The reducers of the grammar's rules.
pub struct PBXProjectParser;

impl PBXProjectParser {
    /// Reads `input` by the rule `rule` into a parse tree.
    pub fn parse(rule: Rule, input: &str) -> (r: Result<Node, PBXError>)
        ensures
            view_of_result(r) == tree_of(rule, input@),
    {
        recognize(rule, input)
    }

    /// The key under which a field is stored: an object identifier as it is
    /// written, any other key in snake case.
    pub fn key(input: &Node) -> (r: Result<String, PBXError>)
        ensures
            view_of_result(r) == key_of(input@),
    {
        proof {
            input.lemma_view();
        }
        if input.children.len() == 0 {
            return Err(error_malformed(input));
        }
        let inner = &input.children[0];
        proof {
            inner.lemma_view();
            assert(input@.children[0] == inner@);
        }
        let text = if inner.rule == Rule::String {
            unquoted(inner.text.as_str())
        } else {
            inner.text.clone()
        };
        let chars = chars_of(text.as_str());
        proof {
            assert(chars@.subrange(0, chars@.len() as int) =~= chars@);
        }
        if check_reference(&chars, 0, chars.len()) {
            Ok(text)
        } else {
            Ok(to_snake_case(text.as_str()))
        }
    }

    /// A quoted string, without the quotes around it.
    pub fn string(input: &Node) -> (r: Result<PBXValue, PBXError>)
        ensures
            view_of_result(r) == Ok::<PBXValueView, PBXErrorView>(
                PBXValueView::String(strip_quotes(input@.text)),
            ),
    {
        proof {
            input.lemma_view();
        }
        Ok(PBXValue::String(unquoted(input.text.as_str())))
    }

    /// A type tag: the known kind of that name, or the unknown kind that
    /// carries the tag.
    pub fn kind(input: &Node) -> (r: Result<PBXValue, PBXError>)
        ensures
            view_of_result(r) == Ok::<PBXValueView, PBXErrorView>(
                PBXValueView::Kind(PBXObjectKindView::of_tag(input@.text)),
            ),
    {
        proof {
            input.lemma_view();
        }
        Ok(PBXValue::Kind(PBXObjectKind::from(input.text.as_str())))
    }

    /// An identifier, as a string.
    pub fn ident(input: &Node) -> (r: Result<PBXValue, PBXError>)
        ensures
            view_of_result(r) == Ok::<PBXValueView, PBXErrorView>(
                PBXValueView::String(input@.text),
            ),
    {
        proof {
            input.lemma_view();
        }
        Ok(PBXValue::String(input.text.clone()))
    }

    /// An object identifier, as a string.
    pub fn uuid(input: &Node) -> (r: Result<PBXValue, PBXError>)
        ensures
            view_of_result(r) == Ok::<PBXValueView, PBXErrorView>(
                PBXValueView::String(input@.text),
            ),
    {
        proof {
            input.lemma_view();
        }
        Ok(PBXValue::String(input.text.clone()))
    }

    /// A numeric token: an integer, or, with a decimal point in it, the
    /// token's text as a string.
    pub fn number(input: &Node) -> (r: Result<PBXValue, PBXError>)
        ensures
            view_of_result(r) == number_of(input@),
    {
        proof {
            input.lemma_view();
        }
        if contains_decimal_point(input.text.as_str()) {
            return Ok(PBXValue::String(input.text.clone()));
        }
        match parse_integer(input.text.as_str()) {
            Some(n) => Ok(PBXValue::Number(n)),
            None => Err(PBXError::InvalidNumberLiteral { text: input.text.clone() }),
        }
    }

    /// A boolean token: `YES` or `NO`, and nothing else.
    pub fn bool(input: &Node) -> (r: Result<PBXValue, PBXError>)
        ensures
            view_of_result(r) == bool_of(input@),
    {
        proof {
            input.lemma_view();
        }
        if str_eq(input.text.as_str(), "YES") {
            Ok(PBXValue::Bool(true))
        } else if str_eq(input.text.as_str(), "NO") {
            Ok(PBXValue::Bool(false))
        } else {
            Err(PBXError::InvalidBoolLiteral { text: input.text.clone() })
        }
    }

    /// An array: its values in order.
    pub fn array(input: &Node) -> (r: Result<PBXValue, PBXError>)
        ensures
            view_of_result(r) == array_of(input@),
        decreases input, 0nat,
    {
        proof {
            input.lemma_view();
        }
        let mut items: Vec<PBXValue> = Vec::new();
        let mut i: usize = 0;
        proof {
            assert(values_view(items@) =~= Seq::<PBXValueView>::empty());
        }
        while i < input.children.len()
            invariant
                i <= input.children@.len(),
                input@.children == nodes_view(input.children@),
                items_of(input@.children, i as nat) == Ok::<Seq<PBXValueView>, PBXErrorView>(
                    values_view(items@),
                ),
            decreases input.children@.len() - i,
        {
            match Self::value(&input.children[i]) {
                Ok(value) => {
                    let ghost before = items@;
                    items.push(value);
                    proof {
                        assert(values_view(items@) =~= values_view(before).push(value@));
                    }
                },
                Err(e) => {
                    proof {
                        lemma_items_of_error(
                            input@.children,
                            (i + 1) as nat,
                            input@.children.len(),
                        );
                    }
                    return Err(e);
                },
            }
            i += 1;
        }
        proof {
            lemma_array_view(&items);
        }
        Ok(PBXValue::Array(items))
    }

    /// A value: whatever the one node in it reduces to.
    pub fn value(input: &Node) -> (r: Result<PBXValue, PBXError>)
        ensures
            view_of_result(r) == value_of(input@),
        decreases input, 1nat,
    {
        proof {
            input.lemma_view();
        }
        if input.children.len() != 1 {
            return Err(error_malformed(input));
        }
        let inner = &input.children[0];
        proof {
            inner.lemma_view();
            assert(input@.children[0] == inner@);
        }
        match inner.rule {
            Rule::Array => Self::array(inner),
            Rule::Object => Self::object(inner),
            Rule::String => Self::string(inner),
            Rule::Bool => Self::bool(inner),
            Rule::Kind => Self::kind(inner),
            Rule::Number => Self::number(inner),
            Rule::Uuid => Self::uuid(inner),
            Rule::Ident => Self::ident(inner),
            _ => Err(error_malformed(input)),
        }
    }

    /// A field: its stored key and its value.
    pub fn field(node: &Node) -> (r: Result<(String, PBXValue), PBXError>)
        ensures
            view_of_result(r) == field_of(node@),
        decreases node, 2nat,
    {
        proof {
            node.lemma_view();
        }
        let (k, v) = match pair_of(&node.children) {
            Some(pair) => pair,
            None => {
                return Err(error_malformed(node));
            },
        };
        proof {
            assert(node@.children[0] == k@);
            assert(node@.children[1] == v@);
        }
        let key = match Self::key(k) {
            Ok(key) => key,
            Err(e) => {
                return Err(e);
            },
        };
        let value = match Self::value(v) {
            Ok(value) => value,
            Err(e) => {
                return Err(e);
            },
        };
        Ok((key, value))
    }

    /// The record that an object holds.
    fn record(input: &Node) -> (r: Result<PBXHashMap, PBXError>)
        ensures
            view_of_result(r) == record_of(input@),
        decreases input, 3nat,
    {
        proof {
            input.lemma_view();
        }
        let mut fields = PBXHashMap::new();
        let mut i: usize = 0;
        while i < input.children.len()
            invariant
                i <= input.children@.len(),
                input@.children == nodes_view(input.children@),
                fields_of(input@.children, i as nat) == Ok::<
                    Seq<(Seq<char>, PBXValueView)>,
                    PBXErrorView,
                >(fields@),
            decreases input.children@.len() - i,
        {
            match Self::field(&input.children[i]) {
                Ok((key, value)) => {
                    fields.insert(key, value);
                },
                Err(e) => {
                    proof {
                        lemma_fields_of_error(
                            input@.children,
                            (i + 1) as nat,
                            input@.children.len(),
                        );
                    }
                    return Err(e);
                },
            }
            i += 1;
        }
        Ok(fields)
    }

    /// An object: its fields, the later of two with one key.
    pub fn object(input: &Node) -> (r: Result<PBXValue, PBXError>)
        ensures
            view_of_result(r) == object_of(input@),
        decreases input, 4nat,
    {
        match Self::record(input) {
            Ok(fields) => Ok(PBXValue::Object(fields)),
            Err(e) => Err(e),
        }
    }

    /// A file: the record of its one object.
    pub fn file(input: &Node) -> (r: Result<PBXHashMap, PBXError>)
        ensures
            view_of_result(r) == file_of(input@),
    {
        proof {
            input.lemma_view();
        }
        if input.children.len() == 0 {
            return Err(error_malformed(input));
        }
        let node = &input.children[0];
        proof {
            assert(input@.children[0] == node@);
        }
        Self::record(node)
    }
}

} // verus!
