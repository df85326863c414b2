//! The grammar of the project document format, stated over sequences of
//! characters, and the parse tree that a text of the format has.
//!
//! ```text
//! file   := object
//! object := '{' field* '}'
//! field  := key '=' value ';'
//! key    := string | reference | identifier
//! value  := array | object | string | reference | kind | bool | number | identifier
//! array  := '(' (value ','?)* ')'
//! ```
//!
//! White space and comments (`// ...` to the end of the line, `/* ... */`)
//! may stand between any two tokens and mean nothing.
//!
//! Each rule is a function from a text and a position to the node that
//! stands there and the position behind it, or to the place where the text
//! stops following the rule. Where a rule calls itself again further on, it
//! first tests that the position has moved forward and stays within the
//! text: that makes the recursion end, and the test never fails (the bounds
//! lemmas of the recognizer show it).

use vstd::prelude::*;
use crate::error::Expected;
use crate::kind::PBXKnownKind;
use crate::text::{all_digits, all_hex_digits, is_whitespace, is_word_char};

verus! {

/// The rules of the grammar. Every node of a parse tree is labelled with one.
#[derive(Clone, Copy, Debug, PartialEq, Eq, Structural)]
pub enum Rule {
    /// A whole text: one object.
    File,
    /// Fields between braces.
    Object,
    /// A key, `=`, a value and `;`.
    Field,
    /// The key of a field, around its one token.
    Key,
    /// A value, around the one node that it is.
    Value,
    /// Values between parentheses.
    Array,
    /// A text between double quotes.
    String,
    /// An object identifier: 24 hexadecimal digits.
    Uuid,
    /// One of the known type tags.
    Kind,
    /// `YES` or `NO`.
    Bool,
    /// Digits, possibly with a decimal point among them.
    Number,
    /// Any other word.
    Ident,
}

/// A node of a parse tree. In a tree that the grammar made, a token
/// (`String`, `Uuid`, `Kind`, `Bool`, `Number`, `Ident`) holds its text as it
/// stands in the source, a quoted string with its quotes, and has no
/// children; any other node has an empty text. `offset` is where the node
/// starts, in characters from the start of the source.
#[derive(Debug, PartialEq, Eq)]
pub struct Node {
    pub rule: Rule,
    pub text: String,
    pub offset: usize,
    pub children: Vec<Node>,
}

/// The mathematical content of a `Node`.
pub struct NodeView {
    pub rule: Rule,
    pub text: Seq<char>,
    pub offset: nat,
    pub children: Seq<NodeView>,
}

impl Node {
    /// The views of the first `k` children.
    pub open spec fn children_view(&self, k: nat) -> Seq<NodeView>
        decreases self, k,
    {
        if k == 0 || k > self.children@.len() {
            Seq::empty()
        } else {
            self.children_view((k - 1) as nat).push(self.children@[k - 1].view())
        }
    }

    proof fn lemma_children_view(&self, k: nat)
        requires
            k <= self.children@.len(),
        ensures
            self.children_view(k).len() == k,
            forall|i: int|
                0 <= i < k ==> self.children_view(k)[i] == (#[trigger] self.children@[i]).view(),
        decreases k,
    {
        if k > 0 {
            self.lemma_children_view((k - 1) as nat);
            assert(self.children_view(k) == self.children_view((k - 1) as nat).push(
                self.children@[k - 1].view(),
            ));
        } else {
            assert(self.children_view(0) == Seq::<NodeView>::empty());
        }
    }

    /// The view of a node is made of the views of its parts.
    pub proof fn lemma_view(&self)
        ensures
            self@.rule == self.rule,
            self@.text == self.text@,
            self@.offset == self.offset as nat,
            self@.children == nodes_view(self.children@),
    {
        self.lemma_children_view(self.children@.len());
        assert(self@.children =~= nodes_view(self.children@));
    }
}

impl View for Node {
    type V = NodeView;

    open spec fn view(&self) -> NodeView
        decreases self, self.children@.len() + 1,
    {
        NodeView {
            rule: self.rule,
            text: self.text@,
            offset: self.offset as nat,
            children: self.children_view(self.children@.len()),
        }
    }
}

/// The views of a sequence of nodes.
pub open spec fn nodes_view(nodes: Seq<Node>) -> Seq<NodeView> {
    Seq::new(nodes.len(), |i: int| nodes[i]@)
}

/// A token node.
pub open spec fn leaf(rule: Rule, s: Seq<char>, from: int, to: int) -> NodeView {
    NodeView { rule, text: s.subrange(from, to), offset: from as nat, children: Seq::empty() }
}

/// A node with children.
pub open spec fn branch(rule: Rule, offset: int, children: Seq<NodeView>) -> NodeView {
    NodeView { rule, text: Seq::empty(), offset: offset as nat, children }
}

/// A node that was recognized, and the position behind it.
pub struct Parsed {
    pub node: NodeView,
    pub next: int,
}

/// The position at which the grammar gave up, and what it looked for there.
pub struct Failure {
    pub position: int,
    pub expected: Expected,
}

/// Whether the character at `pos` is `c`.
pub open spec fn at(s: Seq<char>, pos: int, c: char) -> bool {
    0 <= pos < s.len() && s[pos] == c
}

/// The position of the first line feed at or behind `pos`, or the end of the text.
pub open spec fn line_end(s: Seq<char>, pos: int) -> int
    decreases s.len() - pos,
{
    if pos < 0 || pos >= s.len() {
        s.len() as int
    } else if s[pos] == '\n' {
        pos
    } else {
        line_end(s, pos + 1)
    }
}

/// The position behind the first `*/` that starts at or behind `pos`.
pub open spec fn block_comment_end(s: Seq<char>, pos: int) -> Option<int>
    decreases s.len() - pos,
{
    if pos < 0 || pos + 1 >= s.len() {
        None
    } else if s[pos] == '*' && s[pos + 1] == '/' {
        Some(pos + 2)
    } else {
        block_comment_end(s, pos + 1)
    }
}

/// The position of the first character at or behind `pos` that belongs to
/// neither white space nor a comment. A block comment that is not closed is
/// no comment.
pub open spec fn skip_trivia(s: Seq<char>, pos: int) -> int
    decreases s.len() - pos,
{
    if pos < 0 || pos >= s.len() {
        pos
    } else if is_whitespace(s[pos]) {
        skip_trivia(s, pos + 1)
    } else if s[pos] == '/' && at(s, pos + 1, '/') {
        let end = line_end(s, pos + 2);
        if pos < end <= s.len() {
            skip_trivia(s, end)
        } else {
            pos
        }
    } else if s[pos] == '/' && at(s, pos + 1, '*') {
        match block_comment_end(s, pos + 2) {
            Some(end) => if pos < end <= s.len() {
                skip_trivia(s, end)
            } else {
                pos
            },
            None => pos,
        }
    } else {
        pos
    }
}

/// The position behind the longest run of word characters that starts at `pos`.
pub open spec fn word_end(s: Seq<char>, pos: int) -> int
    decreases s.len() - pos,
{
    if 0 <= pos < s.len() && is_word_char(s[pos]) {
        word_end(s, pos + 1)
    } else {
        pos
    }
}

/// The position of the quote that closes a string whose content starts at
/// `pos`. A backslash takes the character behind it along, so that an escaped
/// quote closes nothing.
pub open spec fn closing_quote(s: Seq<char>, pos: int) -> Option<int>
    decreases s.len() - pos,
{
    if pos < 0 || pos >= s.len() {
        None
    } else if s[pos] == '"' {
        Some(pos)
    } else if s[pos] == '\\' {
        if pos + 1 < s.len() {
            closing_quote(s, pos + 2)
        } else {
            None
        }
    } else {
        closing_quote(s, pos + 1)
    }
}

/// The shape of an object identifier: 24 hexadecimal digits.
pub open spec fn is_reference(w: Seq<char>) -> bool {
    w.len() == 24 && all_hex_digits(w)
}

/// The shape of a numeric token: one or more digits, and then possibly a
/// decimal point with one or more digits behind it.
pub open spec fn is_number(w: Seq<char>) -> bool {
    ||| w.len() > 0 && all_digits(w)
    ||| exists|k: int|
        0 < k < w.len() - 1 && w[k] == '.' && all_digits(#[trigger] w.take(k)) && all_digits(
            w.skip(k + 1),
        )
}

/// The exact spelling of one of the two boolean literals.
pub open spec fn is_bool_literal(w: Seq<char>) -> bool {
    w == "YES"@ || w == "NO"@
}

/// The rule of a word in the place of a value. The literal forms overlap; the
/// first of these that fits wins: reference, known type tag, boolean, number,
/// identifier.
pub open spec fn classify(w: Seq<char>) -> Rule {
    if is_reference(w) {
        Rule::Uuid
    } else if PBXKnownKind::of_tag(w) is Some {
        Rule::Kind
    } else if is_bool_literal(w) {
        Rule::Bool
    } else if is_number(w) {
        Rule::Number
    } else {
        Rule::Ident
    }
}

/// The rule of a word in the place of a key.
pub open spec fn classify_key(w: Seq<char>) -> Rule {
    if is_reference(w) {
        Rule::Uuid
    } else {
        Rule::Ident
    }
}

/// A quoted string that starts at `pos`.
pub open spec fn parse_string(s: Seq<char>, pos: int) -> Result<Parsed, Failure> {
    if !at(s, pos, '"') {
        Err(Failure { position: pos, expected: Expected::Token })
    } else {
        match closing_quote(s, pos + 1) {
            Some(q) => Ok(Parsed { node: leaf(Rule::String, s, pos, q + 1), next: q + 1 }),
            None => Err(Failure { position: pos, expected: Expected::ClosingQuote }),
        }
    }
}

/// A token in the place of a value, at `pos`.
pub open spec fn parse_scalar(s: Seq<char>, pos: int) -> Result<Parsed, Failure> {
    if at(s, pos, '"') {
        parse_string(s, pos)
    } else {
        let end = word_end(s, pos);
        if end <= pos {
            Err(Failure { position: pos, expected: Expected::Value })
        } else {
            Ok(Parsed { node: leaf(classify(s.subrange(pos, end)), s, pos, end), next: end })
        }
    }
}

/// `key := string | reference | identifier`, at `pos`.
pub open spec fn parse_key(s: Seq<char>, pos: int) -> Result<Parsed, Failure> {
    if at(s, pos, '"') {
        match parse_string(s, pos) {
            Ok(inner) => Ok(
                Parsed { node: branch(Rule::Key, pos, seq![inner.node]), next: inner.next },
            ),
            Err(failure) => Err(failure),
        }
    } else {
        let end = word_end(s, pos);
        if end <= pos {
            Err(Failure { position: pos, expected: Expected::Key })
        } else {
            let inner = leaf(classify_key(s.subrange(pos, end)), s, pos, end);
            Ok(Parsed { node: branch(Rule::Key, pos, seq![inner]), next: end })
        }
    }
}

/// `value := array | object | token`, at `pos`.
pub open spec fn parse_value(s: Seq<char>, pos: int) -> Result<Parsed, Failure>
    decreases s.len() - pos, 2int,
{
    let inner = if at(s, pos, '(') {
        parse_array(s, pos)
    } else if at(s, pos, '{') {
        parse_object(s, pos)
    } else {
        parse_scalar(s, pos)
    };
    match inner {
        Ok(inner) => Ok(
            Parsed { node: branch(Rule::Value, pos, seq![inner.node]), next: inner.next },
        ),
        Err(failure) => Err(failure),
    }
}

/// `array := '(' (value ','?)* ')'`, at `pos`.
pub open spec fn parse_array(s: Seq<char>, pos: int) -> Result<Parsed, Failure>
    decreases s.len() - pos, 1int,
{
    if !at(s, pos, '(') {
        Err(Failure { position: pos, expected: Expected::OpenParen })
    } else {
        match parse_elements(s, pos + 1) {
            Ok((items, next)) => Ok(Parsed { node: branch(Rule::Array, pos, items), next }),
            Err(failure) => Err(failure),
        }
    }
}

/// The elements of an array and the `)` behind them, from `pos` on.
pub open spec fn parse_elements(s: Seq<char>, pos: int) -> Result<(Seq<NodeView>, int), Failure>
    decreases s.len() - pos, 3int,
{
    let p = skip_trivia(s, pos);
    if p < pos || p > s.len() {
        Err(Failure { position: pos, expected: Expected::Value })
    } else if at(s, p, ')') {
        Ok((Seq::empty(), p + 1))
    } else {
        match parse_value(s, p) {
            Ok(value) => {
                let q = skip_trivia(s, value.next);
                let r = if at(s, q, ',') { q + 1 } else { q };
                if p < r <= s.len() {
                    prepend(value.node, parse_elements(s, r))
                } else {
                    Err(Failure { position: p, expected: Expected::Value })
                }
            },
            Err(failure) => Err(failure),
        }
    }
}

/// `object := '{' field* '}'`, at `pos`.
pub open spec fn parse_object(s: Seq<char>, pos: int) -> Result<Parsed, Failure>
    decreases s.len() - pos, 1int,
{
    if !at(s, pos, '{') {
        Err(Failure { position: pos, expected: Expected::OpenBrace })
    } else {
        match parse_fields(s, pos + 1) {
            Ok((fields, next)) => Ok(Parsed { node: branch(Rule::Object, pos, fields), next }),
            Err(failure) => Err(failure),
        }
    }
}

/// The fields of an object and the `}` behind them, from `pos` on.
pub open spec fn parse_fields(s: Seq<char>, pos: int) -> Result<(Seq<NodeView>, int), Failure>
    decreases s.len() - pos, 5int,
{
    let p = skip_trivia(s, pos);
    if p < pos || p > s.len() {
        Err(Failure { position: pos, expected: Expected::Key })
    } else if at(s, p, '}') {
        Ok((Seq::empty(), p + 1))
    } else {
        match parse_field(s, p) {
            Ok(field) => if p < field.next <= s.len() {
                prepend(field.node, parse_fields(s, field.next))
            } else {
                Err(Failure { position: p, expected: Expected::Key })
            },
            Err(failure) => Err(failure),
        }
    }
}

/// `field := key '=' value ';'`, at `pos`.
pub open spec fn parse_field(s: Seq<char>, pos: int) -> Result<Parsed, Failure>
    decreases s.len() - pos, 4int,
{
    match parse_key(s, pos) {
        Ok(key) => {
            let e = skip_trivia(s, key.next);
            if !at(s, e, '=') || e < pos {
                Err(Failure { position: e, expected: Expected::Equals })
            } else {
                let q = skip_trivia(s, e + 1);
                if q < pos || q > s.len() {
                    Err(Failure { position: q, expected: Expected::Value })
                } else {
                    match parse_value(s, q) {
                        Ok(value) => {
                            let t = skip_trivia(s, value.next);
                            if at(s, t, ';') {
                                Ok(
                                    Parsed {
                                        node: branch(Rule::Field, pos, seq![key.node, value.node]),
                                        next: t + 1,
                                    },
                                )
                            } else {
                                Err(Failure { position: t, expected: Expected::Semicolon })
                            }
                        },
                        Err(failure) => Err(failure),
                    }
                }
            }
        },
        Err(failure) => Err(failure),
    }
}

/// Puts `first` in front of a list that was recognized.
pub open spec fn prepend(first: NodeView, rest: Result<(Seq<NodeView>, int), Failure>) -> Result<
    (Seq<NodeView>, int),
    Failure,
> {
    match rest {
        Ok((nodes, next)) => Ok((seq![first] + nodes, next)),
        Err(failure) => Err(failure),
    }
}

/// `file := object`, and nothing but white space and comments around it.
pub open spec fn parse_file(s: Seq<char>, pos: int) -> Result<Parsed, Failure> {
    match parse_object(s, pos) {
        Ok(object) => {
            let end = skip_trivia(s, object.next);
            if end >= s.len() {
                Ok(Parsed { node: branch(Rule::File, pos, seq![object.node]), next: end })
            } else {
                Err(Failure { position: end, expected: Expected::EndOfInput })
            }
        },
        Err(failure) => Err(failure),
    }
}

/// A token of the rule `rule`, at `pos`.
pub open spec fn parse_token(rule: Rule, s: Seq<char>, pos: int) -> Result<Parsed, Failure> {
    match parse_scalar(s, pos) {
        Ok(token) => if token.node.rule == rule {
            Ok(token)
        } else {
            Err(Failure { position: pos, expected: Expected::Token })
        },
        Err(failure) => if failure.expected == Expected::ClosingQuote {
            Err(failure)
        } else {
            Err(Failure { position: pos, expected: Expected::Token })
        },
    }
}

/// What `rule` recognizes at the first token of `s`.
pub open spec fn parse_rule(rule: Rule, s: Seq<char>) -> Result<Parsed, Failure> {
    let pos = skip_trivia(s, 0);
    match rule {
        Rule::File => parse_file(s, pos),
        Rule::Object => parse_object(s, pos),
        Rule::Field => parse_field(s, pos),
        Rule::Key => parse_key(s, pos),
        Rule::Value => parse_value(s, pos),
        Rule::Array => parse_array(s, pos),
        _ => parse_token(rule, s, pos),
    }
}

} // verus!
