//! The recognizer: executable code that builds the parse tree which the
//! grammar gives to a text.

use vstd::prelude::*;
use crate::error::{Expected, PBXError, PBXErrorView};
use crate::grammar::{
    at, block_comment_end, branch, classify, closing_quote, is_number, is_reference, leaf, line_end, nodes_view, parse_array, parse_elements, parse_field,
    parse_fields, parse_file, parse_key, parse_object, parse_rule, parse_scalar, parse_string,
    parse_token, parse_value, prepend, skip_trivia, word_end, Failure, Node, NodeView, Parsed,
    Rule,
};
use crate::kind::PBXKnownKind;
use crate::text::{
    all_digits, char_is_digit, char_is_hex_digit, char_is_whitespace, char_is_word_char,
    chars_of, is_digit, is_hex_digit, is_whitespace, is_word_char, str_eq, string_of,
};

verus! {

/// A line ends at or behind the place where the search for its end starts.
pub proof fn lemma_line_end_bounds(s: Seq<char>, pos: int)
    requires
        0 <= pos <= s.len(),
    ensures
        pos <= line_end(s, pos) <= s.len(),
    decreases s.len() - pos,
{
    if pos < s.len() && s[pos] != '\n' {
        lemma_line_end_bounds(s, pos + 1);
    }
}

/// A block comment ends behind the place where the search for its end starts.
pub proof fn lemma_block_comment_end_bounds(s: Seq<char>, pos: int)
    requires
        0 <= pos,
    ensures
        block_comment_end(s, pos) matches Some(end) ==> pos + 2 <= end <= s.len(),
    decreases s.len() - pos,
{
    if pos + 1 < s.len() && !(s[pos] == '*' && s[pos + 1] == '/') {
        lemma_block_comment_end_bounds(s, pos + 1);
    }
}

/// Skipping white space and comments never moves backwards nor past the end.
pub proof fn lemma_skip_trivia_bounds(s: Seq<char>, pos: int)
    requires
        0 <= pos <= s.len(),
    ensures
        pos <= skip_trivia(s, pos) <= s.len(),
    decreases s.len() - pos,
{
    if pos < s.len() {
        if is_whitespace(s[pos]) {
            lemma_skip_trivia_bounds(s, pos + 1);
        } else if s[pos] == '/' && at(s, pos + 1, '/') {
            lemma_line_end_bounds(s, pos + 2);
            lemma_skip_trivia_bounds(s, line_end(s, pos + 2));
        } else if s[pos] == '/' && at(s, pos + 1, '*') {
            lemma_block_comment_end_bounds(s, pos + 2);
            match block_comment_end(s, pos + 2) {
                Some(end) => {
                    lemma_skip_trivia_bounds(s, end);
                },
                None => {},
            }
        }
    }
}

/// A word ends at or behind its start, and within the text.
pub proof fn lemma_word_end_bounds(s: Seq<char>, pos: int)
    requires
        0 <= pos <= s.len(),
    ensures
        pos <= word_end(s, pos) <= s.len(),
    decreases s.len() - pos,
{
    if pos < s.len() && is_word_char(s[pos]) {
        lemma_word_end_bounds(s, pos + 1);
    }
}

/// The quote that closes a string stands within the text, at or behind the
/// start of the string's content.
pub proof fn lemma_closing_quote_bounds(s: Seq<char>, pos: int)
    requires
        0 <= pos,
    ensures
        closing_quote(s, pos) matches Some(q) ==> pos <= q < s.len(),
    decreases s.len() - pos,
{
    if pos < s.len() && s[pos] != '"' {
        if s[pos] == '\\' {
            if pos + 1 < s.len() {
                lemma_closing_quote_bounds(s, pos + 2);
            }
        } else {
            lemma_closing_quote_bounds(s, pos + 1);
        }
    }
}

/// Where a node that was recognized ends, and where a failure stands: a
/// node is never empty, and neither position leaves the text.
pub open spec fn in_bounds(outcome: Result<Parsed, Failure>, s: Seq<char>, pos: int) -> bool {
    match outcome {
        Ok(parsed) => pos < parsed.next <= s.len(),
        Err(failure) => pos <= failure.position <= s.len(),
    }
}

/// The same for a list of nodes with its closing bracket.
pub open spec fn list_in_bounds(
    outcome: Result<(Seq<NodeView>, int), Failure>,
    s: Seq<char>,
    pos: int,
) -> bool {
    match outcome {
        Ok((_, next)) => pos < next <= s.len(),
        Err(failure) => pos <= failure.position <= s.len(),
    }
}

/// A token is never empty and ends within the text.
pub proof fn lemma_token_bounds(s: Seq<char>, pos: int)
    requires
        0 <= pos <= s.len(),
    ensures
        in_bounds(parse_string(s, pos), s, pos),
        in_bounds(parse_scalar(s, pos), s, pos),
        in_bounds(parse_key(s, pos), s, pos),
{
    lemma_word_end_bounds(s, pos);
    lemma_closing_quote_bounds(s, pos + 1);
}

/// A value is never empty and ends within the text. With this and the
/// lemmas beside it, none of the tests on positions that the grammar makes
/// for the sake of termination ever fails.
pub proof fn lemma_value_bounds(s: Seq<char>, pos: int)
    requires
        0 <= pos <= s.len(),
    ensures
        in_bounds(parse_value(s, pos), s, pos),
    decreases s.len() - pos, 2int,
{
    if at(s, pos, '(') {
        lemma_array_bounds(s, pos);
    } else if at(s, pos, '{') {
        lemma_object_bounds(s, pos);
    } else {
        lemma_token_bounds(s, pos);
    }
}

/// An array is never empty and ends within the text.
pub proof fn lemma_array_bounds(s: Seq<char>, pos: int)
    requires
        0 <= pos <= s.len(),
    ensures
        in_bounds(parse_array(s, pos), s, pos),
    decreases s.len() - pos, 1int,
{
    if at(s, pos, '(') {
        lemma_elements_bounds(s, pos + 1);
    }
}

/// The elements of an array end behind its `)`, within the text.
pub proof fn lemma_elements_bounds(s: Seq<char>, pos: int)
    requires
        0 <= pos <= s.len(),
    ensures
        list_in_bounds(parse_elements(s, pos), s, pos),
    decreases s.len() - pos, 3int,
{
    lemma_skip_trivia_bounds(s, pos);
    let p = skip_trivia(s, pos);
    if !at(s, p, ')') {
        lemma_value_bounds(s, p);
        match parse_value(s, p) {
            Ok(value) => {
                lemma_skip_trivia_bounds(s, value.next);
                let q = skip_trivia(s, value.next);
                let r = if at(s, q, ',') { q + 1 } else { q };
                lemma_elements_bounds(s, r);
            },
            Err(_) => {},
        }
    }
}

/// An object is never empty and ends within the text.
pub proof fn lemma_object_bounds(s: Seq<char>, pos: int)
    requires
        0 <= pos <= s.len(),
    ensures
        in_bounds(parse_object(s, pos), s, pos),
    decreases s.len() - pos, 1int,
{
    if at(s, pos, '{') {
        lemma_fields_bounds(s, pos + 1);
    }
}

/// The fields of an object end behind its `}`, within the text.
pub proof fn lemma_fields_bounds(s: Seq<char>, pos: int)
    requires
        0 <= pos <= s.len(),
    ensures
        list_in_bounds(parse_fields(s, pos), s, pos),
    decreases s.len() - pos, 5int,
{
    lemma_skip_trivia_bounds(s, pos);
    let p = skip_trivia(s, pos);
    if !at(s, p, '}') {
        lemma_field_bounds(s, p);
        match parse_field(s, p) {
            Ok(field) => {
                lemma_fields_bounds(s, field.next);
            },
            Err(_) => {},
        }
    }
}

/// A field is never empty and ends within the text.
pub proof fn lemma_field_bounds(s: Seq<char>, pos: int)
    requires
        0 <= pos <= s.len(),
    ensures
        in_bounds(parse_field(s, pos), s, pos),
    decreases s.len() - pos, 4int,
{
    lemma_token_bounds(s, pos);
    match parse_key(s, pos) {
        Ok(key) => {
            lemma_skip_trivia_bounds(s, key.next);
            let e = skip_trivia(s, key.next);
            if at(s, e, '=') {
                lemma_skip_trivia_bounds(s, e + 1);
                let q = skip_trivia(s, e + 1);
                lemma_value_bounds(s, q);
                match parse_value(s, q) {
                    Ok(value) => {
                        lemma_skip_trivia_bounds(s, value.next);
                    },
                    Err(_) => {},
                }
            }
        },
        Err(_) => {},
    }
}

fn scan_line_end(chars: &Vec<char>, pos: usize) -> (r: usize)
    requires
        pos <= chars.len(),
    ensures
        r as int == line_end(chars@, pos as int),
        pos <= r <= chars.len(),
{
    let mut i: usize = pos;
    while i < chars.len() && chars[i] != '\n'
        invariant
            pos <= i <= chars.len(),
            line_end(chars@, pos as int) == line_end(chars@, i as int),
        decreases chars.len() - i,
    {
        i += 1;
    }
    i
}

fn scan_block_comment_end(chars: &Vec<char>, pos: usize) -> (r: Option<usize>)
    requires
        pos <= chars.len(),
    ensures
        match r {
            Some(end) => block_comment_end(chars@, pos as int) == Some(end as int) && pos + 2
                <= end <= chars.len(),
            None => block_comment_end(chars@, pos as int) is None,
        },
{
    let mut i: usize = pos;
    while chars.len() - i >= 2
        invariant
            pos <= i <= chars.len(),
            block_comment_end(chars@, pos as int) == block_comment_end(chars@, i as int),
        decreases chars.len() - i,
    {
        if chars[i] == '*' && chars[i + 1] == '/' {
            return Some(i + 2);
        }
        i += 1;
    }
    None
}

fn scan_trivia(chars: &Vec<char>, pos: usize) -> (r: usize)
    requires
        pos <= chars.len(),
    ensures
        r as int == skip_trivia(chars@, pos as int),
        pos <= r <= chars.len(),
{
    let mut i: usize = pos;
    loop
        invariant
            pos <= i <= chars.len(),
            skip_trivia(chars@, pos as int) == skip_trivia(chars@, i as int),
        decreases chars.len() - i,
    {
        if i >= chars.len() {
            return i;
        }
        let c = chars[i];
        if char_is_whitespace(c) {
            i += 1;
        } else if c == '/' && i + 1 < chars.len() && chars[i + 1] == '/' {
            i = scan_line_end(chars, i + 2);
        } else if c == '/' && i + 1 < chars.len() && chars[i + 1] == '*' {
            match scan_block_comment_end(chars, i + 2) {
                Some(end) => {
                    i = end;
                },
                None => {
                    return i;
                },
            }
        } else {
            return i;
        }
    }
}

fn scan_word_end(chars: &Vec<char>, pos: usize) -> (r: usize)
    requires
        pos <= chars.len(),
    ensures
        r as int == word_end(chars@, pos as int),
        pos <= r <= chars.len(),
{
    let mut i: usize = pos;
    while i < chars.len() && char_is_word_char(chars[i])
        invariant
            pos <= i <= chars.len(),
            word_end(chars@, pos as int) == word_end(chars@, i as int),
        decreases chars.len() - i,
    {
        i += 1;
    }
    i
}

fn scan_closing_quote(chars: &Vec<char>, pos: usize) -> (r: Option<usize>)
    requires
        pos <= chars.len(),
    ensures
        match r {
            Some(q) => closing_quote(chars@, pos as int) == Some(q as int) && pos <= q
                < chars.len(),
            None => closing_quote(chars@, pos as int) is None,
        },
{
    let mut i: usize = pos;
    while i < chars.len()
        invariant
            pos <= i <= chars.len(),
            closing_quote(chars@, pos as int) == closing_quote(chars@, i as int),
        decreases chars.len() - i,
    {
        let c = chars[i];
        if c == '"' {
            return Some(i);
        } else if c == '\\' {
            if i + 1 < chars.len() {
                i += 2;
            } else {
                return None;
            }
        } else {
            i += 1;
        }
    }
    None
}

/// The end of the run of digits that starts at `from`, within `chars[from..to]`.
fn scan_digits(chars: &Vec<char>, from: usize, to: usize) -> (r: usize)
    requires
        from <= to <= chars.len(),
    ensures
        from <= r <= to,
        forall|j: int| from <= j < r ==> is_digit(#[trigger] chars@[j]),
        r < to ==> !is_digit(chars@[r as int]),
{
    let mut i: usize = from;
    while i < to && char_is_digit(chars[i])
        invariant
            from <= i <= to <= chars.len(),
            forall|j: int| from <= j < i ==> is_digit(#[trigger] chars@[j]),
        decreases to - i,
    {
        i += 1;
    }
    i
}

/// Whether `chars[from..to]` has the shape of an object identifier.
pub fn check_reference(chars: &Vec<char>, from: usize, to: usize) -> (r: bool)
    requires
        from <= to <= chars.len(),
    ensures
        r == is_reference(chars@.subrange(from as int, to as int)),
{
    if to - from != 24 {
        return false;
    }
    let ghost w = chars@.subrange(from as int, to as int);
    let mut i: usize = from;
    while i < to
        invariant
            from <= i <= to <= chars.len(),
            w == chars@.subrange(from as int, to as int),
            forall|j: int| 0 <= j < i - from ==> is_hex_digit(#[trigger] w[j]),
        decreases to - i,
    {
        if !char_is_hex_digit(chars[i]) {
            assert(!is_hex_digit(w[i - from]));
            return false;
        }
        i += 1;
    }
    true
}

fn check_number(chars: &Vec<char>, from: usize, to: usize) -> (r: bool)
    requires
        from <= to <= chars.len(),
    ensures
        r == is_number(chars@.subrange(from as int, to as int)),
{
    let ghost w = chars@.subrange(from as int, to as int);
    let i = scan_digits(chars, from, to);
    let ghost m = i - from;
    if i == to {
        // Digits throughout, or nothing at all.
        proof {
            if to > from {
                assert(all_digits(w)) by {
                    assert forall|j: int| 0 <= j < w.len() implies is_digit(#[trigger] w[j]) by {
                        assert(w[j] == chars@[from + j]);
                    }
                }
            } else {
                assert(!is_number(w));
            }
        }
        return to > from;
    }
    proof {
        // The first character that is no digit stands at `m`: only there can a
        // decimal point split the word into two runs of digits.
        assert(w[m] == chars@[i as int]);
        assert(!all_digits(w));
        assert forall|k: int|
            0 < k < w.len() - 1 && w[k] == '.' && all_digits(#[trigger] w.take(k)) && all_digits(
                w.skip(k + 1),
            ) implies k == m by {
            if k > m {
                assert(w.take(k)[m] == w[m]);
            } else if k < m {
                assert(w[k] == chars@[from + k]);
            }
        }
    }
    if i == from || chars[i] != '.' {
        return false;
    }
    let j = scan_digits(chars, i + 1, to);
    if j == to && j > i + 1 {
        proof {
            assert(all_digits(w.take(m))) by {
                assert forall|x: int| 0 <= x < w.take(m).len() implies is_digit(
                    #[trigger] w.take(m)[x],
                ) by {
                    assert(w.take(m)[x] == chars@[from + x]);
                }
            }
            assert(all_digits(w.skip(m + 1))) by {
                assert forall|x: int| 0 <= x < w.skip(m + 1).len() implies is_digit(
                    #[trigger] w.skip(m + 1)[x],
                ) by {
                    assert(w.skip(m + 1)[x] == chars@[i + 1 + x]);
                }
            }
        }
        true
    } else {
        proof {
            if j < to {
                assert(w.skip(m + 1)[j - (i + 1)] == chars@[j as int]);
                assert(!all_digits(w.skip(m + 1)));
            }
        }
        false
    }
}

fn classify_word(chars: &Vec<char>, from: usize, to: usize) -> (r: Rule)
    requires
        from <= to <= chars.len(),
    ensures
        r == classify(chars@.subrange(from as int, to as int)),
{
    if check_reference(chars, from, to) {
        return Rule::Uuid;
    }
    let word = string_of(chars, from, to);
    if PBXKnownKind::from_tag(word.as_str()).is_some() {
        Rule::Kind
    } else if str_eq(word.as_str(), "YES") || str_eq(word.as_str(), "NO") {
        Rule::Bool
    } else if check_number(chars, from, to) {
        Rule::Number
    } else {
        Rule::Ident
    }
}

fn make_leaf(rule: Rule, chars: &Vec<char>, from: usize, to: usize) -> (n: Node)
    requires
        from <= to <= chars.len(),
    ensures
        n@ == leaf(rule, chars@, from as int, to as int),
{
    let n = Node { rule, text: string_of(chars, from, to), offset: from, children: Vec::new() };
    proof {
        n.lemma_view();
        assert(nodes_view(n.children@) =~= Seq::<NodeView>::empty());
    }
    n
}

fn make_branch(rule: Rule, offset: usize, children: Vec<Node>) -> (n: Node)
    ensures
        n@ == branch(rule, offset as int, nodes_view(children@)),
{
    let n = Node { rule, text: String::new(), offset, children };
    proof {
        n.lemma_view();
    }
    n
}

fn make_branch_of_one(rule: Rule, offset: usize, child: Node) -> (n: Node)
    ensures
        n@ == branch(rule, offset as int, seq![child@]),
{
    let mut children: Vec<Node> = Vec::new();
    children.push(child);
    proof {
        assert(nodes_view(children@) =~= seq![child@]);
    }
    make_branch(rule, offset, children)
}

/// Whether what the recognizer returned is what the grammar says.
pub open spec fn matches_outcome(
    r: Result<(Node, usize), (usize, Expected)>,
    o: Result<Parsed, Failure>,
) -> bool {
    match r {
        Ok((node, next)) => o == Ok::<Parsed, Failure>(Parsed { node: node@, next: next as int }),
        Err((position, expected)) => o == Err::<Parsed, Failure>(
            Failure { position: position as int, expected },
        ),
    }
}

/// Whether the list that the recognizer returned is what the grammar says.
pub open spec fn matches_list(
    r: Result<(Vec<Node>, usize), (usize, Expected)>,
    o: Result<(Seq<NodeView>, int), Failure>,
) -> bool {
    match r {
        Ok((nodes, next)) => o == Ok::<(Seq<NodeView>, int), Failure>(
            (nodes_view(nodes@), next as int),
        ),
        Err((position, expected)) => o == Err::<(Seq<NodeView>, int), Failure>(
            Failure { position: position as int, expected },
        ),
    }
}

/// Where the recognizer stands after a success, and where it gave up.
spec fn within<T>(r: Result<(T, usize), (usize, Expected)>, pos: usize, len: nat) -> bool {
    match r {
        Ok((_, next)) => pos < next <= len,
        Err((position, _)) => position <= len,
    }
}

fn recognize_string(chars: &Vec<char>, pos: usize) -> (r: Result<(Node, usize), (usize, Expected)>)
    requires
        pos <= chars.len(),
    ensures
        matches_outcome(r, parse_string(chars@, pos as int)),
        within(r, pos, chars@.len()),
{
    if !(pos < chars.len() && chars[pos] == '"') {
        return Err((pos, Expected::Token));
    }
    match scan_closing_quote(chars, pos + 1) {
        Some(q) => Ok((make_leaf(Rule::String, chars, pos, q + 1), q + 1)),
        None => Err((pos, Expected::ClosingQuote)),
    }
}

fn recognize_scalar(chars: &Vec<char>, pos: usize) -> (r: Result<(Node, usize), (usize, Expected)>)
    requires
        pos <= chars.len(),
    ensures
        matches_outcome(r, parse_scalar(chars@, pos as int)),
        within(r, pos, chars@.len()),
{
    if pos < chars.len() && chars[pos] == '"' {
        return recognize_string(chars, pos);
    }
    let end = scan_word_end(chars, pos);
    if end <= pos {
        return Err((pos, Expected::Value));
    }
    let rule = classify_word(chars, pos, end);
    Ok((make_leaf(rule, chars, pos, end), end))
}

fn recognize_key(chars: &Vec<char>, pos: usize) -> (r: Result<(Node, usize), (usize, Expected)>)
    requires
        pos <= chars.len(),
    ensures
        matches_outcome(r, parse_key(chars@, pos as int)),
        within(r, pos, chars@.len()),
{
    if pos < chars.len() && chars[pos] == '"' {
        return match recognize_string(chars, pos) {
            Ok((inner, next)) => Ok((make_branch_of_one(Rule::Key, pos, inner), next)),
            Err(failure) => Err(failure),
        };
    }
    let end = scan_word_end(chars, pos);
    if end <= pos {
        return Err((pos, Expected::Key));
    }
    let rule = if check_reference(chars, pos, end) { Rule::Uuid } else { Rule::Ident };
    let inner = make_leaf(rule, chars, pos, end);
    Ok((make_branch_of_one(Rule::Key, pos, inner), end))
}

fn recognize_value(chars: &Vec<char>, pos: usize) -> (r: Result<(Node, usize), (usize, Expected)>)
    requires
        pos <= chars.len(),
    ensures
        matches_outcome(r, parse_value(chars@, pos as int)),
        within(r, pos, chars@.len()),
    decreases chars.len() - pos, 2int,
{
    let inner = if pos < chars.len() && chars[pos] == '(' {
        recognize_array(chars, pos)
    } else if pos < chars.len() && chars[pos] == '{' {
        recognize_object(chars, pos)
    } else {
        recognize_scalar(chars, pos)
    };
    match inner {
        Ok((inner, next)) => Ok((make_branch_of_one(Rule::Value, pos, inner), next)),
        Err(failure) => Err(failure),
    }
}

fn recognize_array(chars: &Vec<char>, pos: usize) -> (r: Result<(Node, usize), (usize, Expected)>)
    requires
        pos <= chars.len(),
    ensures
        matches_outcome(r, parse_array(chars@, pos as int)),
        within(r, pos, chars@.len()),
    decreases chars.len() - pos, 1int,
{
    if !(pos < chars.len() && chars[pos] == '(') {
        return Err((pos, Expected::OpenParen));
    }
    match recognize_elements(chars, pos + 1) {
        Ok((items, next)) => Ok((make_branch(Rule::Array, pos, items), next)),
        Err(failure) => Err(failure),
    }
}

/// Putting one node in front and then some more is putting all of them in front.
proof fn lemma_prepend_all(
    done: Seq<NodeView>,
    node: NodeView,
    rest: Result<(Seq<NodeView>, int), Failure>,
)
    ensures
        prepend_all(done, prepend(node, rest)) == prepend_all(done.push(node), rest),
{
    match rest {
        Ok((nodes, next)) => {
            assert(done + (seq![node] + nodes) =~= done.push(node) + nodes);
        },
        Err(_) => {},
    }
}

/// Puts the nodes `done` in front of a list that was recognized.
pub open spec fn prepend_all(done: Seq<NodeView>, rest: Result<(Seq<NodeView>, int), Failure>) -> Result<
    (Seq<NodeView>, int),
    Failure,
> {
    match rest {
        Ok((nodes, next)) => Ok((done + nodes, next)),
        Err(failure) => Err(failure),
    }
}

fn recognize_elements(chars: &Vec<char>, pos: usize) -> (r: Result<
    (Vec<Node>, usize),
    (usize, Expected),
>)
    requires
        pos <= chars.len(),
    ensures
        matches_list(r, parse_elements(chars@, pos as int)),
        within(r, pos, chars@.len()),
    decreases chars.len() - pos, 3int,
{
    let mut items: Vec<Node> = Vec::new();
    let mut cur: usize = pos;
    proof {
        assert(nodes_view(items@) =~= Seq::<NodeView>::empty());
        assert(prepend_all(Seq::<NodeView>::empty(), parse_elements(chars@, pos as int))
            == parse_elements(chars@, pos as int)) by {
            match parse_elements(chars@, pos as int) {
                Ok((nodes, next)) => {
                    assert(Seq::<NodeView>::empty() + nodes =~= nodes);
                },
                Err(_) => {},
            }
        }
    }
    loop
        invariant
            pos <= cur <= chars.len(),
            parse_elements(chars@, pos as int) == prepend_all(
                nodes_view(items@),
                parse_elements(chars@, cur as int),
            ),
        decreases chars.len() - cur,
    {
        let p = scan_trivia(chars, cur);
        if p < chars.len() && chars[p] == ')' {
            proof {
                assert(nodes_view(items@) + Seq::<NodeView>::empty() =~= nodes_view(items@));
            }
            return Ok((items, p + 1));
        }
        match recognize_value(chars, p) {
            Ok((value, next)) => {
                let q = scan_trivia(chars, next);
                let r = if q < chars.len() && chars[q] == ',' { q + 1 } else { q };
                proof {
                    lemma_prepend_all(
                        nodes_view(items@),
                        value@,
                        parse_elements(chars@, r as int),
                    );
                    assert(nodes_view(items@.push(value)) =~= nodes_view(items@).push(value@));
                }
                items.push(value);
                cur = r;
            },
            Err(failure) => {
                return Err(failure);
            },
        }
    }
}

fn recognize_object(chars: &Vec<char>, pos: usize) -> (r: Result<(Node, usize), (usize, Expected)>)
    requires
        pos <= chars.len(),
    ensures
        matches_outcome(r, parse_object(chars@, pos as int)),
        within(r, pos, chars@.len()),
    decreases chars.len() - pos, 1int,
{
    if !(pos < chars.len() && chars[pos] == '{') {
        return Err((pos, Expected::OpenBrace));
    }
    match recognize_fields(chars, pos + 1) {
        Ok((fields, next)) => Ok((make_branch(Rule::Object, pos, fields), next)),
        Err(failure) => Err(failure),
    }
}

fn recognize_fields(chars: &Vec<char>, pos: usize) -> (r: Result<
    (Vec<Node>, usize),
    (usize, Expected),
>)
    requires
        pos <= chars.len(),
    ensures
        matches_list(r, parse_fields(chars@, pos as int)),
        within(r, pos, chars@.len()),
    decreases chars.len() - pos, 5int,
{
    let mut fields: Vec<Node> = Vec::new();
    let mut cur: usize = pos;
    proof {
        assert(nodes_view(fields@) =~= Seq::<NodeView>::empty());
        assert(prepend_all(Seq::<NodeView>::empty(), parse_fields(chars@, pos as int))
            == parse_fields(chars@, pos as int)) by {
            match parse_fields(chars@, pos as int) {
                Ok((nodes, next)) => {
                    assert(Seq::<NodeView>::empty() + nodes =~= nodes);
                },
                Err(_) => {},
            }
        }
    }
    loop
        invariant
            pos <= cur <= chars.len(),
            parse_fields(chars@, pos as int) == prepend_all(
                nodes_view(fields@),
                parse_fields(chars@, cur as int),
            ),
        decreases chars.len() - cur,
    {
        let p = scan_trivia(chars, cur);
        if p < chars.len() && chars[p] == '}' {
            proof {
                assert(nodes_view(fields@) + Seq::<NodeView>::empty() =~= nodes_view(fields@));
            }
            return Ok((fields, p + 1));
        }
        match recognize_field(chars, p) {
            Ok((field, next)) => {
                proof {
                    lemma_prepend_all(
                        nodes_view(fields@),
                        field@,
                        parse_fields(chars@, next as int),
                    );
                    assert(nodes_view(fields@.push(field)) =~= nodes_view(fields@).push(field@));
                }
                fields.push(field);
                cur = next;
            },
            Err(failure) => {
                return Err(failure);
            },
        }
    }
}

fn recognize_field(chars: &Vec<char>, pos: usize) -> (r: Result<(Node, usize), (usize, Expected)>)
    requires
        pos <= chars.len(),
    ensures
        matches_outcome(r, parse_field(chars@, pos as int)),
        within(r, pos, chars@.len()),
    decreases chars.len() - pos, 4int,
{
    let (key, after_key) = match recognize_key(chars, pos) {
        Ok(found) => found,
        Err(failure) => {
            return Err(failure);
        },
    };
    let e = scan_trivia(chars, after_key);
    if !(e < chars.len() && chars[e] == '=') {
        return Err((e, Expected::Equals));
    }
    let q = scan_trivia(chars, e + 1);
    let (value, after_value) = match recognize_value(chars, q) {
        Ok(found) => found,
        Err(failure) => {
            return Err(failure);
        },
    };
    let t = scan_trivia(chars, after_value);
    if !(t < chars.len() && chars[t] == ';') {
        return Err((t, Expected::Semicolon));
    }
    let ghost key_view = key@;
    let ghost value_view = value@;
    let mut children: Vec<Node> = Vec::new();
    children.push(key);
    children.push(value);
    proof {
        assert(nodes_view(children@) =~= seq![key_view, value_view]);
    }
    Ok((make_branch(Rule::Field, pos, children), t + 1))
}

fn recognize_file(chars: &Vec<char>, pos: usize) -> (r: Result<(Node, usize), (usize, Expected)>)
    requires
        pos <= chars.len(),
    ensures
        matches_outcome(r, parse_file(chars@, pos as int)),
        within(r, pos, chars@.len()),
{
    match recognize_object(chars, pos) {
        Ok((object, next)) => {
            let end = scan_trivia(chars, next);
            if end >= chars.len() {
                Ok((make_branch_of_one(Rule::File, pos, object), end))
            } else {
                Err((end, Expected::EndOfInput))
            }
        },
        Err(failure) => Err(failure),
    }
}

fn recognize_token(rule: Rule, chars: &Vec<char>, pos: usize) -> (r: Result<
    (Node, usize),
    (usize, Expected),
>)
    requires
        pos <= chars.len(),
    ensures
        matches_outcome(r, parse_token(rule, chars@, pos as int)),
        within(r, pos, chars@.len()),
{
    match recognize_scalar(chars, pos) {
        Ok((token, next)) => {
            proof {
                token.lemma_view();
            }
            if token.rule == rule {
                Ok((token, next))
            } else {
                Err((pos, Expected::Token))
            }
        },
        Err((position, expected)) => match expected {
            Expected::ClosingQuote => Err((position, expected)),
            _ => Err((pos, Expected::Token)),
        },
    }
}

/// The error that a failure of the grammar is reported as: the position, what
/// was looked for, and the character found there (nothing at the end of the text).
pub open spec fn error_of(s: Seq<char>, failure: Failure) -> PBXErrorView {
    PBXErrorView::ParseError {
        position: failure.position as nat,
        expected: failure.expected,
        found: if 0 <= failure.position < s.len() {
            s.subrange(failure.position, failure.position + 1)
        } else {
            Seq::empty()
        },
    }
}

/// The parse tree that `rule` gives to `s`, or the error it ends in.
pub open spec fn tree_of(rule: Rule, s: Seq<char>) -> Result<NodeView, PBXErrorView> {
    match parse_rule(rule, s) {
        Ok(parsed) => Ok(parsed.node),
        Err(failure) => Err(error_of(s, failure)),
    }
}

/// Reads `input` by the rule `rule`, from its first token on.
pub fn recognize(rule: Rule, input: &str) -> (r: Result<Node, PBXError>)
    ensures
        crate::error::view_of_result(r) == tree_of(rule, input@),
{
    let chars = chars_of(input);
    let pos = scan_trivia(&chars, 0);
    let outcome = match rule {
        Rule::File => recognize_file(&chars, pos),
        Rule::Object => recognize_object(&chars, pos),
        Rule::Field => recognize_field(&chars, pos),
        Rule::Key => recognize_key(&chars, pos),
        Rule::Value => recognize_value(&chars, pos),
        Rule::Array => recognize_array(&chars, pos),
        _ => recognize_token(rule, &chars, pos),
    };
    match outcome {
        Ok((node, _)) => Ok(node),
        Err((position, expected)) => {
            let found = if position < chars.len() {
                string_of(&chars, position, position + 1)
            } else {
                String::new()
            };
            Err(PBXError::ParseError { position, expected, found })
        },
    }
}

} // verus!
