//! The recognizers: executable code that reads a source text as the
//! definitions of the syntax say.

use crate::delimiter::{lemma_unbalanced_close_bounds, take_unbalanced};
use crate::expression::{Expression, Production};
use crate::failure::{frames_of, Context, Failure, FailureKind, Frame, ParseFailure};
use crate::grammar::productions_of;
use crate::laws::{lemma_identifier_alone, lemma_rules_end_with_terminators};
use crate::node::{lemma_tree_of_multiple, trees_of, Node, RegexExtKind, SymbolKind, Tree};
use crate::syntax;
use crate::syntax::{Bracket, Parsed};
use crate::text::Source;
use vstd::prelude::*;
use vstd::string::StrSliceExecFns;

verus! {

/// What a recognizer made of the text at a cursor.
#[derive(Debug, PartialEq, Eq)]
pub enum Step<T> {
    /// A match, and the cursor behind it.
    Match(T, usize),
    /// No match: another recognizer may be tried.
    Miss,
    /// A bracket that is never closed, with the trace so far.
    Abort(Vec<Frame>),
}

/// The trace of one frame.
pub fn one_frame(at: usize, context: Context) -> (trace: Vec<Frame>)
    ensures
        frames_of(trace@) == seq![(at as int, context)],
{
    let mut trace: Vec<Frame> = Vec::new();
    trace.push(Frame { position: at, context });
    trace
}

/// A trace with one more frame at its outer end.
pub fn with_frame(trace: Vec<Frame>, at: usize, context: Context) -> (longer: Vec<Frame>)
    ensures
        frames_of(longer@) == frames_of(trace@).push((at as int, context)),
{
    let mut longer = trace;
    longer.push(Frame { position: at, context });
    longer
}

/// The value of a step that carries a node.
pub open spec fn tree_step(step: Step<Node>) -> Parsed<Tree> {
    match step {
        Step::Match(node, next) => Parsed::Match { value: node@, next: next as int },
        Step::Miss => Parsed::Miss,
        Step::Abort(trace) => Parsed::Abort { trace: frames_of(trace@) },
    }
}

/// The value of a step that carries a cursor.
pub open spec fn cursor_step(step: Step<usize>) -> Parsed<int> {
    match step {
        Step::Match(at, next) => Parsed::Match { value: at as int, next: next as int },
        Step::Miss => Parsed::Miss,
        Step::Abort(trace) => Parsed::Abort { trace: frames_of(trace@) },
    }
}

/// The value of a step that carries an operator and its right operand.
pub open spec fn operand_step(step: Step<(SymbolKind, Node)>) -> Parsed<(SymbolKind, Tree)> {
    match step {
        Step::Match(pair, next) => Parsed::Match { value: (pair.0, pair.1@), next: next as int },
        Step::Miss => Parsed::Miss,
        Step::Abort(trace) => Parsed::Abort { trace: frames_of(trace@) },
    }
}

/// Whether a character is a space, a tab, a carriage return or a line feed.
pub fn is_space(c: char) -> (space: bool)
    ensures
        space == syntax::is_space(c),
{
    c == ' ' || c == '\t' || c == '\r' || c == '\n'
}

/// Whether a character has the Unicode property `White_Space`.
pub fn is_whitespace(c: char) -> (white: bool)
    ensures
        white == syntax::is_whitespace(c),
{
    ('\u{9}' <= c && c <= '\u{d}') || c == ' ' || c == '\u{85}' || c == '\u{a0}' || c
        == '\u{1680}' || ('\u{2000}' <= c && c <= '\u{200a}') || c == '\u{2028}' || c
        == '\u{2029}' || c == '\u{202f}' || c == '\u{205f}' || c == '\u{3000}'
}

/// Whether a character may start an identifier.
pub fn starts_name(c: char) -> (starts: bool)
    ensures
        starts == syntax::starts_name(c),
{
    ('a' <= c && c <= 'z') || ('A' <= c && c <= 'Z') || c == '_'
}

/// Whether a character may follow the first one of an identifier.
pub fn continues_name(c: char) -> (continues: bool)
    ensures
        continues == syntax::continues_name(c),
{
    ('a' <= c && c <= 'z') || ('A' <= c && c <= 'Z') || ('0' <= c && c <= '9') || c == '_'
}

/// Whether a character may follow a backslash inside a literal with the
/// given quote.
pub fn is_escapable(c: char, quote: char) -> (escapable: bool)
    ensures
        escapable == syntax::is_escapable(c, quote),
{
    c == 't' || c == 'b' || c == 'n' || c == 'r' || c == 'f' || c == '/' || c == quote
}

/// Moves a cursor over the spaces in front of it.
pub fn skip_spaces(source: &Source, pos: usize, end: usize) -> (at: usize)
    requires
        pos <= end <= source@.len(),
    ensures
        at == syntax::skip_spaces(source@, pos as int, end as int),
        pos <= at <= end,
{
    let mut at: usize = pos;
    while at < end && is_space(source.at(at))
        invariant
                pos <= at <= end <= source@.len(),
            syntax::skip_spaces(source@, pos as int, end as int) == syntax::skip_spaces(
                source@,
                at as int,
                end as int,
            ),
        decreases end - at,
    {
        at += 1;
    }
    at
}

/// Where the identifier at a cursor stops, if one starts there.
pub fn identifier_end(source: &Source, pos: usize, end: usize) -> (stop: Option<usize>)
    requires
        pos <= end <= source@.len(),
    ensures
        match stop {
            Some(stop) => syntax::identifier_at(source@, pos as int, end as int) == Some(
                stop as int,
            ) && pos < stop <= end,
            None => syntax::identifier_at(source@, pos as int, end as int) is None,
        },
{
    if pos < end && starts_name(source.at(pos)) {
        let mut at: usize = pos + 1;
        while at < end && continues_name(source.at(at))
            invariant
                        pos < at <= end <= source@.len(),
                syntax::name_end(source@, pos + 1, end as int) == syntax::name_end(
                    source@,
                    at as int,
                    end as int,
                ),
            decreases end - at,
        {
            at += 1;
        }
        Some(at)
    } else {
        None
    }
}

/// Where the quote stands that closes the literal whose text starts at
/// `start`.
pub fn literal_close(source: &Source, start: usize, end: usize, quote: char) -> (close: Option<
    usize,
>)
    requires
        start <= end <= source@.len(),
    ensures
        match close {
            Some(close) => syntax::literal_close(
                source@,
                start as int,
                start as int,
                end as int,
                quote,
            ) == Some(close as int) && start < close < end,
            None => syntax::literal_close(source@, start as int, start as int, end as int, quote)
                is None,
        },
{
    let mut at: usize = start;
    while at < end
        invariant
                start <= at <= end <= source@.len(),
            syntax::literal_close(source@, start as int, start as int, end as int, quote)
                == syntax::literal_close(source@, start as int, at as int, end as int, quote),
        decreases end - at,
    {
        let c = source.at(at);
        if c == quote {
            if at > start {
                return Some(at);
            } else {
                return None;
            }
        } else if c == '\\' {
            if at + 1 < end && is_escapable(source.at(at + 1), quote) {
                at += 2;
            } else {
                return None;
            }
        } else {
            at += 1;
        }
    }
    None
}

/// A string literal at the cursor.
pub fn parse_string(source: &Source, pos: usize, end: usize) -> (step: Step<Node>)
    requires
        pos <= end <= source@.len(),
    ensures
        tree_step(step) == syntax::string_at(source@, pos as int, end as int),
        step matches Step::Match(_, next) ==> pos < next <= end,
{
    if pos < end && (source.at(pos) == '\'' || source.at(pos) == '"') {
        match literal_close(source, pos + 1, end, source.at(pos)) {
            Some(close) => Step::Match(Node::String(source.copy(pos + 1, close)), close + 1),
            None => Step::Miss,
        }
    } else {
        Step::Miss
    }
}

/// A regex literal at the cursor.
pub fn parse_regex_string(source: &Source, pos: usize, end: usize) -> (step: Step<Node>)
    requires
        pos <= end <= source@.len(),
    ensures
        tree_step(step) == syntax::regex_string_at(source@, pos as int, end as int),
        step matches Step::Match(_, next) ==> pos < next <= end,
{
    if pos < end && end - pos > 1 && source.at(pos) == '#' && (source.at(pos + 1) == '\''
        || source.at(pos + 1) == '"') {
        match literal_close(source, pos + 2, end, source.at(pos + 1)) {
            Some(close) => Step::Match(Node::RegexString(source.copy(pos + 2, close)), close + 1),
            None => Step::Miss,
        }
    } else {
        Step::Miss
    }
}

/// A reference to a rule at the cursor.
pub fn parse_terminal(source: &Source, pos: usize, end: usize) -> (step: Step<Node>)
    requires
        pos <= end <= source@.len(),
    ensures
        tree_step(step) == syntax::terminal_at(source@, pos as int, end as int),
        step matches Step::Match(_, next) ==> pos < next <= end,
{
    let start = skip_spaces(source, pos, end);
    match identifier_end(source, start, end) {
        Some(stop) => Step::Match(
            Node::Terminal(source.copy(start, stop)),
            skip_spaces(source, stop, end),
        ),
        None => Step::Miss,
    }
}

/// A postfix operator after optional spaces at the cursor.
pub fn parse_regex_ext(source: &Source, pos: usize, end: usize) -> (found: Option<
    (RegexExtKind, usize),
>)
    requires
        pos <= end <= source@.len(),
    ensures
        match found {
            Some((kind, next)) => syntax::regex_ext_at(source@, pos as int, end as int) == Some(
                (kind, next as int),
            ) && pos < next <= end,
            None => syntax::regex_ext_at(source@, pos as int, end as int) is None,
        },
{
    let at = skip_spaces(source, pos, end);
    if at < end {
        let c = source.at(at);
        if c == '*' {
            Some((RegexExtKind::Repeat0, at + 1))
        } else if c == '+' {
            Some((RegexExtKind::Repeat1, at + 1))
        } else if c == '?' {
            Some((RegexExtKind::Optional, at + 1))
        } else {
            None
        }
    } else {
        None
    }
}

/// The extent of a bracketed construct at the cursor: a match gives the
/// cursor of the closing bracket.
pub fn parse_delimited_node(
    source: &Source,
    pos: usize,
    end: usize,
    opening_bracket: char,
    closing_bracket: char,
) -> (step: Step<usize>)
    requires
        source@.len() <= i32::MAX,
        pos <= end <= source@.len(),
    ensures
        cursor_step(step) == syntax::delimited_at(
            source@,
            pos as int,
            end as int,
            opening_bracket,
            closing_bracket,
        ),
        step matches Step::Match(close, next) ==> pos < close < end && next == close + 1,
{
    if pos < end && source.at(pos) == opening_bracket {
        let rest = source.slice(pos + 1, end);
        proof {
            lemma_unbalanced_close_bounds(rest@, opening_bracket, closing_bracket, 0, 0);
        }
        match take_unbalanced(rest, opening_bracket, closing_bracket) {
            Some(inner) => {
                let length = inner.unicode_len();
                if length < end - (pos + 1) {
                    return Step::Match(pos + 1 + length, pos + length + 2);
                }
            },
            None => {},
        }
        Step::Abort(one_frame(pos, Context::IncompleteDelimitedNode))
    } else {
        Step::Miss
    }
}

/// A group at the cursor: `( ... )`.
pub fn parse_group(source: &Source, pos: usize, end: usize) -> (step: Step<Node>)
    requires
        source@.len() <= i32::MAX,
        pos <= end <= source@.len(),
    ensures
        tree_step(step) == syntax::bracket_at(source@, pos as int, end as int, Bracket::Group),
        step matches Step::Match(_, next) ==> pos < next <= end,
    decreases syntax::span(pos as int, end as int), 0nat,
{
    match parse_delimited_node(source, pos, end, '(', ')') {
        Step::Match(close, next) => match parse_multiple(source, pos + 1, close) {
            Step::Match(node, _) => Step::Match(Node::Group(Box::new(node)), next),
            Step::Miss => Step::Miss,
            Step::Abort(trace) => Step::Abort(with_frame(trace, pos, Context::Group)),
        },
        Step::Miss => Step::Miss,
        Step::Abort(trace) => Step::Abort(trace),
    }
}

/// An optional at the cursor: `[ ... ]`.
pub fn parse_optional(source: &Source, pos: usize, end: usize) -> (step: Step<Node>)
    requires
        source@.len() <= i32::MAX,
        pos <= end <= source@.len(),
    ensures
        tree_step(step) == syntax::bracket_at(source@, pos as int, end as int, Bracket::Optional),
        step matches Step::Match(_, next) ==> pos < next <= end,
    decreases syntax::span(pos as int, end as int), 0nat,
{
    match parse_delimited_node(source, pos, end, '[', ']') {
        Step::Match(close, next) => match parse_multiple(source, pos + 1, close) {
            Step::Match(node, _) => Step::Match(Node::Optional(Box::new(node)), next),
            Step::Miss => Step::Miss,
            Step::Abort(trace) => Step::Abort(with_frame(trace, pos, Context::Optional)),
        },
        Step::Miss => Step::Miss,
        Step::Abort(trace) => Step::Abort(trace),
    }
}

/// A repeat at the cursor: `{ ... }`.
pub fn parse_repeat(source: &Source, pos: usize, end: usize) -> (step: Step<Node>)
    requires
        source@.len() <= i32::MAX,
        pos <= end <= source@.len(),
    ensures
        tree_step(step) == syntax::bracket_at(source@, pos as int, end as int, Bracket::Repeat),
        step matches Step::Match(_, next) ==> pos < next <= end,
    decreases syntax::span(pos as int, end as int), 0nat,
{
    match parse_delimited_node(source, pos, end, '{', '}') {
        Step::Match(close, next) => match parse_multiple(source, pos + 1, close) {
            Step::Match(node, _) => Step::Match(Node::Repeat(Box::new(node)), next),
            Step::Miss => Step::Miss,
            Step::Abort(trace) => Step::Abort(with_frame(trace, pos, Context::Repeat)),
        },
        Step::Miss => Step::Miss,
        Step::Abort(trace) => Step::Abort(trace),
    }
}

/// A concatenation operator at the cursor, with its right operand.
pub fn parse_concatenation(source: &Source, pos: usize, end: usize) -> (step: Step<
    (SymbolKind, Node),
>)
    requires
        source@.len() <= i32::MAX,
        pos <= end <= source@.len(),
    ensures
        operand_step(step) == syntax::operand_at(
            source@,
            pos as int,
            end as int,
            SymbolKind::Concatenation,
        ),
        step matches Step::Match(_, next) ==> pos < next <= end,
    decreases syntax::span(pos as int, end as int), 0nat,
{
    if pos < end && source.at(pos) == ',' {
        match parse_node(source, pos + 1, end) {
            Step::Match(node, next) => Step::Match((SymbolKind::Concatenation, node), next),
            Step::Miss => Step::Miss,
            Step::Abort(trace) => Step::Abort(trace),
        }
    } else {
        Step::Miss
    }
}

/// An alternation operator at the cursor, with its right operand.
pub fn parse_alternation(source: &Source, pos: usize, end: usize) -> (step: Step<
    (SymbolKind, Node),
>)
    requires
        source@.len() <= i32::MAX,
        pos <= end <= source@.len(),
    ensures
        operand_step(step) == syntax::operand_at(
            source@,
            pos as int,
            end as int,
            SymbolKind::Alternation,
        ),
        step matches Step::Match(_, next) ==> pos < next <= end,
    decreases syntax::span(pos as int, end as int), 0nat,
{
    if pos < end && source.at(pos) == '|' {
        match parse_node(source, pos + 1, end) {
            Step::Match(node, next) => Step::Match((SymbolKind::Alternation, node), next),
            Step::Miss => Step::Miss,
            Step::Abort(trace) => Step::Abort(trace),
        }
    } else {
        Step::Miss
    }
}

/// An operator after optional spaces at the cursor, with its right operand.
pub fn parse_symbol(source: &Source, pos: usize, end: usize) -> (step: Step<(SymbolKind, Node)>)
    requires
        source@.len() <= i32::MAX,
        pos <= end <= source@.len(),
    ensures
        operand_step(step) == syntax::symbol_at(source@, pos as int, end as int),
        step matches Step::Match(_, next) ==> pos < next <= end,
    decreases syntax::span(pos as int, end as int), 1nat,
{
    let at = skip_spaces(source, pos, end);
    match parse_concatenation(source, at, end) {
        Step::Miss => parse_alternation(source, at, end),
        found => found,
    }
}

/// One node at the cursor: an atom with its postfix operator and with the
/// operator and right operand that follow it, where there are any.
pub fn parse_node(source: &Source, pos: usize, end: usize) -> (step: Step<Node>)
    requires
        source@.len() <= i32::MAX,
        pos <= end <= source@.len(),
    ensures
        tree_step(step) == syntax::node_at(source@, pos as int, end as int),
        step matches Step::Match(_, next) ==> pos < next <= end,
    decreases syntax::span(pos as int, end as int), 2nat,
{
    let start = skip_spaces(source, pos, end);
    let atom = match parse_group(source, start, end) {
        Step::Miss => match parse_optional(source, start, end) {
            Step::Miss => match parse_repeat(source, start, end) {
                Step::Miss => match parse_string(source, start, end) {
                    Step::Miss => match parse_regex_string(source, start, end) {
                        Step::Miss => parse_terminal(source, start, end),
                        found => found,
                    },
                    found => found,
                },
                found => found,
            },
            found => found,
        },
        found => found,
    };
    match atom {
        Step::Match(atom, after_atom) => {
            let ghost atom_tree = atom@;
            let (left, after) = match parse_regex_ext(source, after_atom, end) {
                Some((kind, next)) => (Node::RegexExt(Box::new(atom), kind), next),
                None => (atom, after_atom),
            };
            assert((left@, after as int) == match syntax::regex_ext_at(
                source@,
                after_atom as int,
                end as int,
            ) {
                Some((kind, next)) => (Tree::RegexExt(Box::new(atom_tree), kind), next),
                None => (atom_tree, after_atom as int),
            });
            match parse_symbol(source, after, end) {
                Step::Match(operand, next) => {
                    let (kind, right) = operand;
                    Step::Match(Node::Symbol(Box::new(left), kind, Box::new(right)), next)
                },
                Step::Miss => Step::Match(left, after),
                Step::Abort(trace) => Step::Abort(trace),
            }
        },
        Step::Miss => Step::Miss,
        Step::Abort(trace) => Step::Abort(trace),
    }
}

/// The result of a collection of nodes with more nodes in front of it.
pub open spec fn after_nodes(nodes: Seq<Tree>, others: Parsed<Seq<Tree>>) -> Parsed<Seq<Tree>> {
    match others {
        Parsed::Match { value, next } => Parsed::Match { value: nodes + value, next },
        Parsed::Miss => Parsed::Miss,
        Parsed::Abort { trace } => Parsed::Abort { trace },
    }
}

/// A sequence of terms at the cursor: one node or more. One node stands for
/// itself; two or more stand in a `Multiple`.
pub fn parse_multiple(source: &Source, pos: usize, end: usize) -> (step: Step<Node>)
    requires
        source@.len() <= i32::MAX,
        pos <= end <= source@.len(),
    ensures
        tree_step(step) == syntax::sequence_at(source@, pos as int, end as int),
        step matches Step::Match(_, next) ==> pos < next <= end,
    decreases syntax::span(pos as int, end as int), 4nat,
{
    let start = skip_spaces(source, pos, end);
    let mut nodes: Vec<Node> = Vec::new();
    let mut at: usize = start;
    loop
        invariant
            source@.len() <= i32::MAX,
            pos <= start <= at <= end <= source@.len(),
            start == syntax::skip_spaces(source@, pos as int, end as int),
            nodes.len() > 0 ==> start < at,
            syntax::nodes_from(source@, start as int, end as int) == after_nodes(
                trees_of(nodes@),
                syntax::nodes_from(source@, at as int, end as int),
            ),
        decreases end - at,
    {
        match parse_node(source, at, end) {
            Step::Match(node, next) => {
                proof {
                    let rest = syntax::nodes_from(source@, next as int, end as int);
                    assert(after_nodes(trees_of(nodes@), after_nodes(seq![node@], rest))
                        =~= after_nodes(trees_of(nodes@.push(node)), rest)) by {
                        if let Parsed::Match { value, next } = rest {
                            assert(trees_of(nodes@) + (seq![node@] + value) =~= trees_of(
                                nodes@.push(node),
                            ) + value);
                        }
                    }
                }
                nodes.push(node);
                at = next;
            },
            Step::Miss => {
                if nodes.len() == 0 {
                    return Step::Miss;
                } else if nodes.len() == 1 {
                    let node = nodes.pop().unwrap();
                    return Step::Match(node, at);
                } else {
                    proof {
                        lemma_tree_of_multiple(nodes);
                    }
                    return Step::Match(Node::Multiple(nodes), at);
                }
            },
            Step::Abort(trace) => {
                return Step::Abort(trace);
            },
        }
    }
}

/// The failure of a rule that lacks, at the cursor `at`, the part that
/// `context` names.
pub fn malformed(at: usize, context: Context) -> (failure: ParseFailure)
    ensures
        failure@ == syntax::malformed(at as int, context),
{
    ParseFailure { kind: FailureKind::MalformedRule, trace: one_frame(at, context) }
}

/// A failure with one more frame at the outer end of its trace.
pub fn within(failure: ParseFailure, at: usize, context: Context) -> (outer: ParseFailure)
    ensures
        outer@ == syntax::within(failure@, at as int, context),
{
    ParseFailure { kind: failure.kind, trace: with_frame(failure.trace, at, context) }
}

/// The left-hand side of a rule at the cursor: a match gives the cursors at
/// which the name starts and stops, and the cursor behind the definition
/// sign.
pub fn parse_lhs(source: &Source, pos: usize, end: usize) -> (lhs: Result<
    (usize, usize, usize),
    ParseFailure,
>)
    requires
        pos <= end <= source@.len(),
    ensures
        match lhs {
            Ok((from, to, next)) => syntax::lhs_at(source@, pos as int, end as int) == Ok::<
                (int, int, int),
                Failure,
            >((from as int, to as int, next as int)) && pos <= from < to <= next <= end,
            Err(failure) => syntax::lhs_at(source@, pos as int, end as int) == Err::<
                (int, int, int),
                Failure,
            >(failure@),
        },
{
    let start = skip_spaces(source, pos, end);
    match identifier_end(source, start, end) {
        Some(stop) => {
            let sign = skip_spaces(source, stop, end);
            if sign < end && source.at(sign) == '=' {
                Ok((start, stop, sign + 1))
            } else if sign < end && end - sign > 2 && source.at(sign) == ':' && source.at(sign + 1)
                == ':' && source.at(sign + 2) == '=' {
                Ok((start, stop, sign + 3))
            } else {
                Err(malformed(sign, Context::Definition))
            }
        },
        None => Err(malformed(start, Context::Identifier)),
    }
}

/// The right-hand side of a rule at the cursor: a match gives the node of
/// the sequence of terms and the cursor behind the `;`.
pub fn parse_rhs(source: &Source, pos: usize, end: usize) -> (rhs: Result<
    (Node, usize),
    ParseFailure,
>)
    requires
        source@.len() <= i32::MAX,
        pos <= end <= source@.len(),
    ensures
        match rhs {
            Ok((node, next)) => syntax::rhs_at(source@, pos as int, end as int) == Ok::<
                (Tree, int),
                Failure,
            >((node@, next as int)) && pos < next <= end,
            Err(failure) => syntax::rhs_at(source@, pos as int, end as int) == Err::<
                (Tree, int),
                Failure,
            >(failure@),
        },
{
    let start = skip_spaces(source, pos, end);
    match parse_multiple(source, start, end) {
        Step::Match(node, next) => {
            let semicolon = skip_spaces(source, next, end);
            if semicolon < end && source.at(semicolon) == ';' {
                Ok((node, semicolon + 1))
            } else {
                Err(malformed(semicolon, Context::Terminator))
            }
        },
        Step::Miss => Err(malformed(start, Context::Term)),
        Step::Abort(trace) => Err(ParseFailure { kind: FailureKind::UnbalancedDelimiter, trace }),
    }
}

/// Moves a cursor over the whitespace in front of it, up to the end of the
/// text.
pub fn skip_whitespace(source: &Source, pos: usize) -> (at: usize)
    requires
        pos <= source@.len(),
    ensures
        at == syntax::skip_whitespace(source@, pos as int),
        pos <= at <= source@.len(),
{
    let end = source.len();
    let mut at: usize = pos;
    while at < end && is_whitespace(source.at(at))
        invariant
                end == source@.len(),
            pos <= at <= end,
            syntax::skip_whitespace(source@, pos as int) == syntax::skip_whitespace(
                source@,
                at as int,
            ),
        decreases end - at,
    {
        at += 1;
    }
    at
}

/// The result of reading rules with more rules in front of them.
pub open spec fn after_rules(
    rules: Seq<Production>,
    others: Result<Seq<Production>, Failure>,
) -> Result<Seq<Production>, Failure> {
    match others {
        Ok(more) => Ok(rules + more),
        Err(failure) => Err(failure),
    }
}

/// Reads a source text as a grammar: rule after rule up to the end of the
/// text. Hands back the text as it was given, and the rules in order. The
/// first rule that cannot be read makes the whole text fail.
pub fn parse_expressions(input: &str) -> (parsed: Result<(&str, Vec<Expression>), ParseFailure>)
    requires
        input@.len() <= i32::MAX,
    ensures
        match parsed {
            Ok((rest, expressions)) => rest@ == input@ && syntax::grammar_of(input@) == Ok::<
                Seq<Production>,
                Failure,
            >(productions_of(expressions@)) && expressions@.len() == syntax::terminators_from(
                input@,
                0,
            ).len(),
            Err(failure) => syntax::grammar_of(input@) == Err::<Seq<Production>, Failure>(
                failure@,
            ),
        },
{
    proof {
        lemma_rules_end_with_terminators(input@, 0);
    }
    let source = Source::new(input);
    let end = source.len();
    let mut expressions: Vec<Expression> = Vec::new();
    let mut at: usize = 0;
    while at < end
        invariant
            source@.len() <= i32::MAX,
            source@ == input@,
            end == source@.len(),
            at <= end,
            syntax::grammar_of(input@) == after_rules(
                productions_of(expressions@),
                syntax::rules_from(input@, at as int),
            ),
        decreases end - at,
    {
        let start = skip_spaces(&source, at, end);
        let (from, to, body) = match parse_lhs(&source, at, end) {
            Ok(lhs) => lhs,
            Err(failure) => {
                return Err(within(failure, start, Context::Rule));
            },
        };
        let (rhs, next) = match parse_rhs(&source, body, end) {
            Ok(rhs) => rhs,
            Err(failure) => {
                return Err(within(failure, start, Context::Rule));
            },
        };
        let expression = Expression { lhs: source.copy(from, to), rhs };
        proof {
            let rest = syntax::rules_from(input@, syntax::skip_whitespace(input@, next as int));
            if let Ok(more) = rest {
                assert(productions_of(expressions@) + (seq![expression@] + more)
                    =~= productions_of(expressions@.push(expression)) + more);
            }
        }
        expressions.push(expression);
        at = skip_whitespace(&source, next);
    }
    Ok((input, expressions))
}

/// An identifier at the start of a text: a letter or `_`, then letters,
/// digits and `_` as far as they go. Hands back the text behind the
/// identifier, and the identifier.
pub fn identifier(input: &str) -> (found: Result<(&str, &str), ParseFailure>)
    ensures
        match found {
            Ok((rest, name)) => syntax::identifier_at(input@, 0, input@.len() as int)
                matches Some(stop) && name@ == input@.take(stop) && rest@ == input@.skip(stop)
                && syntax::is_name(name@) && name@ + rest@ == input@,
            Err(failure) => syntax::identifier_at(input@, 0, input@.len() as int) is None
                && failure@ == (Failure {
                kind: FailureKind::Recognition,
                trace: seq![(0int, Context::Identifier)],
            }),
        },
{
    proof {
        lemma_identifier_alone(input@, 0, input@.len() as int);
    }
    let source = Source::new(input);
    let end = source.len();
    match identifier_end(&source, 0, end) {
        Some(stop) => Ok((source.slice(stop, end), source.slice(0, stop))),
        None => {
            Err(
                ParseFailure {
                    kind: FailureKind::Recognition,
                    trace: one_frame(0, Context::Identifier),
                },
            )
        },
    }
}

} // verus!
