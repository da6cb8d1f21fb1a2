//! What the text of a grammar means.
//!
//! Every recognizer is a function of the source text `s`, a cursor `pos` and
//! the end `end` of the text that it may read. Cursors count characters from
//! the start of the source text. A recognizer that matches says where the
//! text that follows its match starts.

use crate::delimiter::{lemma_unbalanced_close_bounds, unbalanced_close};
use crate::expression::Production;
use crate::failure::{Context, Failure, FailureKind};
use crate::node::{RegexExtKind, SymbolKind, Tree};
use vstd::prelude::*;

verus! {

/// What a recognizer makes of the text at a cursor.
pub enum Parsed<T> {
    /// The text starts with what the recognizer looks for; `next` is where
    /// the rest of the text starts.
    Match { value: T, next: int },
    /// The text does not start with what the recognizer looks for. Another
    /// recognizer may be tried at the same cursor.
    Miss,
    /// A bracket was opened and never closed. Nothing else is tried.
    Abort { trace: Seq<(int, Context)> },
}

impl<T> Parsed<T> {
    /// Ordered choice: this outcome, unless it is a miss; then the other.
    pub open spec fn or(self, other: Parsed<T>) -> Parsed<T> {
        if self is Miss {
            other
        } else {
            self
        }
    }
}

/// The kinds of bracketed construct.
pub enum Bracket {
    /// `( ... )`
    Group,
    /// `[ ... ]`
    Optional,
    /// `{ ... }`
    Repeat,
}

impl Bracket {
    /// The character that opens the construct.
    pub open spec fn opening(self) -> char {
        match self {
            Bracket::Group => '(',
            Bracket::Optional => '[',
            Bracket::Repeat => '{',
        }
    }

    /// The character that closes the construct.
    pub open spec fn closing(self) -> char {
        match self {
            Bracket::Group => ')',
            Bracket::Optional => ']',
            Bracket::Repeat => '}',
        }
    }

    /// The frame that a failure inside the construct passes through.
    pub open spec fn context(self) -> Context {
        match self {
            Bracket::Group => Context::Group,
            Bracket::Optional => Context::Optional,
            Bracket::Repeat => Context::Repeat,
        }
    }

    /// The node of the construct around the tree of its inside.
    pub open spec fn wrap(self, inner: Tree) -> Tree {
        match self {
            Bracket::Group => Tree::Group(Box::new(inner)),
            Bracket::Optional => Tree::Optional(Box::new(inner)),
            Bracket::Repeat => Tree::Repeat(Box::new(inner)),
        }
    }
}

/// Space, tab, carriage return and line feed: the whitespace between tokens.
pub open spec fn is_space(c: char) -> bool {
    c == ' ' || c == '\t' || c == '\r' || c == '\n'
}

/// The letters `a` to `z` and `A` to `Z`.
pub open spec fn is_letter(c: char) -> bool {
    ('a' <= c && c <= 'z') || ('A' <= c && c <= 'Z')
}

/// The digits `0` to `9`.
pub open spec fn is_digit(c: char) -> bool {
    '0' <= c && c <= '9'
}

/// A character that may start an identifier.
pub open spec fn starts_name(c: char) -> bool {
    is_letter(c) || c == '_'
}

/// A character that may follow the first one of an identifier.
pub open spec fn continues_name(c: char) -> bool {
    is_letter(c) || is_digit(c) || c == '_'
}

/// The first cursor from `pos` on that is not at a space, or `end`.
pub open spec fn skip_spaces(s: Seq<char>, pos: int, end: int) -> int
    decreases end - pos,
{
    if pos < end && is_space(s[pos]) {
        skip_spaces(s, pos + 1, end)
    } else {
        pos
    }
}

/// Skipping spaces moves the cursor forward, and not beyond `end`.
pub proof fn lemma_skip_spaces_bounds(s: Seq<char>, pos: int, end: int)
    ensures
        pos <= skip_spaces(s, pos, end),
        pos <= end ==> skip_spaces(s, pos, end) <= end,
        skip_spaces(s, pos, end) < end ==> !is_space(s[skip_spaces(s, pos, end)]),
    decreases end - pos,
{
    if pos < end && is_space(s[pos]) {
        lemma_skip_spaces_bounds(s, pos + 1, end);
    }
}

/// The first cursor from `pos` on that is not at a character of an
/// identifier, or `end`.
pub open spec fn name_end(s: Seq<char>, pos: int, end: int) -> int
    decreases end - pos,
{
    if pos < end && continues_name(s[pos]) {
        name_end(s, pos + 1, end)
    } else {
        pos
    }
}

/// Where the identifier at `pos` ends, if one starts there: a letter or `_`,
/// then letters, digits and `_` as far as they go.
pub open spec fn identifier_at(s: Seq<char>, pos: int, end: int) -> Option<int> {
    if pos < end && starts_name(s[pos]) {
        Some(name_end(s, pos + 1, end))
    } else {
        None
    }
}

/// Whether a text is an identifier, all of it.
pub open spec fn is_name(text: Seq<char>) -> bool {
    identifier_at(text, 0, text.len() as int) == Some(text.len() as int)
}

/// The two quote characters.
pub open spec fn is_quote(c: char) -> bool {
    c == '\'' || c == '"'
}

/// The characters that may follow a backslash inside a literal with the given
/// quote.
pub open spec fn is_escapable(c: char, quote: char) -> bool {
    c == 't' || c == 'b' || c == 'n' || c == 'r' || c == 'f' || c == '/' || c == quote
}

/// Where the quote stands that closes a literal whose text starts at `start`,
/// seen from the cursor `pos` inside that text. The text is one or more
/// characters, each of them either a character other than the quote and the
/// backslash, or a backslash with an escapable character after it.
pub open spec fn literal_close(s: Seq<char>, start: int, pos: int, end: int, quote: char) -> Option<
    int,
>
    decreases end - pos,
{
    if pos >= end {
        None
    } else if s[pos] == quote {
        if pos > start {
            Some(pos)
        } else {
            None
        }
    } else if s[pos] == '\\' {
        if pos + 1 < end && is_escapable(s[pos + 1], quote) {
            literal_close(s, start, pos + 2, end, quote)
        } else {
            None
        }
    } else {
        literal_close(s, start, pos + 1, end, quote)
    }
}

/// Whether a text can stand between two quotes of the given kind: it is not
/// empty, the quote occurs in it only behind a backslash, and every
/// backslash in it has an escapable character behind it.
pub open spec fn is_literal_text(text: Seq<char>, quote: char) -> bool {
    literal_close(text.push(quote), 0, 0, text.len() as int + 1, quote) == Some(text.len() as int)
}

/// A string literal at `pos`: a quote, the text, and the same quote again.
/// The value holds the text as it stands, escapes undecoded.
pub open spec fn string_at(s: Seq<char>, pos: int, end: int) -> Parsed<Tree> {
    if pos < end && is_quote(s[pos]) {
        match literal_close(s, pos + 1, pos + 1, end, s[pos]) {
            Some(close) => Parsed::Match {
                value: Tree::String(s.subrange(pos + 1, close)),
                next: close + 1,
            },
            None => Parsed::Miss,
        }
    } else {
        Parsed::Miss
    }
}

/// A regex literal at `pos`: `#`, then as a string literal.
pub open spec fn regex_string_at(s: Seq<char>, pos: int, end: int) -> Parsed<Tree> {
    if pos + 1 < end && s[pos] == '#' && is_quote(s[pos + 1]) {
        match literal_close(s, pos + 2, pos + 2, end, s[pos + 1]) {
            Some(close) => Parsed::Match {
                value: Tree::RegexString(s.subrange(pos + 2, close)),
                next: close + 1,
            },
            None => Parsed::Miss,
        }
    } else {
        Parsed::Miss
    }
}

/// A reference to a rule at `pos`: an identifier with spaces around it.
pub open spec fn terminal_at(s: Seq<char>, pos: int, end: int) -> Parsed<Tree> {
    let start = skip_spaces(s, pos, end);
    match identifier_at(s, start, end) {
        Some(stop) => Parsed::Match {
            value: Tree::Terminal(s.subrange(start, stop)),
            next: skip_spaces(s, stop, end),
        },
        None => Parsed::Miss,
    }
}

/// The extent of a bracketed construct at `pos`. A match gives the cursor of
/// the closing bracket: the text of the construct lies between `pos + 1` and
/// that cursor. Where the opening bracket stands at `pos` and the text up
/// to `end` does not close it, the parse is aborted.
pub open spec fn delimited_at(s: Seq<char>, pos: int, end: int, open: char, close: char) -> Parsed<
    int,
> {
    if pos < end && s[pos] == open {
        match unbalanced_close(s.subrange(pos + 1, end), open, close, 0, 0) {
            Some(at) if at < end - (pos + 1) => Parsed::Match {
                value: pos + 1 + at,
                next: pos + at + 2,
            },
            _ => Parsed::Abort { trace: seq![(pos, Context::IncompleteDelimitedNode)] },
        }
    } else {
        Parsed::Miss
    }
}

/// A postfix operator after optional spaces at `pos`, and where the text
/// after it starts.
pub open spec fn regex_ext_at(s: Seq<char>, pos: int, end: int) -> Option<(RegexExtKind, int)> {
    let at = skip_spaces(s, pos, end);
    if at < end && s[at] == '*' {
        Some((RegexExtKind::Repeat0, at + 1))
    } else if at < end && s[at] == '+' {
        Some((RegexExtKind::Repeat1, at + 1))
    } else if at < end && s[at] == '?' {
        Some((RegexExtKind::Optional, at + 1))
    } else {
        None
    }
}

/// Whether a match from `pos` to `next` has taken at least one character, and
/// none beyond `end`. Every match of an atom and of a node has. The
/// definitions of a node and of a collection of nodes ask for it before they
/// read on behind a match, which shows that they are well-founded.
pub open spec fn advances(pos: int, next: int, end: int) -> bool {
    pos < next <= end
}

/// The size of the text between two cursors.
pub open spec fn span(pos: int, end: int) -> nat {
    if pos < end {
        (end - pos) as nat
    } else {
        0
    }
}

/// A bracketed construct at `pos`: the text between the brackets is a
/// sequence of terms of its own, and what follows that sequence inside the
/// brackets is not looked at. A failure inside passes through with a frame
/// for the construct added.
pub open spec fn bracket_at(s: Seq<char>, pos: int, end: int, kind: Bracket) -> Parsed<Tree>
    decreases span(pos, end), 0nat,
{
    match delimited_at(s, pos, end, kind.opening(), kind.closing()) {
        Parsed::Match { value: close, next } => {
            proof {
                lemma_unbalanced_close_bounds(
                    s.subrange(pos + 1, end),
                    kind.opening(),
                    kind.closing(),
                    0,
                    0,
                );
            }
            match sequence_at(s, pos + 1, close) {
                Parsed::Match { value, next: _ } => Parsed::Match { value: kind.wrap(value), next },
                Parsed::Miss => Parsed::Miss,
                Parsed::Abort { trace } => Parsed::Abort {
                    trace: trace.push((pos, kind.context())),
                },
            }
        },
        Parsed::Miss => Parsed::Miss,
        Parsed::Abort { trace } => Parsed::Abort { trace },
    }
}

/// One atom at `pos`: the first of group, optional, repeat, string literal,
/// regex literal and reference that does not miss there.
pub open spec fn atom_at(s: Seq<char>, pos: int, end: int) -> Parsed<Tree>
    decreases span(pos, end), 1nat,
{
    bracket_at(s, pos, end, Bracket::Group).or(bracket_at(s, pos, end, Bracket::Optional)).or(
        bracket_at(s, pos, end, Bracket::Repeat),
    ).or(string_at(s, pos, end)).or(regex_string_at(s, pos, end)).or(terminal_at(s, pos, end))
}

/// An operator of the given kind at `pos` with its right operand, which is a
/// node of its own.
pub open spec fn operand_at(s: Seq<char>, pos: int, end: int, kind: SymbolKind) -> Parsed<
    (SymbolKind, Tree),
>
    decreases span(pos, end), 0nat,
{
    if pos < end && s[pos] == operator_char(kind) {
        match node_at(s, pos + 1, end) {
            Parsed::Match { value, next } => Parsed::Match { value: (kind, value), next },
            Parsed::Miss => Parsed::Miss,
            Parsed::Abort { trace } => Parsed::Abort { trace },
        }
    } else {
        Parsed::Miss
    }
}

/// The character of an operator.
pub open spec fn operator_char(kind: SymbolKind) -> char {
    match kind {
        SymbolKind::Concatenation => ',',
        SymbolKind::Alternation => '|',
    }
}

/// An operator after optional spaces at `pos`, with its right operand:
/// a concatenation, or else an alternation.
pub open spec fn symbol_at(s: Seq<char>, pos: int, end: int) -> Parsed<(SymbolKind, Tree)>
    decreases span(pos, end), 1nat,
{
    let at = skip_spaces(s, pos, end);
    proof {
        lemma_skip_spaces_bounds(s, pos, end);
    }
    operand_at(s, at, end, SymbolKind::Concatenation).or(
        operand_at(s, at, end, SymbolKind::Alternation),
    )
}

/// One node at `pos`: after optional spaces an atom, wrapped in its postfix
/// operator if one follows, and joined to a right operand if an operator and
/// a node follow. An operator that no node follows is left where it is. The
/// right operand is a node in the same sense, so that operators of either
/// kind nest to the right.
pub open spec fn node_at(s: Seq<char>, pos: int, end: int) -> Parsed<Tree>
    decreases span(pos, end), 2nat,
{
    let start = skip_spaces(s, pos, end);
    proof {
        lemma_skip_spaces_bounds(s, pos, end);
    }
    match atom_at(s, start, end) {
        Parsed::Match { value: atom, next: after_atom } => {
            let (left, after) = match regex_ext_at(s, after_atom, end) {
                Some((kind, next)) => (Tree::RegexExt(Box::new(atom), kind), next),
                None => (atom, after_atom),
            };
            if advances(pos, after, end) {
                match symbol_at(s, after, end) {
                    Parsed::Match { value: (kind, right), next } => Parsed::Match {
                        value: Tree::Symbol(Box::new(left), kind, Box::new(right)),
                        next,
                    },
                    Parsed::Miss => Parsed::Match { value: left, next: after },
                    Parsed::Abort { trace } => Parsed::Abort { trace },
                }
            } else {
                Parsed::Miss
            }
        },
        Parsed::Miss => Parsed::Miss,
        Parsed::Abort { trace } => Parsed::Abort { trace },
    }
}

/// The nodes that follow each other from `pos` on, as many as there are, and
/// the cursor behind the last of them.
pub open spec fn nodes_from(s: Seq<char>, pos: int, end: int) -> Parsed<Seq<Tree>>
    decreases span(pos, end), 3nat,
{
    match node_at(s, pos, end) {
        Parsed::Match { value, next } => {
            if advances(pos, next, end) {
                match nodes_from(s, next, end) {
                    Parsed::Match { value: others, next: last } => Parsed::Match {
                        value: seq![value] + others,
                        next: last,
                    },
                    Parsed::Miss => Parsed::Miss,
                    Parsed::Abort { trace } => Parsed::Abort { trace },
                }
            } else {
                Parsed::Miss
            }
        },
        Parsed::Miss => Parsed::Match { value: Seq::empty(), next: pos },
        Parsed::Abort { trace } => Parsed::Abort { trace },
    }
}

/// A sequence of terms at `pos`: after optional spaces one node or more. One
/// node stands for itself; two or more stand in a `Multiple`.
pub open spec fn sequence_at(s: Seq<char>, pos: int, end: int) -> Parsed<Tree>
    decreases span(pos, end), 4nat,
{
    let start = skip_spaces(s, pos, end);
    proof {
        lemma_skip_spaces_bounds(s, pos, end);
    }
    match nodes_from(s, start, end) {
        Parsed::Match { value: nodes, next } => {
            if nodes.len() == 0 {
                Parsed::Miss
            } else if nodes.len() == 1 {
                Parsed::Match { value: nodes[0], next }
            } else {
                Parsed::Match { value: Tree::Multiple(nodes), next }
            }
        },
        Parsed::Miss => Parsed::Miss,
        Parsed::Abort { trace } => Parsed::Abort { trace },
    }
}

/// A definition sign at `pos`: `=` or `::=`; where the text after it starts.
pub open spec fn definition_at(s: Seq<char>, pos: int, end: int) -> Option<int> {
    if pos < end && s[pos] == '=' {
        Some(pos + 1)
    } else if pos + 2 < end && s[pos] == ':' && s[pos + 1] == ':' && s[pos + 2] == '=' {
        Some(pos + 3)
    } else {
        None
    }
}

/// The failure of a rule that lacks, at the cursor `at`, the part that
/// `context` names.
pub open spec fn malformed(at: int, context: Context) -> Failure {
    Failure { kind: FailureKind::MalformedRule, trace: seq![(at, context)] }
}

/// The left-hand side of a rule at `pos`: after optional spaces an
/// identifier, and after optional spaces a definition sign. A match gives the
/// cursors at which the identifier starts and stops, and the cursor behind
/// the definition sign.
pub open spec fn lhs_at(s: Seq<char>, pos: int, end: int) -> Result<(int, int, int), Failure> {
    let start = skip_spaces(s, pos, end);
    match identifier_at(s, start, end) {
        Some(stop) => {
            let sign = skip_spaces(s, stop, end);
            match definition_at(s, sign, end) {
                Some(next) => Ok((start, stop, next)),
                None => Err(malformed(sign, Context::Definition)),
            }
        },
        None => Err(malformed(start, Context::Identifier)),
    }
}

/// The right-hand side of a rule at `pos`: after optional spaces a sequence
/// of terms, and after optional spaces a `;`. A match gives the tree of the
/// sequence and the cursor behind the `;`.
pub open spec fn rhs_at(s: Seq<char>, pos: int, end: int) -> Result<(Tree, int), Failure> {
    let start = skip_spaces(s, pos, end);
    match sequence_at(s, start, end) {
        Parsed::Match { value, next } => {
            let semicolon = skip_spaces(s, next, end);
            if semicolon < end && s[semicolon] == ';' {
                Ok((value, semicolon + 1))
            } else {
                Err(malformed(semicolon, Context::Terminator))
            }
        },
        Parsed::Miss => Err(malformed(start, Context::Term)),
        Parsed::Abort { trace } => Err(Failure { kind: FailureKind::UnbalancedDelimiter, trace }),
    }
}

/// A failure with one more frame at the outer end of its trace.
pub open spec fn within(failure: Failure, at: int, context: Context) -> Failure {
    Failure { kind: failure.kind, trace: failure.trace.push((at, context)) }
}

/// The rule at `pos`, up to the end of the text: a left-hand side and a
/// right-hand side. A match gives the rule and the cursor behind its `;`. A
/// failure carries a last frame for the rule, at the cursor of the first
/// character after the spaces at `pos`.
pub open spec fn rule_at(s: Seq<char>, pos: int) -> Result<(Production, int), Failure> {
    let end = s.len() as int;
    let start = skip_spaces(s, pos, end);
    match lhs_at(s, pos, end) {
        Ok((from, to, body)) => match rhs_at(s, body, end) {
            Ok((rhs, next)) => Ok((Production { lhs: s.subrange(from, to), rhs }, next)),
            Err(failure) => Err(within(failure, start, Context::Rule)),
        },
        Err(failure) => Err(within(failure, start, Context::Rule)),
    }
}

/// The characters with the Unicode property `White_Space`: the whitespace
/// between rules.
pub open spec fn is_whitespace(c: char) -> bool {
    ||| '\u{9}' <= c <= '\u{d}'
    ||| c == ' '
    ||| c == '\u{85}'
    ||| c == '\u{a0}'
    ||| c == '\u{1680}'
    ||| '\u{2000}' <= c <= '\u{200a}'
    ||| c == '\u{2028}'
    ||| c == '\u{2029}'
    ||| c == '\u{202f}'
    ||| c == '\u{205f}'
    ||| c == '\u{3000}'
}

/// The first cursor from `pos` on that is not at whitespace, or the end of
/// the text.
pub open spec fn skip_whitespace(s: Seq<char>, pos: int) -> int
    decreases s.len() - pos,
{
    if pos < s.len() && is_whitespace(s[pos]) {
        skip_whitespace(s, pos + 1)
    } else {
        pos
    }
}

/// Skipping whitespace moves the cursor forward, and not beyond the end of
/// the text.
pub proof fn lemma_skip_whitespace_bounds(s: Seq<char>, pos: int)
    ensures
        pos <= skip_whitespace(s, pos),
        pos <= s.len() ==> skip_whitespace(s, pos) <= s.len(),
    decreases s.len() - pos,
{
    if pos < s.len() && is_whitespace(s[pos]) {
        lemma_skip_whitespace_bounds(s, pos + 1);
    }
}

/// An identifier ends behind its start, and not beyond `end`.
pub proof fn lemma_name_end_bounds(s: Seq<char>, pos: int, end: int)
    ensures
        pos <= name_end(s, pos, end),
        pos <= end ==> name_end(s, pos, end) <= end,
    decreases end - pos,
{
    if pos < end && continues_name(s[pos]) {
        lemma_name_end_bounds(s, pos + 1, end);
    }
}

/// The nodes collected from a cursor end behind it, inside the text, unless
/// there are none: then the cursor stays.
pub proof fn lemma_nodes_from_bounds(s: Seq<char>, pos: int, end: int)
    ensures
        nodes_from(s, pos, end) matches Parsed::Match { value, next } ==> {
            &&& value.len() == 0 ==> next == pos
            &&& value.len() > 0 ==> pos < next <= end
        },
    decreases span(pos, end),
{
    if let Parsed::Match { value, next } = node_at(s, pos, end) {
        if pos < next <= end {
            lemma_nodes_from_bounds(s, next, end);
        }
    }
}

/// A sequence of terms ends behind its start, inside the text.
pub proof fn lemma_sequence_bounds(s: Seq<char>, pos: int, end: int)
    ensures
        sequence_at(s, pos, end) matches Parsed::Match { value, next } ==> pos < next <= end,
{
    lemma_skip_spaces_bounds(s, pos, end);
    lemma_nodes_from_bounds(s, skip_spaces(s, pos, end), end);
}

/// A rule ends behind its start, inside the text, and with a `;`.
pub proof fn lemma_rule_bounds(s: Seq<char>, pos: int)
    ensures
        rule_at(s, pos) matches Ok((_, next)) ==> pos < next <= s.len() && s[next - 1] == ';',
{
    let end = s.len() as int;
    lemma_skip_spaces_bounds(s, pos, end);
    if let Ok((from, to, body)) = lhs_at(s, pos, end) {
        lemma_name_end_bounds(s, from + 1, end);
        lemma_skip_spaces_bounds(s, to, end);
        lemma_skip_spaces_bounds(s, body, end);
        lemma_sequence_bounds(s, skip_spaces(s, body, end), end);
        if let Parsed::Match { value, next } = sequence_at(s, skip_spaces(s, body, end), end) {
            lemma_skip_spaces_bounds(s, next, end);
        }
    }
}

/// The rules from `pos` on, up to the end of the text, with whitespace
/// between them and after the last one. The first rule that fails makes the
/// whole text fail, with the failure of that rule.
pub open spec fn rules_from(s: Seq<char>, pos: int) -> Result<Seq<Production>, Failure>
    decreases s.len() - pos,
{
    if pos >= s.len() {
        Ok(Seq::empty())
    } else {
        match rule_at(s, pos) {
            Ok((rule, next)) => {
                proof {
                    lemma_rule_bounds(s, pos);
                    lemma_skip_whitespace_bounds(s, next);
                }
                match rules_from(s, skip_whitespace(s, next)) {
                    Ok(rules) => Ok(seq![rule] + rules),
                    Err(failure) => Err(failure),
                }
            },
            Err(failure) => Err(failure),
        }
    }
}

/// The grammar that a source text holds: its rules in order, or the failure
/// of the first rule that cannot be read.
pub open spec fn grammar_of(s: Seq<char>) -> Result<Seq<Production>, Failure> {
    rules_from(s, 0)
}

/// The cursors of the `;` that end the rules read one after the other from
/// `pos` on, as far as rules can be read.
pub open spec fn terminators_from(s: Seq<char>, pos: int) -> Seq<int>
    decreases s.len() - pos,
{
    if pos >= s.len() {
        Seq::empty()
    } else {
        match rule_at(s, pos) {
            Ok((_, next)) => {
                proof {
                    lemma_rule_bounds(s, pos);
                    lemma_skip_whitespace_bounds(s, next);
                }
                seq![next - 1] + terminators_from(s, skip_whitespace(s, next))
            },
            Err(_) => Seq::empty(),
        }
    }
}

} // verus!
