//! What holds of every parse.

use crate::delimiter::lemma_unbalanced_close_bounds;
use crate::failure::{Context, Failure, FailureKind, ParseFailure};
use crate::grammar::Grammar;
use crate::node::{SymbolKind, Tree};
use crate::parses_as;
use crate::syntax::{
    advances, atom_at, bracket_at, continues_name, delimited_at, identifier_at, is_name,
    lemma_name_end_bounds, name_end,
    lemma_rule_bounds, lemma_sequence_bounds, lemma_skip_spaces_bounds,
    lemma_skip_whitespace_bounds, lhs_at, literal_close, node_at, nodes_from, operand_at,
    regex_ext_at, regex_string_at, rule_at, rules_from, sequence_at, skip_spaces,
    skip_whitespace, span, string_at, symbol_at, terminal_at, terminators_from, Bracket, Parsed,
};
use vstd::prelude::*;

verus! {

/// Reading the same text twice gives the same outcome: both readings succeed
/// with grammars of the same value, or both fail with failures of the same
/// value.
pub proof fn lemma_reading_is_repeatable(
    input: Seq<char>,
    first: Result<Grammar, ParseFailure>,
    second: Result<Grammar, ParseFailure>,
)
    requires
        parses_as(input, first),
        parses_as(input, second),
    ensures
        first is Ok <==> second is Ok,
        first is Ok ==> first->Ok_0@ == second->Ok_0@,
        first is Err ==> first->Err_0@ == second->Err_0@,
{
}

/// The rules read from a cursor on are as many as the `;` that end them, and
/// each of those cursors holds a `;`, the later rule's behind the earlier
/// rule's.
pub proof fn lemma_rules_end_with_terminators(s: Seq<char>, pos: int)
    requires
        0 <= pos,
    ensures
        rules_from(s, pos) matches Ok(rules) ==> {
            let ends = terminators_from(s, pos);
            &&& rules.len() == ends.len()
            &&& forall|i: int| 0 <= i < ends.len() ==> pos <= #[trigger] ends[i] < s.len()
            &&& forall|i: int| 0 <= i < ends.len() ==> s[#[trigger] ends[i]] == ';'
            &&& forall|i: int, j: int| 0 <= i < j < ends.len() ==> ends[i] < ends[j]
        },
    decreases s.len() - pos,
{
    if pos < s.len() {
        if let Ok((rule, next)) = rule_at(s, pos) {
            lemma_rule_bounds(s, pos);
            lemma_skip_whitespace_bounds(s, next);
            let resume = skip_whitespace(s, next);
            lemma_rules_end_with_terminators(s, resume);
        }
    }
}

/// A grammar that was read has as many expressions as the source text has
/// rules that end with a `;`.
pub proof fn lemma_one_expression_per_rule(input: Seq<char>, grammar: Grammar)
    requires
        parses_as(input, Ok(grammar)),
    ensures
        grammar.expressions@.len() == terminators_from(input, 0).len(),
        forall|i: int|
            0 <= i < terminators_from(input, 0).len() ==> input[#[trigger] terminators_from(
                input,
                0,
            )[i]] == ';',
{
    lemma_rules_end_with_terminators(input, 0);
}

/// The quote that closes a literal stands behind at least one character of
/// text, inside the text that may be read.
pub proof fn lemma_literal_close_bounds(s: Seq<char>, start: int, pos: int, end: int, quote: char)
    requires
        start <= pos,
    ensures
        literal_close(s, start, pos, end, quote) matches Some(close) ==> start < close < end
            && pos <= close,
    decreases end - pos,
{
    if pos >= end {
    } else if s[pos] == quote {
    } else if s[pos] == '\\' {
        if pos + 1 < end {
            lemma_literal_close_bounds(s, start, pos + 2, end, quote);
        }
    } else {
        lemma_literal_close_bounds(s, start, pos + 1, end, quote);
    }
}

/// The text of an identifier, taken alone, is an identifier.
pub proof fn lemma_name_alone(s: Seq<char>, pos: int, from: int, end: int)
    requires
        0 <= pos <= from <= end <= s.len(),
    ensures
        ({
            let stop = name_end(s, from, end);
            name_end(s.subrange(pos, stop), from - pos, stop - pos) == stop - pos
        }),
    decreases end - from,
{
    lemma_name_end_bounds(s, from, end);
    if from < end && continues_name(s[from]) {
        lemma_name_end_bounds(s, from + 1, end);
        lemma_name_alone(s, pos, from + 1, end);
    }
}

/// The text of a literal, taken alone, can stand between quotes of the kind
/// that close it.
pub proof fn lemma_literal_alone(s: Seq<char>, start: int, pos: int, end: int, quote: char)
    requires
        0 <= start <= pos,
        end <= s.len(),
    ensures
        literal_close(s, start, pos, end, quote) matches Some(close) ==> literal_close(
            s.subrange(start, close).push(quote),
            0,
            pos - start,
            close - start + 1,
            quote,
        ) == Some(close - start),
    decreases end - pos,
{
    if let Some(close) = literal_close(s, start, pos, end, quote) {
        lemma_literal_close_bounds(s, start, pos, end, quote);
        if s[pos] == quote {
        } else if s[pos] == '\\' {
            lemma_literal_close_bounds(s, start, pos + 2, end, quote);
            lemma_literal_alone(s, start, pos + 2, end, quote);
        } else {
            lemma_literal_close_bounds(s, start, pos + 1, end, quote);
            lemma_literal_alone(s, start, pos + 1, end, quote);
        }
    }
}

/// A literal or a reference that matches is a well-formed atom and ends
/// behind its start, inside the text that may be read.
pub proof fn lemma_leaf_shape(s: Seq<char>, pos: int, end: int)
    requires
        0 <= pos <= end <= s.len(),
    ensures
        string_at(s, pos, end) matches Parsed::Match { value, next } ==> pos < next <= end
            && value.is_atom() && value.well_formed(),
        regex_string_at(s, pos, end) matches Parsed::Match { value, next } ==> pos < next <= end
            && value.is_atom() && value.well_formed(),
        terminal_at(s, pos, end) matches Parsed::Match { value, next } ==> pos < next <= end
            && value.is_atom() && value.well_formed(),
        !(string_at(s, pos, end) is Abort),
        !(regex_string_at(s, pos, end) is Abort),
        !(terminal_at(s, pos, end) is Abort),
{
    if pos < end {
        lemma_literal_close_bounds(s, pos + 1, pos + 1, end, s[pos]);
        lemma_literal_alone(s, pos + 1, pos + 1, end, s[pos]);
    }
    if pos + 1 < end {
        lemma_literal_close_bounds(s, pos + 2, pos + 2, end, s[pos + 1]);
        lemma_literal_alone(s, pos + 2, pos + 2, end, s[pos + 1]);
    }
    lemma_skip_spaces_bounds(s, pos, end);
    lemma_identifier_alone(s, skip_spaces(s, pos, end), end);
    if let Some(stop) = identifier_at(s, skip_spaces(s, pos, end), end) {
        lemma_skip_spaces_bounds(s, stop, end);
    }
}

/// An identifier ends behind its start, inside the text that may be read,
/// and its text, taken alone, is an identifier.
pub proof fn lemma_identifier_alone(s: Seq<char>, pos: int, end: int)
    requires
        0 <= pos <= end <= s.len(),
    ensures
        identifier_at(s, pos, end) matches Some(stop) ==> pos < stop <= end && is_name(
            s.subrange(pos, stop),
        ),
{
    if let Some(stop) = identifier_at(s, pos, end) {
        lemma_name_end_bounds(s, pos + 1, end);
        lemma_name_alone(s, pos, pos + 1, end);
    }
}

/// A bracketed construct that matches is a well-formed atom and ends behind
/// its start, inside the text that may be read.
pub proof fn lemma_bracket_shape(s: Seq<char>, pos: int, end: int, kind: Bracket)
    requires
        0 <= pos <= end <= s.len(),
    ensures
        bracket_at(s, pos, end, kind) matches Parsed::Match { value, next } ==> pos < next <= end
            && value.is_atom() && value.well_formed(),
    decreases span(pos, end), 0nat,
{
    if let Parsed::Match { value: close, next } = delimited_at(
        s,
        pos,
        end,
        kind.opening(),
        kind.closing(),
    ) {
        lemma_unbalanced_close_bounds(
            s.subrange(pos + 1, end),
            kind.opening(),
            kind.closing(),
            0,
            0,
        );
        lemma_sequence_shape(s, pos + 1, close);
    }
}

/// An atom that matches is a well-formed atom and ends behind its start,
/// inside the text that may be read.
pub proof fn lemma_atom_shape(s: Seq<char>, pos: int, end: int)
    requires
        0 <= pos <= end <= s.len(),
    ensures
        atom_at(s, pos, end) matches Parsed::Match { value, next } ==> pos < next <= end
            && value.is_atom() && value.well_formed(),
    decreases span(pos, end), 1nat,
{
    lemma_bracket_shape(s, pos, end, Bracket::Group);
    lemma_bracket_shape(s, pos, end, Bracket::Optional);
    lemma_bracket_shape(s, pos, end, Bracket::Repeat);
    lemma_leaf_shape(s, pos, end);
}

/// The right operand of an operator that matches with it is a well-formed
/// node.
pub proof fn lemma_operand_shape(s: Seq<char>, pos: int, end: int, kind: SymbolKind)
    requires
        0 <= pos <= end <= s.len(),
    ensures
        operand_at(s, pos, end, kind) matches Parsed::Match { value, next } ==> pos < next <= end
            && value.0 == kind && !(value.1 is Multiple) && value.1.well_formed(),
    decreases span(pos, end), 0nat,
{
    if pos < end {
        lemma_node_shape(s, pos + 1, end);
    }
}

/// The right operand of an operator that matches with it after optional
/// spaces is a well-formed node.
pub proof fn lemma_symbol_shape(s: Seq<char>, pos: int, end: int)
    requires
        0 <= pos <= end <= s.len(),
    ensures
        symbol_at(s, pos, end) matches Parsed::Match { value, next } ==> pos < next <= end && !(
        value.1 is Multiple) && value.1.well_formed(),
    decreases span(pos, end), 1nat,
{
    lemma_skip_spaces_bounds(s, pos, end);
    let at = skip_spaces(s, pos, end);
    lemma_operand_shape(s, at, end, SymbolKind::Concatenation);
    lemma_operand_shape(s, at, end, SymbolKind::Alternation);
}

/// A node that matches is well-formed: a term, or a binary operator with a
/// term on its left. It ends behind its start, inside the text that may be
/// read. The atom and the term inside it end there too, so that the
/// comparisons of cursors in the definition of a node always hold.
pub proof fn lemma_node_shape(s: Seq<char>, pos: int, end: int)
    requires
        0 <= pos <= end <= s.len(),
    ensures
        node_at(s, pos, end) matches Parsed::Match { value, next } ==> pos < next <= end && !(
        value is Multiple) && value.well_formed(),
        atom_at(s, skip_spaces(s, pos, end), end) matches Parsed::Match { value, next } ==> {
            let after = match regex_ext_at(s, next, end) {
                Some((_, after)) => after,
                None => next,
            };
            pos < next <= after <= end
        },
    decreases span(pos, end), 2nat,
{
    lemma_skip_spaces_bounds(s, pos, end);
    let start = skip_spaces(s, pos, end);
    lemma_atom_shape(s, start, end);
    if let Parsed::Match { value: atom, next: after_atom } = atom_at(s, start, end) {
        lemma_skip_spaces_bounds(s, after_atom, end);
        let (left, after) = match regex_ext_at(s, after_atom, end) {
            Some((kind, next)) => (Tree::RegexExt(Box::new(atom), kind), next),
            None => (atom, after_atom),
        };
        assert(left.is_term() && left.well_formed());
        lemma_symbol_shape(s, after, end);
        if let Parsed::Match { value: (kind, right), next } = symbol_at(s, after, end) {
        }
    }
}

/// The nodes collected from a cursor are well-formed, and none of them is a
/// `Multiple`.
pub proof fn lemma_nodes_shape(s: Seq<char>, pos: int, end: int)
    requires
        0 <= pos <= end <= s.len(),
    ensures
        nodes_from(s, pos, end) matches Parsed::Match { value, next } ==> forall|i: int|
            0 <= i < value.len() ==> !(#[trigger] value[i] is Multiple) && value[i].well_formed(),
        !(nodes_from(s, pos, end) is Miss),
    decreases span(pos, end), 3nat,
{
    lemma_node_shape(s, pos, end);
    if let Parsed::Match { value, next } = node_at(s, pos, end) {
        lemma_nodes_shape(s, next, end);
    }
}

/// A sequence of terms that matches is well-formed.
pub proof fn lemma_sequence_shape(s: Seq<char>, pos: int, end: int)
    requires
        0 <= pos <= end <= s.len(),
    ensures
        sequence_at(s, pos, end) matches Parsed::Match { value, next } ==> value.well_formed(),
    decreases span(pos, end), 4nat,
{
    lemma_skip_spaces_bounds(s, pos, end);
    lemma_nodes_shape(s, skip_spaces(s, pos, end), end);
}

/// Every rule that is read has an identifier for its name and a well-formed
/// tree.
pub proof fn lemma_rules_are_well_formed(s: Seq<char>, pos: int)
    requires
        0 <= pos,
    ensures
        rules_from(s, pos) matches Ok(rules) ==> forall|i: int|
            0 <= i < rules.len() ==> is_name((#[trigger] rules[i]).lhs)
                && rules[i].rhs.well_formed(),
    decreases s.len() - pos,
{
    if pos < s.len() {
        let end = s.len() as int;
        if let Ok((rule, next)) = rule_at(s, pos) {
            lemma_rule_bounds(s, pos);
            lemma_skip_whitespace_bounds(s, next);
            lemma_rules_are_well_formed(s, skip_whitespace(s, next));
            lemma_skip_spaces_bounds(s, pos, end);
            if let Ok((from, to, body)) = lhs_at(s, pos, end) {
                lemma_identifier_alone(s, from, end);
                lemma_skip_spaces_bounds(s, to, end);
                lemma_skip_spaces_bounds(s, body, end);
                lemma_sequence_shape(s, skip_spaces(s, body, end), end);
            }
        }
    }
}

/// The trees of a grammar that was read are well-formed: no parse yields
/// `Unknown`, a `Multiple` of fewer than two trees, or an operator whose left
/// operand is an operator or a `Multiple`.
pub proof fn lemma_grammar_is_well_formed(input: Seq<char>, grammar: Grammar)
    requires
        parses_as(input, Ok(grammar)),
    ensures
        forall|i: int|
            0 <= i < grammar@.len() ==> is_name((#[trigger] grammar@[i]).lhs)
                && grammar@[i].rhs.well_formed(),
{
    lemma_rules_are_well_formed(input, 0);
}

/// Whether `c` is the bracket that opens the construct that a frame with
/// the given context stands for. The frame of an incomplete delimited node
/// stands for a construct of any of the three kinds.
pub open spec fn opens(context: Context, c: char) -> bool {
    match context {
        Context::IncompleteDelimitedNode => c == '(' || c == '[' || c == '{',
        Context::Group => c == '(',
        Context::Optional => c == '[',
        Context::Repeat => c == '{',
        _ => false,
    }
}

/// The shape of the trace of a bracket that is never closed, found in the
/// text between `pos` and `end`: the first frame is that of the incomplete
/// delimited node, every frame stands at the opening bracket of its
/// construct, and each frame stands before the one that it follows.
pub open spec fn is_bracket_trace(
    s: Seq<char>,
    trace: Seq<(int, Context)>,
    pos: int,
    end: int,
) -> bool {
    &&& trace.len() >= 1
    &&& trace[0].1 == Context::IncompleteDelimitedNode
    &&& forall|i: int|
        1 <= i < trace.len() ==> (#[trigger] trace[i]).1 != Context::IncompleteDelimitedNode
    &&& forall|i: int|
        0 <= i < trace.len() ==> pos <= (#[trigger] trace[i]).0 < end && opens(
            trace[i].1,
            s[trace[i].0],
        )
    &&& forall|i: int, j: int|
        0 <= i < j < trace.len() ==> (#[trigger] trace[j]).0 < (#[trigger] trace[i]).0
}

/// A bracket trace found in a part of the text is one of the whole text.
pub proof fn lemma_bracket_trace_widens(
    s: Seq<char>,
    trace: Seq<(int, Context)>,
    pos: int,
    end: int,
    from: int,
    to: int,
)
    requires
        is_bracket_trace(s, trace, pos, end),
        from <= pos,
        end <= to,
    ensures
        is_bracket_trace(s, trace, from, to),
{
}

/// A literal or a reference never aborts; a bracketed construct that aborts
/// leaves a bracket trace.
pub proof fn lemma_bracket_aborts(s: Seq<char>, pos: int, end: int, kind: Bracket)
    requires
        0 <= pos <= end <= s.len(),
    ensures
        bracket_at(s, pos, end, kind) matches Parsed::Abort { trace } ==> is_bracket_trace(
            s,
            trace,
            pos,
            end,
        ),
    decreases span(pos, end), 0nat,
{
    match delimited_at(s, pos, end, kind.opening(), kind.closing()) {
        Parsed::Match { value: close, next } => {
            lemma_unbalanced_close_bounds(
                s.subrange(pos + 1, end),
                kind.opening(),
                kind.closing(),
                0,
                0,
            );
            lemma_sequence_aborts(s, pos + 1, close);
        },
        Parsed::Miss => {},
        Parsed::Abort { trace } => {},
    }
}

/// An atom that aborts leaves a bracket trace.
pub proof fn lemma_atom_aborts(s: Seq<char>, pos: int, end: int)
    requires
        0 <= pos <= end <= s.len(),
    ensures
        atom_at(s, pos, end) matches Parsed::Abort { trace } ==> is_bracket_trace(
            s,
            trace,
            pos,
            end,
        ),
    decreases span(pos, end), 1nat,
{
    lemma_bracket_aborts(s, pos, end, Bracket::Group);
    lemma_bracket_aborts(s, pos, end, Bracket::Optional);
    lemma_bracket_aborts(s, pos, end, Bracket::Repeat);
    lemma_leaf_shape(s, pos, end);
}

/// A right operand that aborts leaves a bracket trace.
pub proof fn lemma_operand_aborts(s: Seq<char>, pos: int, end: int, kind: SymbolKind)
    requires
        0 <= pos <= end <= s.len(),
    ensures
        operand_at(s, pos, end, kind) matches Parsed::Abort { trace } ==> is_bracket_trace(
            s,
            trace,
            pos,
            end,
        ),
    decreases span(pos, end), 0nat,
{
    if pos < end {
        lemma_node_aborts(s, pos + 1, end);
    }
}

/// An operator with its right operand that aborts leaves a bracket trace.
pub proof fn lemma_symbol_aborts(s: Seq<char>, pos: int, end: int)
    requires
        0 <= pos <= end <= s.len(),
    ensures
        symbol_at(s, pos, end) matches Parsed::Abort { trace } ==> is_bracket_trace(
            s,
            trace,
            pos,
            end,
        ),
    decreases span(pos, end), 1nat,
{
    lemma_skip_spaces_bounds(s, pos, end);
    let at = skip_spaces(s, pos, end);
    lemma_operand_aborts(s, at, end, SymbolKind::Concatenation);
    lemma_operand_aborts(s, at, end, SymbolKind::Alternation);
}

/// A node that aborts leaves a bracket trace.
pub proof fn lemma_node_aborts(s: Seq<char>, pos: int, end: int)
    requires
        0 <= pos <= end <= s.len(),
    ensures
        node_at(s, pos, end) matches Parsed::Abort { trace } ==> is_bracket_trace(
            s,
            trace,
            pos,
            end,
        ),
    decreases span(pos, end), 2nat,
{
    lemma_skip_spaces_bounds(s, pos, end);
    let start = skip_spaces(s, pos, end);
    lemma_atom_aborts(s, start, end);
    lemma_node_shape(s, pos, end);
    if let Parsed::Match { value: atom, next: after_atom } = atom_at(s, start, end) {
        let after = match regex_ext_at(s, after_atom, end) {
            Some((_, after)) => after,
            None => after_atom,
        };
        lemma_symbol_aborts(s, after, end);
    }
}

/// A collection of nodes that aborts leaves a bracket trace.
pub proof fn lemma_nodes_abort(s: Seq<char>, pos: int, end: int)
    requires
        0 <= pos <= end <= s.len(),
    ensures
        nodes_from(s, pos, end) matches Parsed::Abort { trace } ==> is_bracket_trace(
            s,
            trace,
            pos,
            end,
        ),
    decreases span(pos, end), 3nat,
{
    lemma_node_aborts(s, pos, end);
    if let Parsed::Match { value, next } = node_at(s, pos, end) {
        if advances(pos, next, end) {
            lemma_nodes_abort(s, next, end);
        }
    }
}

/// A sequence of terms that aborts leaves a bracket trace.
pub proof fn lemma_sequence_aborts(s: Seq<char>, pos: int, end: int)
    requires
        0 <= pos <= end <= s.len(),
    ensures
        sequence_at(s, pos, end) matches Parsed::Abort { trace } ==> is_bracket_trace(
            s,
            trace,
            pos,
            end,
        ),
    decreases span(pos, end), 4nat,
{
    lemma_skip_spaces_bounds(s, pos, end);
    lemma_nodes_abort(s, skip_spaces(s, pos, end), end);
}

/// The shape of the failure of a rule. Its last frame is that of the rule.
/// A malformed rule has one frame before it, which names the part that is
/// missing and stands not before the rule. An unbalanced delimiter has a
/// bracket trace before it, all of it behind the start of the rule. No other
/// kind of failure comes from a rule.
pub open spec fn is_rule_failure(s: Seq<char>, failure: Failure) -> bool {
    let trace = failure.trace;
    let inner = trace.drop_last();
    &&& trace.len() >= 2
    &&& trace.last().1 == Context::Rule
    &&& 0 <= trace.last().0 <= s.len()
    &&& match failure.kind {
        FailureKind::MalformedRule => {
            &&& trace.len() == 2
            &&& trace.last().0 <= trace[0].0 <= s.len()
            &&& (trace[0].1 == Context::Identifier || trace[0].1 == Context::Definition
                || trace[0].1 == Context::Term || trace[0].1 == Context::Terminator)
        },
        FailureKind::UnbalancedDelimiter => is_bracket_trace(
            s,
            inner,
            trace.last().0 + 1,
            s.len() as int,
        ),
        FailureKind::Recognition => false,
    }
}

/// A rule that fails fails with the shape of the failure of a rule.
pub proof fn lemma_rule_failure(s: Seq<char>, pos: int)
    requires
        0 <= pos <= s.len(),
    ensures
        rule_at(s, pos) matches Err(failure) ==> is_rule_failure(s, failure),
{
    let end = s.len() as int;
    lemma_skip_spaces_bounds(s, pos, end);
    let start = skip_spaces(s, pos, end);
    match lhs_at(s, pos, end) {
        Ok((from, to, body)) => {
            lemma_name_end_bounds(s, from + 1, end);
            lemma_skip_spaces_bounds(s, to, end);
            lemma_skip_spaces_bounds(s, body, end);
            let first = skip_spaces(s, body, end);
            lemma_sequence_shape(s, first, end);
            lemma_sequence_bounds(s, first, end);
            lemma_sequence_aborts(s, first, end);
            match sequence_at(s, first, end) {
                Parsed::Match { value, next } => {
                    lemma_skip_spaces_bounds(s, next, end);
                },
                Parsed::Miss => {},
                Parsed::Abort { trace } => {
                    lemma_bracket_trace_widens(s, trace, first, end, start + 1, end);
                },
            }
        },
        Err(failure) => {
            if let Some(stop) = identifier_at(s, start, end) {
                lemma_name_end_bounds(s, start + 1, end);
                lemma_skip_spaces_bounds(s, stop, end);
            }
        },
    }
}

/// A text that cannot be read as a grammar fails with the failure of a rule:
/// as a malformed rule or with an unbalanced delimiter, never with a bare
/// recognition failure.
pub proof fn lemma_grammar_failure(s: Seq<char>, pos: int)
    requires
        0 <= pos <= s.len(),
    ensures
        rules_from(s, pos) matches Err(failure) ==> is_rule_failure(s, failure),
    decreases s.len() - pos,
{
    if pos < s.len() {
        lemma_rule_failure(s, pos);
        if let Ok((rule, next)) = rule_at(s, pos) {
            lemma_rule_bounds(s, pos);
            lemma_skip_whitespace_bounds(s, next);
            lemma_grammar_failure(s, skip_whitespace(s, next));
        }
    }
}

} // verus!
