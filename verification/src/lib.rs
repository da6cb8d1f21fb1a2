//! Parser for grammars written in an Extended Backus-Naur Form dialect.
//!
//! A grammar is a list of rules, `name ::= right-hand side ;`. The right-hand
//! side of a rule is read into a tree of [`Node`]s: literals, references to
//! other rules, bracketed groups, postfix repetition, and the two binary
//! operators `,` and `|`, which have one precedence and nest to the right.
//!
//! ```text
//! filter ::= ( first ' ' )? ( number '~ ' )? ( number '-' number );
//! first  ::= #'[a-za-z][a-za-z0-9_+]*';
//! number ::= digits ( ( '.' | ',' ) digits? )?;
//! digits ::= #'[0-9]+';
//! ```
//!
//! [`get_grammar`] reads such a text:
//!
//! ```text
//! let grammar = ebnf::get_grammar("term ::= '1';")?;
//! assert_eq!(grammar.expressions[0].lhs, "term");
//! ```
//!
//! What a text means is defined in [`syntax`], as functions of the text
//! alone; [`parser`] holds the code that reads a text so, and [`laws`] what
//! holds of every reading.

use vstd::prelude::*;

pub mod delimiter;
pub mod expression;
pub mod failure;
pub mod grammar;
pub mod laws;
pub mod node;
pub mod parser;
pub mod syntax;
pub mod text;

pub use expression::{Expression, Production};
pub use failure::{Context, Failure, FailureKind, Frame, ParseFailure};
pub use grammar::Grammar;
pub use node::{Node, RegexExtKind, SymbolKind, Tree};
pub use parser::{identifier, parse_expressions};

verus! {

/// Whether `outcome` is what the source text `input` holds: its grammar, or
/// the failure of its first rule that cannot be read.
pub open spec fn parses_as(input: Seq<char>, outcome: Result<Grammar, ParseFailure>) -> bool {
    match outcome {
        Ok(grammar) => syntax::grammar_of(input) == Ok::<Seq<Production>, Failure>(grammar@),
        Err(failure) => syntax::grammar_of(input) == Err::<Seq<Production>, Failure>(failure@),
    }
}

/// Reads a source text as a grammar: rule after rule, up to the end of the
/// text. The first rule that cannot be read makes the whole text fail, and
/// none of the rules before it is handed out.
///
/// A grammar that is handed out has one expression for each rule of the
/// text that ends with a `;`, and every tree in it is well-formed. A failure
/// is that of a rule: a malformed rule, or a bracket that is never closed.
///
/// The text may hold at most `i32::MAX` characters.
pub fn get_grammar(input: &str) -> (outcome: Result<Grammar, ParseFailure>)
    requires
        input@.len() <= i32::MAX,
    ensures
        parses_as(input@, outcome),
        outcome matches Ok(grammar) ==> {
            &&& grammar.expressions@.len() == syntax::terminators_from(input@, 0).len()
            &&& forall|i: int|
                0 <= i < grammar@.len() ==> syntax::is_name((#[trigger] grammar@[i]).lhs)
                    && grammar@[i].rhs.well_formed()
        },
        outcome matches Err(failure) ==> laws::is_rule_failure(input@, failure@),
{
    proof {
        laws::lemma_rules_end_with_terminators(input@, 0);
        laws::lemma_rules_are_well_formed(input@, 0);
        laws::lemma_grammar_failure(input@, 0);
    }
    match parse_expressions(input) {
        Ok((_, expressions)) => Ok(Grammar { expressions }),
        Err(failure) => Err(failure),
    }
}

} // verus!
