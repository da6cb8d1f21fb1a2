//! A parsed grammar.

use crate::expression::{Expression, Production};
use vstd::prelude::*;

verus! {

/// The rules of a grammar, in the order of the source text. Two rules may
/// carry the same name.
#[derive(Debug, PartialEq, Eq)]
pub struct Grammar {
    pub expressions: Vec<Expression>,
}

/// The values of the expressions in a vector, in order.
pub open spec fn productions_of(expressions: Seq<Expression>) -> Seq<Production> {
    expressions.map_values(|expression: Expression| expression@)
}

impl View for Grammar {
    type V = Seq<Production>;

    open spec fn view(&self) -> Seq<Production> {
        productions_of(self.expressions@)
    }
}

impl Clone for Grammar {
    /// A copy of the grammar.
    fn clone(&self) -> (copy: Self)
        ensures
            copy@ == self@,
    {
        let mut expressions: Vec<Expression> = Vec::new();
        let mut i: usize = 0;
        while i < self.expressions.len()
            invariant
                i <= self.expressions.len(),
                expressions.len() == i,
                forall|j: int| 0 <= j < i ==> expressions@[j]@ == self.expressions@[j]@,
            decreases self.expressions.len() - i,
        {
            expressions.push(self.expressions[i].clone());
            i += 1;
        }
        Grammar { expressions }
    }
}

} // verus!
