//! One rule of a grammar.

use crate::node::{Node, Tree};
use vstd::prelude::*;

verus! {

/// One production rule: the name on the left of the definition sign and the
/// tree of its right-hand side.
#[derive(Debug, PartialEq, Eq)]
pub struct Expression {
    pub lhs: String,
    pub rhs: Node,
}

/// The mathematical value of an [`Expression`].
pub struct Production {
    pub lhs: Seq<char>,
    pub rhs: Tree,
}

impl View for Expression {
    type V = Production;

    open spec fn view(&self) -> Production {
        Production { lhs: self.lhs@, rhs: self.rhs@ }
    }
}

impl Clone for Expression {
    /// A copy of the rule.
    fn clone(&self) -> (copy: Self)
        ensures
            copy@ == self@,
    {
        Expression { lhs: self.lhs.clone(), rhs: self.rhs.clone() }
    }
}

} // verus!
