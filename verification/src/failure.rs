//! How a parse fails: the kind of failure and a trace of what was being
//! attempted when it arose.

use vstd::prelude::*;
use vstd::string::StringExecFns;

verus! {

/// The kinds of failure.
#[derive(Debug, Clone, Copy, PartialEq, Eq, Structural)]
pub enum FailureKind {
    /// The text at the cursor does not start what the recognizer looks for.
    Recognition,
    /// An opening bracket whose closing bracket is never reached.
    UnbalancedDelimiter,
    /// The text at the cursor is not `name ::= ... ;`.
    MalformedRule,
}

/// What was being attempted at one level of a failed parse.
#[derive(Debug, Clone, Copy, PartialEq, Eq, Structural)]
pub enum Context {
    /// An identifier was looked for.
    Identifier,
    /// `::=` or `=` was looked for.
    Definition,
    /// The first term of a right-hand side was looked for.
    Term,
    /// The `;` that ends a rule was looked for.
    Terminator,
    /// The closing bracket of a bracketed construct was looked for.
    IncompleteDelimitedNode,
    /// The inside of `( ... )` was being parsed.
    Group,
    /// The inside of `[ ... ]` was being parsed.
    Optional,
    /// The inside of `{ ... }` was being parsed.
    Repeat,
    /// A rule was being parsed.
    Rule,
}

/// One level of a trace: where the attempt started, counted in characters
/// from the start of the source text, and what it was.
#[derive(Debug, Clone, Copy, PartialEq, Eq, Structural)]
pub struct Frame {
    pub position: usize,
    pub context: Context,
}

/// A failed parse. The trace starts where the failure arose and ends with the
/// outermost construct that was being parsed.
#[derive(Debug, PartialEq, Eq)]
pub struct ParseFailure {
    pub kind: FailureKind,
    pub trace: Vec<Frame>,
}

/// The mathematical value of a [`ParseFailure`].
pub struct Failure {
    pub kind: FailureKind,
    pub trace: Seq<(int, Context)>,
}

/// The values of the frames of a trace, in order.
pub open spec fn frames_of(trace: Seq<Frame>) -> Seq<(int, Context)> {
    trace.map_values(|frame: Frame| frame@)
}

impl View for Frame {
    type V = (int, Context);

    open spec fn view(&self) -> (int, Context) {
        (self.position as int, self.context)
    }
}

impl View for ParseFailure {
    type V = Failure;

    open spec fn view(&self) -> Failure {
        Failure { kind: self.kind, trace: frames_of(self.trace@) }
    }
}

impl Context {
    /// The label of this context as text.
    pub open spec fn label_text(self) -> Seq<char> {
        match self {
            Context::Identifier => "identifier"@,
            Context::Definition => "definition sign"@,
            Context::Term => "term"@,
            Context::Terminator => "rule terminator"@,
            Context::IncompleteDelimitedNode => "incomplete delimited node"@,
            Context::Group => "group"@,
            Context::Optional => "optional"@,
            Context::Repeat => "repeat"@,
            Context::Rule => "rule"@,
        }
    }

    /// The label of this context, for a diagnostic.
    pub fn label(self) -> (text: &'static str)
        ensures
            text@ == self.label_text(),
    {
        match self {
            Context::Identifier => "identifier",
            Context::Definition => "definition sign",
            Context::Term => "term",
            Context::Terminator => "rule terminator",
            Context::IncompleteDelimitedNode => "incomplete delimited node",
            Context::Group => "group",
            Context::Optional => "optional",
            Context::Repeat => "repeat",
            Context::Rule => "rule",
        }
    }
}

impl FailureKind {
    /// The name of this kind as text.
    pub open spec fn label_text(self) -> Seq<char> {
        match self {
            FailureKind::Recognition => "recognition failure"@,
            FailureKind::UnbalancedDelimiter => "unbalanced delimiter"@,
            FailureKind::MalformedRule => "malformed rule"@,
        }
    }

    /// The name of this kind, for a diagnostic.
    pub fn label(self) -> (text: &'static str)
        ensures
            text@ == self.label_text(),
    {
        match self {
            FailureKind::Recognition => "recognition failure",
            FailureKind::UnbalancedDelimiter => "unbalanced delimiter",
            FailureKind::MalformedRule => "malformed rule",
        }
    }
}

/// The character of a decimal digit.
pub open spec fn digit_char(digit: nat) -> char {
    if digit == 0 {
        '0'
    } else if digit == 1 {
        '1'
    } else if digit == 2 {
        '2'
    } else if digit == 3 {
        '3'
    } else if digit == 4 {
        '4'
    } else if digit == 5 {
        '5'
    } else if digit == 6 {
        '6'
    } else if digit == 7 {
        '7'
    } else if digit == 8 {
        '8'
    } else {
        '9'
    }
}

/// A number in decimal digits, without leading zeros.
pub open spec fn decimal_text(n: nat) -> Seq<char>
    decreases n,
{
    if n < 10 {
        seq![digit_char(n)]
    } else {
        decimal_text(n / 10).push(digit_char(n % 10))
    }
}

/// One frame as text: its label and its position.
pub open spec fn frame_text(frame: (int, Context)) -> Seq<char> {
    frame.1.label_text() + " at "@ + decimal_text(frame.0 as nat)
}

/// A trace as text: its frames from the innermost to the outermost.
pub open spec fn trace_text(trace: Seq<(int, Context)>) -> Seq<char>
    decreases trace.len(),
{
    if trace.len() == 0 {
        Seq::empty()
    } else if trace.len() == 1 {
        frame_text(trace[0])
    } else {
        trace_text(trace.drop_last()) + ", in "@ + frame_text(trace.last())
    }
}

impl Failure {
    /// The failure as text: its kind, and its trace.
    pub open spec fn message_text(self) -> Seq<char> {
        self.kind.label_text() + ": "@ + trace_text(self.trace)
    }
}

/// One decimal digit as text.
pub fn digit(value: usize) -> (text: &'static str)
    requires
        value < 10,
    ensures
        text@ == seq![digit_char(value as nat)],
{
    proof {
        reveal_strlit("0");
        reveal_strlit("1");
        reveal_strlit("2");
        reveal_strlit("3");
        reveal_strlit("4");
        reveal_strlit("5");
        reveal_strlit("6");
        reveal_strlit("7");
        reveal_strlit("8");
        reveal_strlit("9");
    }
    let text = if value == 0 {
        "0"
    } else if value == 1 {
        "1"
    } else if value == 2 {
        "2"
    } else if value == 3 {
        "3"
    } else if value == 4 {
        "4"
    } else if value == 5 {
        "5"
    } else if value == 6 {
        "6"
    } else if value == 7 {
        "7"
    } else if value == 8 {
        "8"
    } else {
        "9"
    };
    text
}

/// A number in decimal digits.
pub fn decimal(n: usize) -> (text: String)
    ensures
        text@ == decimal_text(n as nat),
    decreases n,
{
    if n < 10 {
        String::from_str(digit(n))
    } else {
        let mut text = decimal(n / 10);
        text.append(digit(n % 10));
        text
    }
}

impl ParseFailure {
    /// The failure as text for a reader: its kind, and what was being
    /// attempted at each level, from the innermost to the outermost.
    pub fn message(&self) -> (text: String)
        ensures
            text@ == self@.message_text(),
    {
        let mut text = String::from_str(self.kind.label());
        text.append(": ");
        let ghost head = text@;
        let mut i: usize = 0;
        while i < self.trace.len()
            invariant
                i <= self.trace.len(),
                head == self.kind.label_text() + ": "@,
                text@ == head + trace_text(frames_of(self.trace@).take(i as int)),
            decreases self.trace.len() - i,
        {
            let ghost before = frames_of(self.trace@).take(i as int);
            let ghost after = frames_of(self.trace@).take(i + 1);
            let frame = self.trace[i];
            assert(after.drop_last() =~= before);
            if i > 0 {
                text.append(", in ");
            }
            text.append(frame.context.label());
            text.append(" at ");
            let position = decimal(frame.position);
            text.append(position.as_str());
            i += 1;
        }
        assert(frames_of(self.trace@).take(i as int) =~= frames_of(self.trace@));
        text
    }
}

impl Clone for ParseFailure {
    /// A copy of the failure.
    fn clone(&self) -> (copy: Self)
        ensures
            copy@ == self@,
    {
        let mut trace: Vec<Frame> = Vec::new();
        let mut i: usize = 0;
        while i < self.trace.len()
            invariant
                i <= self.trace.len(),
                trace@ == self.trace@.take(i as int),
            decreases self.trace.len() - i,
        {
            trace.push(self.trace[i]);
            i += 1;
        }
        assert(self.trace@.take(i as int) == self.trace@);
        ParseFailure { kind: self.kind, trace }
    }
}

} // verus!
