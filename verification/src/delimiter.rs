//! The text between an opening bracket and the closing bracket that matches
//! it.

use parse_hyperlinks::take_until_unbalanced;
use vstd::prelude::*;

verus! {

/// Where the scan for an unbalanced closing bracket stops, when it starts at
/// `from` inside `depth` brackets that are still open: at the first `close`
/// that matches none of the `open` seen, or at the end of the text when every
/// bracket seen was closed again. A backslash hides the character after it.
/// There is no such place when the text ends inside an open bracket.
pub open spec fn unbalanced_close(
    text: Seq<char>,
    open: char,
    close: char,
    depth: nat,
    from: int,
) -> Option<int>
    decreases text.len() + 1 - from,
{
    if from >= text.len() {
        if depth == 0 {
            Some(text.len() as int)
        } else {
            None
        }
    } else if text[from] == '\\' {
        unbalanced_close(text, open, close, depth, from + 2)
    } else if text[from] == open {
        unbalanced_close(text, open, close, depth + 1, from + 1)
    } else if text[from] == close {
        if depth == 0 {
            Some(from)
        } else {
            unbalanced_close(text, open, close, (depth - 1) as nat, from + 1)
        }
    } else {
        unbalanced_close(text, open, close, depth, from + 1)
    }
}

/// The scan stops inside the text or at its end. Where it stops inside, it
/// stops not before its start, and at a closing bracket.
pub proof fn lemma_unbalanced_close_bounds(
    text: Seq<char>,
    open: char,
    close: char,
    depth: nat,
    from: int,
)
    requires
        0 <= from,
    ensures
        unbalanced_close(text, open, close, depth, from) matches Some(at) ==> {
            &&& 0 <= at <= text.len()
            &&& at < text.len() ==> from <= at && text[at] == close
        },
    decreases text.len() + 1 - from,
{
    if from >= text.len() {
    } else if text[from] == '\\' {
        lemma_unbalanced_close_bounds(text, open, close, depth, from + 2);
    } else if text[from] == open {
        lemma_unbalanced_close_bounds(text, open, close, depth + 1, from + 1);
    } else if text[from] == close {
        if depth > 0 {
            lemma_unbalanced_close_bounds(text, open, close, (depth - 1) as nat, from + 1);
        }
    } else {
        lemma_unbalanced_close_bounds(text, open, close, depth, from + 1);
    }
}

/// The text in front of the place inside it at which the scan stops is
/// balanced: scanned alone, from the same start and depth, it is read to its
/// end with no bracket left open.
pub proof fn lemma_inner_is_balanced(
    text: Seq<char>,
    open: char,
    close: char,
    depth: nat,
    from: int,
)
    requires
        0 <= from,
    ensures
        unbalanced_close(text, open, close, depth, from) matches Some(at) ==> at < text.len()
            ==> unbalanced_close(text.take(at), open, close, depth, from) == Some(at),
    decreases text.len() + 1 - from,
{
    if let Some(at) = unbalanced_close(text, open, close, depth, from) {
        if at < text.len() {
            lemma_unbalanced_close_bounds(text, open, close, depth, from);
            let inner = text.take(at);
            if text[from] == '\\' {
                lemma_unbalanced_close_bounds(text, open, close, depth, from + 2);
                lemma_inner_is_balanced(text, open, close, depth, from + 2);
            } else if text[from] == open {
                lemma_unbalanced_close_bounds(text, open, close, depth + 1, from + 1);
                lemma_inner_is_balanced(text, open, close, depth + 1, from + 1);
            } else if text[from] == close {
                if depth > 0 {
                    lemma_unbalanced_close_bounds(
                        text,
                        open,
                        close,
                        (depth - 1) as nat,
                        from + 1,
                    );
                    lemma_inner_is_balanced(text, open, close, (depth - 1) as nat, from + 1);
                }
            } else {
                lemma_unbalanced_close_bounds(text, open, close, depth, from + 1);
                lemma_inner_is_balanced(text, open, close, depth, from + 1);
            }
            if from < at {
            }
        }
    }
}

/// Calls `parse_hyperlinks::take_until_unbalanced`, which scans `text` for the
/// first closing bracket that no opening bracket before it accounts for, and
/// hands out the text before that bracket, or the whole text when it has no
/// such bracket and no bracket is left open. The contract claims that the
/// scan is [`unbalanced_close`] from the start of the text: it counts `open`
/// and `close`, skips a backslash together with the character after it, and
/// gives nothing when the text ends inside an open bracket. The bound on the
/// length keeps the scan's signed 32-bit counter of open brackets in range.
#[verifier::external_body]
pub(crate) fn take_unbalanced<'a>(text: &'a str, open: char, close: char) -> (inner: Option<
    &'a str,
>)
    requires
        text@.len() <= i32::MAX,
    ensures
        match inner {
            Some(inner) => unbalanced_close(text@, open, close, 0, 0) matches Some(at)
                && inner@ == text@.take(at),
            None => unbalanced_close(text@, open, close, 0, 0) is None,
        },
{
    match take_until_unbalanced(open, close)(text) {
        Ok((_, inner)) => Some(inner),
        Err(_) => None,
    }
}

} // verus!
