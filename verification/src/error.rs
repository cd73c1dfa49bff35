//! What a parse can fail with.

use core::fmt::Debug;
use vstd::prelude::*;
use vstd::string::StringExecFns;

verus! {

/// The failure of a parse over tokens of type `I` with a client whose own
/// failures are of type `E`.
#[derive(Debug, PartialEq, Eq)]
pub enum PrattError<I, E> {
    /// The client refused a token or could not build a node.
    UserError(E),
    /// An operand was needed where the tokens had run out.
    EmptyInput,
    /// A leaf stood where the expression could only be continued or begun
    /// with another shape.
    UnexpectedNilfix(I),
    /// A prefix operator stood where it cannot be used.
    UnexpectedPrefix(I),
    /// An infix operator stood where an operand was needed.
    UnexpectedInfix(I),
    /// A postfix operator stood where an operand was needed.
    UnexpectedPostfix(I),
    /// A bracket stood where it cannot be used.
    UnexpectedCircumfix(I),
    /// A separator stood where an operand was needed.
    UnexpectedInterfix(I),
}

/// The failure type of a client that never fails.
#[derive(Debug, Clone, Copy, PartialEq, Eq, Structural)]
pub struct NoError;

/// The text that `Debug` gives for `value`: a call of `format!` with the
/// pattern `{:?}`. Nothing is claimed of the text.
#[verifier::external_body]
fn debug_text<T: Debug>(value: &T) -> (text: String) {
    format!("{:?}", value)
}

/// `lead` followed by the `Debug` text of `token`.
fn found<T: Debug>(lead: &str, token: &T) -> (text: String)
    ensures
        begins_with(text@, lead@),
{
    let mut text = String::from_str(lead);
    let shown = debug_text(token);
    text.append(shown.as_str());
    assert(text@.subrange(0, lead@.len() as int) =~= lead@);
    text
}

/// Whether `text` begins with `lead`.
pub open spec fn begins_with(text: Seq<char>, lead: Seq<char>) -> bool {
    lead.len() <= text.len() && text.subrange(0, lead.len() as int) == lead
}

impl<I: Debug, E: Debug> PrattError<I, E> {
    /// The failure in words: for an unexpected token, what was expected and
    /// the `Debug` text of the token; for a failure of the client, its
    /// `Debug` text.
    pub fn describe(&self) -> (text: String)
        ensures
            self is EmptyInput ==> text@ == "Pratt parser was called with empty input."@,
            self is UnexpectedNilfix ==> begins_with(
                text@,
                "Expected Infix or Postfix, found Nilfix "@,
            ),
            self is UnexpectedPrefix ==> begins_with(
                text@,
                "Expected Infix or Postfix, found Prefix "@,
            ),
            self is UnexpectedCircumfix ==> begins_with(
                text@,
                "Expected Infix or Postfix, found Circumfix "@,
            ),
            self is UnexpectedInfix ==> begins_with(
                text@,
                "Expected Nilfix or Prefix, found Infix "@,
            ),
            self is UnexpectedPostfix ==> begins_with(
                text@,
                "Expected Nilfix or Prefix, found Postfix "@,
            ),
            self is UnexpectedInterfix ==> begins_with(
                text@,
                "Expected Nilfix or Prefix, found Interfix "@,
            ),
    {
        match self {
            PrattError::UserError(e) => debug_text(e),
            PrattError::EmptyInput => String::from_str("Pratt parser was called with empty input."),
            PrattError::UnexpectedNilfix(t) => found("Expected Infix or Postfix, found Nilfix ", t),
            PrattError::UnexpectedPrefix(t) => found("Expected Infix or Postfix, found Prefix ", t),
            PrattError::UnexpectedCircumfix(t) => found(
                "Expected Infix or Postfix, found Circumfix ",
                t,
            ),
            PrattError::UnexpectedInfix(t) => found("Expected Nilfix or Prefix, found Infix ", t),
            PrattError::UnexpectedPostfix(t) => found(
                "Expected Nilfix or Prefix, found Postfix ",
                t,
            ),
            PrattError::UnexpectedInterfix(t) => found(
                "Expected Nilfix or Prefix, found Interfix ",
                t,
            ),
        }
    }
}

impl NoError {
    /// The failure in words: there is none, and the text is empty.
    pub fn describe(&self) -> (text: String)
        ensures
            text@ == Seq::<char>::empty(),
    {
        String::new()
    }
}

} // verus!
