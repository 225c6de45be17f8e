//! What can be wrong with a command line, and how it is reported.

use vstd::prelude::*;
use vstd::string::*;

verus! {

/// The one line that says how the utility is called.
pub open spec fn usage_text() -> Seq<char> {
    "Usage: seq [-w] [-s string] [-t string] [first [incr]] last"@
}

/// The usage line.
pub fn usage() -> (r: &'static str)
    ensures
        r@ == usage_text(),
{
    "Usage: seq [-w] [-s string] [-t string] [first [incr]] last"
}

/// What is wrong with an explicit increment.
#[derive(Clone, Copy, Debug, PartialEq, Eq, Structural)]
pub enum Fault {
    /// The increment is zero and the sequence would ascend.
    ZeroIncrement,
    /// The increment is zero and the sequence would not ascend.
    ZeroDecrement,
    /// The sequence ascends and the increment is not above zero.
    NeedsPositiveIncrement,
    /// The sequence descends and the increment is not below zero.
    NeedsNegativeDecrement,
}

impl Fault {
    pub open spec fn message_text(self) -> Seq<char> {
        match self {
            Fault::ZeroIncrement => "seq: zero increment"@,
            Fault::ZeroDecrement => "seq: zero decrement"@,
            Fault::NeedsPositiveIncrement => "seq: needs positive increment"@,
            Fault::NeedsNegativeDecrement => "seq: needs negative decrement"@,
        }
    }

    /// The message for this fault.
    pub fn message(self) -> (r: &'static str)
        ensures
            r@ == self.message_text(),
    {
        match self {
            Fault::ZeroIncrement => "seq: zero increment",
            Fault::ZeroDecrement => "seq: zero decrement",
            Fault::NeedsPositiveIncrement => "seq: needs positive increment",
            Fault::NeedsNegativeDecrement => "seq: needs negative decrement",
        }
    }
}

/// Why no sequence came of a command line.
#[derive(Clone, Debug, PartialEq, Eq)]
pub enum SeqError {
    /// The number of free arguments is not one, two or three.
    Usage,
    /// A free argument is no number; it is kept as it was given.
    InvalidNumber(String),
    /// The explicit increment is zero or points away from the last value.
    InvalidIncrement(Fault),
    /// The options were not understood; the parser's own message is kept.
    Options(String),
}

/// A `SeqError` with its strings as sequences of characters.
pub enum Failure {
    Usage,
    InvalidNumber(Seq<char>),
    InvalidIncrement(Fault),
    Options(Seq<char>),
}

impl Failure {
    /// The message that reports the failure.
    pub open spec fn message_text(self) -> Seq<char> {
        match self {
            Failure::Usage => usage_text(),
            Failure::InvalidNumber(text) => "seq: invalid floating point argument: "@ + text,
            Failure::InvalidIncrement(fault) => fault.message_text(),
            Failure::Options(text) => text + "\n"@ + usage_text(),
        }
    }
}

impl View for SeqError {
    type V = Failure;

    open spec fn view(&self) -> Failure {
        match self {
            SeqError::Usage => Failure::Usage,
            SeqError::InvalidNumber(text) => Failure::InvalidNumber(text@),
            SeqError::InvalidIncrement(fault) => Failure::InvalidIncrement(*fault),
            SeqError::Options(text) => Failure::Options(text@),
        }
    }
}

impl SeqError {
    /// The message that reports the error: the usage line, the offending
    /// literal behind a fixed prefix, the increment's fault, or the option
    /// parser's message with the usage line below it.
    pub fn message(&self) -> (r: String)
        ensures
            r@ == self@.message_text(),
    {
        match self {
            SeqError::Usage => String::from_str(usage()),
            SeqError::InvalidNumber(text) => {
                String::from_str("seq: invalid floating point argument: ").concat(text.as_str())
            },
            SeqError::InvalidIncrement(fault) => String::from_str(fault.message()),
            SeqError::Options(text) => {
                let mut r: String = text.clone();
                r.append("\n");
                r.append(usage());
                r
            },
        }
    }
}

/// The message of an invalid number names the argument as it was given: the
/// message ends with it, character by character.
pub proof fn lemma_invalid_number_is_named(text: Seq<char>)
    ensures
        ({
            let message = Failure::InvalidNumber(text).message_text();
            &&& message.len() >= text.len()
            &&& message.subrange(message.len() - text.len(), message.len() as int) == text
        }),
{
    let message = Failure::InvalidNumber(text).message_text();
    assert(message.subrange(message.len() - text.len(), message.len() as int) =~= text);
}

} // verus!
