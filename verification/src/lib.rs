//! The arithmetic sequences of the `seq` utility: reading the command line,
//! deriving start, step, stop and precision from the numeric arguments, and
//! laying out the rows that are printed.
//!
//! Numbers are doubles, carried by their bit patterns. Reading a literal,
//! rendering a value and computing the next value are left to the caller;
//! everything that is decided about the results is decided here.
//!
//! The module `integers` is the utility without fractions: it reads and
//! counts machine integers, and leaves only the printing to the caller.

pub mod number;
pub mod text;
pub mod error;
pub mod sequence;
pub mod getopt;
pub mod emit;
pub mod options;
pub mod integers;

pub use emit::{Action, Emitter};
pub use error::{usage, Fault, SeqError};
pub use integers::{s2i, s2u, Counting};
pub use number::Number;
pub use options::{options, run, Invocation};
pub use sequence::{getseq, sequence_of, Literal, Sequence};
