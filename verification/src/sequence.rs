//! From the free arguments to the sequence they describe.

use vstd::prelude::*;
use vstd::string::*;
use crate::error::{Failure, Fault, SeqError};
use crate::number::{Number, MINUS_ONE, ONE, ZERO};
use crate::options::Invocation;

verus! {

/// A free argument as it was given, with the number that it was read as
/// once the white space around it was passed over: `None` where it is no
/// number.
#[derive(Clone, Debug, PartialEq, Eq)]
pub struct Literal {
    pub text: String,
    pub value: Option<Number>,
}

/// An arithmetic sequence: where it starts, how it steps, where it stops, and
/// how many digits follow the decimal point of each of its values.
#[derive(Clone, Copy, Debug, PartialEq, Eq, Structural)]
pub struct Sequence {
    pub first: Number,
    pub increment: Number,
    pub last: Number,
    pub precision: usize,
}

impl Sequence {
    /// The increment is not zero and does not point away from the last
    /// value: it is not at or below zero where `first < last`, and not at or
    /// above zero where `first > last`.
    pub open spec fn consistent(self) -> bool {
        &&& !self.increment.spec_is_zero()
        &&& self.first.spec_lt(self.last) ==> !self.increment.spec_le(Number { bits: ZERO })
        &&& self.last.spec_lt(self.first) ==> !(Number { bits: ZERO }).spec_le(self.increment)
    }
}

/// The number of characters behind the first decimal point of `text`; 0
/// where it holds no point.
pub open spec fn fraction_digits(text: Seq<char>) -> nat
    decreases text.len(),
{
    if text.len() == 0 {
        0
    } else if text[0] == '.' {
        (text.len() - 1) as nat
    } else {
        fraction_digits(text.drop_first())
    }
}

/// The largest `fraction_digits` among the literals' texts; 0 for none.
pub open spec fn precision_of(args: Seq<Literal>) -> nat
    decreases args.len(),
{
    if args.len() == 0 {
        0
    } else {
        let rest = precision_of(args.drop_last());
        let digits = fraction_digits(args.last().text@);
        if digits > rest {
            digits
        } else {
            rest
        }
    }
}

/// The text of the first literal that is no number.
pub open spec fn offending(args: Seq<Literal>) -> Option<Seq<char>>
    decreases args.len(),
{
    if args.len() == 0 {
        None
    } else if args[0].value is None {
        Some(args[0].text@)
    } else {
        offending(args.drop_first())
    }
}

/// What is wrong with an explicit increment, if anything.
pub open spec fn fault_of(first: Number, increment: Number, last: Number) -> Option<Fault> {
    if increment.spec_is_zero() {
        if first.spec_lt(last) {
            Some(Fault::ZeroIncrement)
        } else {
            Some(Fault::ZeroDecrement)
        }
    } else if increment.spec_le(Number { bits: ZERO }) && first.spec_lt(last) {
        Some(Fault::NeedsPositiveIncrement)
    } else if (Number { bits: ZERO }).spec_le(increment) && last.spec_lt(first) {
        Some(Fault::NeedsNegativeDecrement)
    } else {
        None
    }
}

/// The increment of a sequence that was given none: one where
/// `first <= last`, else minus one.
pub open spec fn default_increment_of(first: Number, last: Number) -> Number {
    if first.spec_le(last) {
        Number { bits: ONE }
    } else {
        Number { bits: MINUS_ONE }
    }
}

/// The sequence that the free arguments describe, or why there is none.
///
/// One argument is the last value of a sequence from one; two are the first
/// and the last; three are first, increment and last. Any other count is a
/// usage error, whatever the arguments hold. Otherwise the first argument
/// that is no number is reported. An explicit increment must pass
/// `fault_of`; a missing one is `default_increment_of`.
pub open spec fn getseq_spec(args: Seq<Literal>) -> Result<Sequence, Failure> {
    if args.len() < 1 || args.len() > 3 {
        Err(Failure::Usage)
    } else if let Some(text) = offending(args) {
        Err(Failure::InvalidNumber(text))
    } else {
        let first = if args.len() == 1 {
            Number { bits: ONE }
        } else {
            args[0].value->0
        };
        let last = args.last().value->0;
        let precision = precision_of(args) as usize;
        if args.len() == 3 {
            let increment = args[1].value->0;
            match fault_of(first, increment, last) {
                Some(fault) => Err(Failure::InvalidIncrement(fault)),
                None => Ok(Sequence { first, increment, last, precision }),
            }
        } else {
            Ok(Sequence { first, increment: default_increment_of(first, last), last, precision })
        }
    }
}

/// `fraction_digits` is unchanged by dropping leading characters that are no
/// point.
proof fn lemma_fraction_digits_skip(text: Seq<char>, n: int)
    requires
        0 <= n <= text.len(),
        forall|j: int| 0 <= j < n ==> text[j] != '.',
    ensures
        fraction_digits(text) == fraction_digits(text.skip(n)),
    decreases n,
{
    if n == 0 {
        assert(text.skip(0) =~= text);
    } else {
        lemma_fraction_digits_skip(text.drop_first(), n - 1);
        assert(text.drop_first().skip(n - 1) =~= text.skip(n));
    }
}

/// The number of characters behind the first decimal point of `text`.
pub fn digits_after_point(text: &str) -> (r: usize)
    ensures
        r == fraction_digits(text@),
{
    let n: usize = text.unicode_len();
    let mut i: usize = 0;
    while i < n
        invariant
            n == text@.len(),
            i <= n,
            forall|j: int| 0 <= j < i ==> text@[j] != '.',
        decreases n - i,
    {
        if text.get_char(i) == '.' {
            proof {
                lemma_fraction_digits_skip(text@, i as int);
            }
            return n - (i + 1);
        }
        i += 1;
    }
    proof {
        lemma_fraction_digits_skip(text@, n as int);
    }
    0
}

/// The precision of a sequence: the most digits that any argument has behind
/// its decimal point.
pub fn precision(args: &[Literal]) -> (r: usize)
    ensures
        r == precision_of(args@),
{
    let mut best: usize = 0;
    let mut i: usize = 0;
    while i < args.len()
        invariant
            i <= args.len(),
            best == precision_of(args@.take(i as int)),
        decreases args.len() - i,
    {
        let digits: usize = digits_after_point(args[i].text.as_str());
        proof {
            assert(args@.take(i + 1).drop_last() =~= args@.take(i as int));
        }
        if digits > best {
            best = digits;
        }
        i += 1;
    }
    proof {
        assert(args@.take(i as int) =~= args@);
    }
    best
}

/// What is wrong with an explicit increment, if anything.
pub fn fault(first: Number, increment: Number, last: Number) -> (r: Option<Fault>)
    ensures
        r == fault_of(first, increment, last),
{
    if increment.is_zero() {
        if first.lt(last) {
            Some(Fault::ZeroIncrement)
        } else {
            Some(Fault::ZeroDecrement)
        }
    } else if increment.le(Number::zero()) && first.lt(last) {
        Some(Fault::NeedsPositiveIncrement)
    } else if Number::zero().le(increment) && last.lt(first) {
        Some(Fault::NeedsNegativeDecrement)
    } else {
        None
    }
}

/// The increment of a sequence that was given none.
pub fn default_increment(first: Number, last: Number) -> (r: Number)
    ensures
        r == default_increment_of(first, last),
{
    if first.le(last) {
        Number::one()
    } else {
        Number::minus_one()
    }
}

/// The first literal that is no number, by its place.
fn first_invalid(args: &[Literal]) -> (r: Option<usize>)
    ensures
        match r {
            Some(i) => i < args.len() && offending(args@) == Some(args[i as int].text@),
            None => offending(args@) is None && forall|j: int|
                0 <= j < args.len() ==> args[j].value is Some,
        },
{
    let mut i: usize = 0;
    proof {
        assert(args@.skip(0) =~= args@);
    }
    while i < args.len()
        invariant
            i <= args.len(),
            offending(args@) == offending(args@.skip(i as int)),
            forall|j: int| 0 <= j < i ==> args[j].value is Some,
        decreases args.len() - i,
    {
        proof {
            assert(args@.skip(i as int).drop_first() =~= args@.skip(i + 1));
        }
        if args[i].value.is_none() {
            return Some(i);
        }
        i += 1;
    }
    None
}

/// Reads the free arguments as a sequence.
pub fn getseq(args: &[Literal]) -> (r: Result<Sequence, SeqError>)
    ensures
        match r {
            Ok(sequence) => getseq_spec(args@) == Ok::<Sequence, Failure>(sequence)
                && sequence.consistent(),
            Err(error) => getseq_spec(args@) == Err::<Sequence, Failure>(error@),
        },
{
    proof {
        lemma_getseq_consistent(args@);
    }
    let n: usize = args.len();
    if n < 1 || n > 3 {
        return Err(SeqError::Usage);
    }
    if let Some(i) = first_invalid(args) {
        return Err(SeqError::InvalidNumber(args[i].text.clone()));
    }
    let first: Number = if n == 1 {
        Number::one()
    } else {
        args[0].value.unwrap()
    };
    let last: Number = args[n - 1].value.unwrap();
    let digits: usize = precision(args);
    if n == 3 {
        let increment: Number = args[1].value.unwrap();
        match fault(first, increment, last) {
            Some(found) => Err(SeqError::InvalidIncrement(found)),
            None => Ok(Sequence { first, increment, last, precision: digits }),
        }
    } else {
        Ok(Sequence { first, increment: default_increment(first, last), last, precision: digits })
    }
}

/// The texts paired with the values that they were read as, place by place.
pub open spec fn literals_of(texts: Seq<String>, values: Seq<Option<Number>>) -> Seq<Literal> {
    Seq::new(texts.len(), |i: int| Literal { text: texts[i], value: values[i] })
}

/// Pairs each text with the value that it was read as.
pub fn literals(texts: &[String], values: &[Option<Number>]) -> (r: Vec<Literal>)
    requires
        values@.len() == texts@.len(),
    ensures
        r@ == literals_of(texts@, values@),
{
    let mut all: Vec<Literal> = Vec::new();
    let mut i: usize = 0;
    while i < texts.len()
        invariant
            values@.len() == texts@.len(),
            i <= texts.len(),
            all@ == literals_of(texts@, values@).take(i as int),
        decreases texts.len() - i,
    {
        all.push(Literal { text: texts[i].clone(), value: values[i] });
        i += 1;
        assert(all@ =~= literals_of(texts@, values@).take(i as int));
    }
    assert(all@ =~= literals_of(texts@, values@));
    all
}

/// The sequence that a command line asks for: its free arguments, each with
/// the value that it was read as, read as a sequence. A command line with
/// no free argument, or with more than three, is a usage error, and no
/// other is.
pub fn sequence_of(invocation: &Invocation, values: &[Option<Number>]) -> (r: Result<
    Sequence,
    SeqError,
>)
    requires
        values@.len() == invocation.free@.len(),
    ensures
        match r {
            Ok(sequence) => getseq_spec(literals_of(invocation.free@, values@)) == Ok::<
                Sequence,
                Failure,
            >(sequence) && sequence.consistent(),
            Err(error) => getseq_spec(literals_of(invocation.free@, values@)) == Err::<
                Sequence,
                Failure,
            >(error@),
        },
        (r matches Err(error) && error@ == Failure::Usage) <==> invocation.free@.len() == 0
            || invocation.free@.len() > 3,
{
    let args: Vec<Literal> = literals(invocation.free.as_slice(), values);
    proof {
        lemma_argument_count(args@);
    }
    getseq(args.as_slice())
}

/// Whether every literal was read as a number.
pub open spec fn all_numbers(args: Seq<Literal>) -> bool {
    forall|i: int| 0 <= i < args.len() ==> (#[trigger] args[i]).value is Some
}

/// `offending` finds nothing exactly where every literal is a number.
pub proof fn lemma_offending_none(args: Seq<Literal>)
    ensures
        offending(args) is None <==> all_numbers(args),
    decreases args.len(),
{
    if args.len() > 0 {
        lemma_offending_none(args.drop_first());
        if args[0].value is Some {
            if all_numbers(args.drop_first()) {
                assert forall|i: int| 0 <= i < args.len() implies (#[trigger] args[i]).value is Some by {
                    if i > 0 {
                        assert(args[i] == args.drop_first()[i - 1]);
                    }
                }
            } else {
                let j = choose|j: int|
                    0 <= j < args.drop_first().len() && !((#[trigger] args.drop_first()[j]).value is Some);
                assert(args[j + 1] == args.drop_first()[j]);
            }
        }
    }
}

/// Whatever the arguments hold, a sequence that comes of them is consistent.
pub proof fn lemma_getseq_consistent(args: Seq<Literal>)
    ensures
        getseq_spec(args) matches Ok(sequence) ==> sequence.consistent(),
{
}

/// The count of the arguments decides between a usage error and the rest:
/// none or more than three is a usage error, and nothing else is. One, two or
/// three arguments that are numbers give a sequence, unless there are three
/// and the increment has a fault.
pub proof fn lemma_argument_count(args: Seq<Literal>)
    ensures
        getseq_spec(args) == Err::<Sequence, Failure>(Failure::Usage) <==> args.len() == 0
            || args.len() > 3,
        1 <= args.len() <= 2 && all_numbers(args) ==> getseq_spec(args) is Ok,
        args.len() == 3 && all_numbers(args) ==> (getseq_spec(args) is Ok <==> fault_of(
            args[0].value->0,
            args[1].value->0,
            args[2].value->0,
        ) is None),
{
    lemma_offending_none(args);
}

/// One argument that is a number at or above one gives the sequence from
/// one, by one, up to that number.
pub proof fn lemma_single_argument(args: Seq<Literal>)
    requires
        args.len() == 1,
        args[0].value matches Some(last) && (Number { bits: ONE }).spec_le(last),
    ensures
        getseq_spec(args) == Ok::<Sequence, Failure>(
            Sequence {
                first: Number { bits: ONE },
                increment: Number { bits: ONE },
                last: args[0].value->0,
                precision: precision_of(args) as usize,
            },
        ),
{
    lemma_offending_none(args);
}

/// Three arguments that are numbers, with an increment that has no fault,
/// give the sequence of exactly these three.
pub proof fn lemma_explicit_increment(args: Seq<Literal>)
    requires
        args.len() == 3,
        all_numbers(args),
        fault_of(args[0].value->0, args[1].value->0, args[2].value->0) is None,
    ensures
        getseq_spec(args) == Ok::<Sequence, Failure>(
            Sequence {
                first: args[0].value->0,
                increment: args[1].value->0,
                last: args[2].value->0,
                precision: precision_of(args) as usize,
            },
        ),
{
    lemma_offending_none(args);
}

/// In the form of three arguments a zero increment always fails, as a zero
/// increment where `first < last` and as a zero decrement otherwise; an
/// increment below zero fails where `first < last`, and one above zero
/// where `first > last`.
pub proof fn lemma_increment_rejected(args: Seq<Literal>)
    requires
        args.len() == 3,
        all_numbers(args),
    ensures
        ({
            let first = args[0].value->0;
            let increment = args[1].value->0;
            let last = args[2].value->0;
            let zero = Number { bits: ZERO };
            &&& increment.spec_is_zero() && first.spec_lt(last) ==> getseq_spec(args) == Err::<
                Sequence,
                Failure,
            >(Failure::InvalidIncrement(Fault::ZeroIncrement))
            &&& increment.spec_is_zero() && !first.spec_lt(last) ==> getseq_spec(args) == Err::<
                Sequence,
                Failure,
            >(Failure::InvalidIncrement(Fault::ZeroDecrement))
            &&& increment.spec_lt(zero) && first.spec_lt(last) ==> getseq_spec(args) == Err::<
                Sequence,
                Failure,
            >(Failure::InvalidIncrement(Fault::NeedsPositiveIncrement))
            &&& zero.spec_lt(increment) && last.spec_lt(first) ==> getseq_spec(args) == Err::<
                Sequence,
                Failure,
            >(Failure::InvalidIncrement(Fault::NeedsNegativeDecrement))
        }),
{
    lemma_offending_none(args);
}

/// The precision is the largest number of characters that any argument has
/// behind its point: no argument has more, and unless it is 0 some argument
/// has exactly as many.
pub proof fn lemma_precision_is_maximum(args: Seq<Literal>)
    ensures
        forall|i: int|
            0 <= i < args.len() ==> fraction_digits(#[trigger] args[i].text@) <= precision_of(args),
        precision_of(args) == 0 || exists|i: int|
            0 <= i < args.len() && fraction_digits(#[trigger] args[i].text@) == precision_of(args),
    decreases args.len(),
{
    if args.len() > 0 {
        let front = args.drop_last();
        lemma_precision_is_maximum(front);
        assert forall|i: int| 0 <= i < args.len() implies fraction_digits(
            #[trigger] args[i].text@,
        ) <= precision_of(args) by {
            if i < args.len() - 1 {
                assert(args[i] == front[i]);
            }
        }
        if precision_of(args) != 0 {
            if fraction_digits(args.last().text@) == precision_of(args) {
                assert(fraction_digits(args[args.len() - 1].text@) == precision_of(args));
            } else {
                let j = choose|j: int|
                    0 <= j < front.len() && fraction_digits(#[trigger] front[j].text@)
                        == precision_of(front);
                assert(args[j] == front[j]);
            }
        }
    }
}

/// A text without a point has no fraction digits; a text with its first
/// point at `at` has as many as there are characters behind it.
pub proof fn lemma_fraction_digits(text: Seq<char>, at: int)
    requires
        0 <= at <= text.len(),
        forall|j: int| 0 <= j < at ==> text[j] != '.',
        at < text.len() ==> text[at] == '.',
    ensures
        at == text.len() ==> fraction_digits(text) == 0,
        at < text.len() ==> fraction_digits(text) == text.len() - at - 1,
{
    lemma_fraction_digits_skip(text, at);
}

} // verus!
