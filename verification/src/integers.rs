//! The utility without fractions: sequences of machine integers that step
//! upwards.

use vstd::prelude::*;
use vstd::string::*;
use crate::error::{Failure, Fault, SeqError};
use crate::text::{bounds, texts, trimmed};

verus! {

/// Whether a character is one of the ten digits.
pub open spec fn is_digit(c: char) -> bool {
    '0' <= c <= '9'
}

/// Whether every character is a digit.
pub open spec fn all_digits(digits: Seq<char>) -> bool {
    forall|i: int| 0 <= i < digits.len() ==> is_digit(#[trigger] digits[i])
}

/// The number that a string of digits writes in base ten.
pub open spec fn digits_value(digits: Seq<char>) -> nat
    decreases digits.len(),
{
    if digits.len() == 0 {
        0
    } else {
        (digits_value(digits.drop_last()) * 10 + (digits.last() as u32 - '0' as u32)) as nat
    }
}

/// The number that `digits` writes, where it is one digit or more and
/// nothing else.
pub open spec fn magnitude_of(digits: Seq<char>) -> Option<nat> {
    if digits.len() > 0 && all_digits(digits) {
        Some(digits_value(digits))
    } else {
        None
    }
}

/// The integer that `text` writes: digits, behind a `+` or nothing, or, where
/// `signed`, behind a `-`.
pub open spec fn integer_of(text: Seq<char>, signed: bool) -> Option<int> {
    if text.len() > 0 && text[0] == '+' {
        match magnitude_of(text.drop_first()) {
            Some(m) => Some(m as int),
            None => None,
        }
    } else if signed && text.len() > 0 && text[0] == '-' {
        match magnitude_of(text.drop_first()) {
            Some(m) => Some(-(m as int)),
            None => None,
        }
    } else {
        match magnitude_of(text) {
            Some(m) => Some(m as int),
            None => None,
        }
    }
}

/// The integer that `s2i` reads from an argument: the one that it writes once
/// trimmed, where that fits an `isize`.
pub open spec fn s2i_spec(arg: Seq<char>) -> Option<isize> {
    match integer_of(trimmed(arg), true) {
        Some(v) => if isize::MIN <= v <= isize::MAX {
            Some(v as isize)
        } else {
            None
        },
        None => None,
    }
}

/// The integer that `s2u` reads from an argument: the one without a `-` that
/// it writes once trimmed, where that fits a `usize`.
pub open spec fn s2u_spec(arg: Seq<char>) -> Option<usize> {
    match integer_of(trimmed(arg), false) {
        Some(v) => if v <= usize::MAX {
            Some(v as usize)
        } else {
            None
        },
        None => None,
    }
}

/// A string of digits writes no less than any of its beginnings.
proof fn lemma_digits_value_grows(digits: Seq<char>, n: int)
    requires
        0 <= n <= digits.len(),
        all_digits(digits),
    ensures
        digits_value(digits.take(n)) <= digits_value(digits),
    decreases digits.len() - n,
{
    if n == digits.len() {
        assert(digits.take(n) =~= digits);
    } else {
        assert(all_digits(digits.drop_last())) by {
            assert forall|i: int| 0 <= i < digits.drop_last().len() implies is_digit(
                #[trigger] digits.drop_last()[i],
            ) by {
                assert(digits.drop_last()[i] == digits[i]);
            }
        }
        lemma_digits_value_grows(digits.drop_last(), n);
        assert(digits.drop_last().take(n) =~= digits.take(n));
        assert(is_digit(digits.last()));
    }
}

/// Reads the characters from `from` up to `to` as digits.
fn magnitude(arg: &str, from: usize, to: usize) -> (r: Option<usize>)
    requires
        from <= to <= arg@.len(),
    ensures
        r == match magnitude_of(arg@.subrange(from as int, to as int)) {
            Some(m) => if m <= usize::MAX {
                Some(m as usize)
            } else {
                None
            },
            None => None,
        },
{
    let ghost digits = arg@.subrange(from as int, to as int);
    if from == to {
        return None;
    }
    let mut acc: usize = 0;
    let mut i: usize = from;
    while i < to
        invariant
            from <= i <= to <= arg@.len(),
            digits == arg@.subrange(from as int, to as int),
            all_digits(digits.take(i - from)),
            acc == digits_value(digits.take(i - from)),
        decreases to - i,
    {
        let c: char = arg.get_char(i);
        let code: u32 = c as u32;
        assert(digits[i - from] == c);
        if code < 48 || code > 57 {
            assert(!is_digit(digits[i - from]));
            return None;
        }
        let d: usize = (code - 48) as usize;
        proof {
            let next = digits.take(i - from + 1);
            assert(next.drop_last() =~= digits.take(i - from));
            assert(next.last() == c);
            assert(all_digits(next)) by {
                assert forall|j: int| 0 <= j < next.len() implies is_digit(#[trigger] next[j]) by {
                    if j < i - from {
                        assert(next[j] == digits.take(i - from)[j]);
                    }
                }
            }
            assert(digits_value(next) == acc * 10 + d);
        }
        if acc > (usize::MAX - d) / 10 {
            proof {
                if all_digits(digits) {
                    lemma_digits_value_grows(digits, i - from + 1);
                }
            }
            return None;
        }
        acc = acc * 10 + d;
        i += 1;
    }
    proof {
        assert(digits.take(to - from) =~= digits);
    }
    Some(acc)
}

/// The integer with a sign that an argument writes.
fn signed(arg: &str) -> (r: Option<isize>)
    ensures
        r == s2i_spec(arg@),
{
    let (from, to) = bounds(arg);
    let ghost text = arg@.subrange(from as int, to as int);
    if from < to {
        let c: char = arg.get_char(from);
        assert(text[0] == c);
        assert(text.drop_first() =~= arg@.subrange(from + 1, to as int));
        if c == '+' {
            return match magnitude(arg, from + 1, to) {
                Some(m) => if m <= isize::MAX as usize {
                    Some(m as isize)
                } else {
                    None
                },
                None => None,
            };
        }
        if c == '-' {
            return match magnitude(arg, from + 1, to) {
                Some(m) => if m == 0 {
                    Some(0)
                } else if m - 1 <= isize::MAX as usize {
                    Some(-((m - 1) as isize) - 1)
                } else {
                    None
                },
                None => None,
            };
        }
    }
    match magnitude(arg, from, to) {
        Some(m) => if m <= isize::MAX as usize {
            Some(m as isize)
        } else {
            None
        },
        None => None,
    }
}

/// The integer without a sign that an argument writes.
fn unsigned(arg: &str) -> (r: Option<usize>)
    ensures
        r == s2u_spec(arg@),
{
    let (from, to) = bounds(arg);
    let ghost text = arg@.subrange(from as int, to as int);
    if from < to {
        let c: char = arg.get_char(from);
        assert(text[0] == c);
        assert(text.drop_first() =~= arg@.subrange(from + 1, to as int));
        if c == '+' {
            return magnitude(arg, from + 1, to);
        }
    }
    magnitude(arg, from, to)
}

/// Reads an argument as an integer with a sign. White space around it is
/// passed over. Anything that is not a `+` or a `-` or nothing, and then one
/// digit or more, and anything beyond the range of `isize`, is an invalid
/// number, reported with the argument as it was given.
pub fn s2i(arg: &str) -> (r: Result<isize, SeqError>)
    ensures
        match s2i_spec(arg@) {
            Some(v) => r == Ok::<isize, SeqError>(v),
            None => r matches Err(error) && error@ == Failure::InvalidNumber(arg@),
        },
{
    match signed(arg) {
        Some(v) => Ok(v),
        None => Err(SeqError::InvalidNumber(String::from_str(arg))),
    }
}

/// Reads an argument as an integer without a sign. White space around it is
/// passed over. Anything that is not a `+` or nothing, and then one digit or
/// more, and anything beyond the range of `usize`, is an invalid number,
/// reported with the argument as it was given.
pub fn s2u(arg: &str) -> (r: Result<usize, SeqError>)
    ensures
        match s2u_spec(arg@) {
            Some(v) => r == Ok::<usize, SeqError>(v),
            None => r matches Err(error) && error@ == Failure::InvalidNumber(arg@),
        },
{
    match unsigned(arg) {
        Some(v) => Ok(v),
        None => Err(SeqError::InvalidNumber(String::from_str(arg))),
    }
}

/// A sequence of integers that steps upwards: from `first`, by `increment`,
/// as long as it does not pass `last`.
#[derive(Clone, Copy, Debug, PartialEq, Eq, Structural)]
pub struct Counting {
    pub first: isize,
    pub increment: usize,
    pub last: isize,
}

impl Counting {
    /// The increment is above zero.
    pub open spec fn steps(self) -> bool {
        self.increment > 0
    }

    /// How many values the sequence has: none where `last` is below
    /// `first`, else one more than the increment fits into their distance.
    pub open spec fn count(self) -> nat
        recommends
            self.steps(),
    {
        if self.last < self.first {
            0
        } else {
            ((self.last - self.first) / (self.increment as int) + 1) as nat
        }
    }

    /// The value at place `k`, counted from 0.
    pub open spec fn value(self, k: int) -> int {
        self.first + self.increment * k
    }

    /// The value at place `k`, counted from 0, or `None` behind the end.
    pub fn get(&self, k: usize) -> (r: Option<isize>)
        requires
            self.steps(),
        ensures
            k < self.count() ==> r == Some(self.value(k as int) as isize),
            k < self.count() ==> isize::MIN <= self.value(k as int) <= isize::MAX,
            k >= self.count() ==> r is None,
    {
        if self.last < self.first {
            return None;
        }
        let span: u128 = (self.last as i128 - self.first as i128) as u128;
        assert(k * self.increment <= usize::MAX * usize::MAX) by (nonlinear_arith)
            requires
                0 <= k <= usize::MAX,
                0 <= self.increment <= usize::MAX,
        ;
        let offset: u128 = k as u128 * self.increment as u128;
        proof {
            lemma_fits(span as int, self.increment as int, k as int);
        }
        if offset <= span {
            Some((self.first as i128 + offset as i128) as isize)
        } else {
            None
        }
    }
}

/// `k` times a step fits into a span exactly where `k` is at most the
/// number of whole steps in the span.
proof fn lemma_fits(span: int, step: int, k: int)
    requires
        span >= 0,
        step > 0,
        k >= 0,
    ensures
        k * step <= span <==> k <= span / step,
{
    vstd::arithmetic::div_mod::lemma_fundamental_div_mod(span, step);
    vstd::arithmetic::div_mod::lemma_mod_bound(span, step);
    let q = span / step;
    if k <= q {
        assert(k * step <= q * step) by (nonlinear_arith)
            requires
                k <= q,
                step > 0,
        ;
        assert(step * q == q * step) by (nonlinear_arith);
    } else {
        assert(k * step >= (q + 1) * step) by (nonlinear_arith)
            requires
                k >= q + 1,
                step > 0,
        ;
        assert((q + 1) * step == step * q + step) by (nonlinear_arith);
    }
}

/// The sequence that the arguments describe, or why there is none.
///
/// One argument is the last value of a sequence from one by one; two are the
/// first and the last of a sequence by one; three are first, increment and
/// last. Any other count is a usage error. Otherwise the first argument that
/// is not read as an integer is reported as an invalid number, the first and
/// the last read with a sign and the increment without. An increment of zero
/// is refused.
pub open spec fn run_spec(args: Seq<Seq<char>>) -> Result<Counting, Failure> {
    if args.len() == 1 {
        match s2i_spec(args[0]) {
            Some(last) => Ok(Counting { first: 1, increment: 1, last }),
            None => Err(Failure::InvalidNumber(args[0])),
        }
    } else if args.len() == 2 {
        match (s2i_spec(args[0]), s2i_spec(args[1])) {
            (Some(first), Some(last)) => Ok(Counting { first, increment: 1, last }),
            (None, _) => Err(Failure::InvalidNumber(args[0])),
            (Some(_), None) => Err(Failure::InvalidNumber(args[1])),
        }
    } else if args.len() == 3 {
        match (s2i_spec(args[0]), s2u_spec(args[1]), s2i_spec(args[2])) {
            (Some(first), Some(increment), Some(last)) => if increment != 0 {
                Ok(Counting { first, increment, last })
            } else if first < last {
                Err(Failure::InvalidIncrement(Fault::ZeroIncrement))
            } else {
                Err(Failure::InvalidIncrement(Fault::ZeroDecrement))
            },
            (None, _, _) => Err(Failure::InvalidNumber(args[0])),
            (Some(_), None, _) => Err(Failure::InvalidNumber(args[1])),
            (Some(_), Some(_), None) => Err(Failure::InvalidNumber(args[2])),
        }
    } else {
        Err(Failure::Usage)
    }
}

/// Reads the arguments as a sequence of integers.
pub fn run(args: Vec<String>) -> (r: Result<Counting, SeqError>)
    ensures
        match r {
            Ok(counting) => run_spec(texts(args@)) == Ok::<Counting, Failure>(
                counting,
            ) && counting.steps(),
            Err(error) => run_spec(texts(args@)) == Err::<Counting, Failure>(
                error@,
            ),
        },
{
    let n: usize = args.len();
    if n == 1 {
        match s2i(args[0].as_str()) {
            Ok(last) => Ok(Counting { first: 1, increment: 1, last }),
            Err(error) => Err(error),
        }
    } else if n == 2 {
        let first: isize = match s2i(args[0].as_str()) {
            Ok(v) => v,
            Err(error) => { return Err(error); },
        };
        match s2i(args[1].as_str()) {
            Ok(last) => Ok(Counting { first, increment: 1, last }),
            Err(error) => Err(error),
        }
    } else if n == 3 {
        let first: isize = match s2i(args[0].as_str()) {
            Ok(v) => v,
            Err(error) => { return Err(error); },
        };
        let increment: usize = match s2u(args[1].as_str()) {
            Ok(v) => v,
            Err(error) => { return Err(error); },
        };
        let last: isize = match s2i(args[2].as_str()) {
            Ok(v) => v,
            Err(error) => { return Err(error); },
        };
        if increment != 0 {
            Ok(Counting { first, increment, last })
        } else if first < last {
            Err(SeqError::InvalidIncrement(Fault::ZeroIncrement))
        } else {
            Err(SeqError::InvalidIncrement(Fault::ZeroDecrement))
        }
    } else {
        Err(SeqError::Usage)
    }
}

/// Every value of a sequence lies between `first` and `last`, each is one
/// increment above the one before it, and one more step would pass `last`.
pub proof fn lemma_counting(counting: Counting, k: int)
    requires
        counting.steps(),
        0 <= k < counting.count(),
    ensures
        counting.first <= counting.value(k) <= counting.last,
        counting.value(0) == counting.first,
        counting.value(k + 1) == counting.value(k) + counting.increment,
        counting.value(counting.count() as int) > counting.last,
{
    let span = counting.last - counting.first;
    let step = counting.increment as int;
    lemma_fits(span, step, k);
    lemma_fits(span, step, counting.count() as int);
    assert(counting.increment * (k + 1) == counting.increment * k + counting.increment)
        by (nonlinear_arith);
    assert(counting.increment * k >= 0) by (nonlinear_arith)
        requires
            counting.increment >= 0,
            k >= 0,
    ;
    assert(counting.increment * k == k * step) by (nonlinear_arith)
        requires
            step == counting.increment,
    ;
    assert(counting.increment * (counting.count() as int) == (counting.count() as int) * step)
        by (nonlinear_arith)
        requires
            step == counting.increment,
    ;
}

/// The count of the arguments decides between a usage error and the rest:
/// none or more than three is a usage error, and nothing else is. With one,
/// two or three arguments, the first that is not read as an integer is the
/// one reported.
pub proof fn lemma_integers_argument_count(args: Seq<Seq<char>>)
    ensures
        run_spec(args) == Err::<Counting, Failure>(Failure::Usage) <==> args.len() == 0
            || args.len() > 3,
        1 <= args.len() <= 3 && s2i_spec(args[0]) is None ==> run_spec(args) == Err::<
            Counting,
            Failure,
        >(Failure::InvalidNumber(args[0])),
        1 <= args.len() <= 2 && (forall|i: int| 0 <= i < args.len() ==> s2i_spec(args[i]) is Some)
            ==> run_spec(args) is Ok,
{
}

/// One argument that reads as the integer `last` gives the sequence
/// 1, 2, 3 and so on up to `last`: it has `last` values where `last` is at
/// least one, and none otherwise.
pub proof fn lemma_counts_from_one(args: Seq<Seq<char>>, last: isize)
    requires
        args.len() == 1,
        s2i_spec(args[0]) == Some(last),
    ensures
        run_spec(args) matches Ok(counting) && {
            &&& counting.steps()
            &&& counting.count() == if last >= 1 {
                last as int
            } else {
                0
            }
            &&& forall|k: int| 0 <= k < counting.count() ==> #[trigger] counting.value(k) == 1 + k
        },
{
}

/// Three arguments that read as the integers `first`, `increment` above
/// zero and `last` give a sequence whose value at place `k` is
/// `first + increment * k`, and which has `(last - first) / increment + 1`
/// values where `last` is not below `first`, and none otherwise.
pub proof fn lemma_counts_by_steps(args: Seq<Seq<char>>, first: isize, increment: usize, last: isize)
    requires
        args.len() == 3,
        s2i_spec(args[0]) == Some(first),
        s2u_spec(args[1]) == Some(increment),
        s2i_spec(args[2]) == Some(last),
        increment > 0,
    ensures
        run_spec(args) matches Ok(counting) && {
            &&& counting.steps()
            &&& counting.count() == if last >= first {
                (last - first) / (increment as int) + 1
            } else {
                0
            }
            &&& forall|k: int| #[trigger] counting.value(k) == first + increment * k
        },
{
    if last >= first {
        lemma_fits(last - first, increment as int, 0);
    }
}

} // verus!
