//! Laying out the rows of a sequence.
//!
//! The caller owns the arithmetic and the output stream. It offers each
//! value in turn, with the value's rendering, and is told what to write and
//! which value to offer next, or that the sequence is over.

use vstd::prelude::*;
use vstd::string::*;
use crate::text::text_of;
use crate::number::Number;
use crate::options::Invocation;
use crate::sequence::Sequence;

verus! {

/// `n` times the character `0`.
pub open spec fn zeros(n: nat) -> Seq<char> {
    Seq::new(n, |i: int| '0')
}

/// `text`, with as many `0` in front as it takes to reach `width`
/// characters; `text` itself where it is that long already.
pub open spec fn padded(text: Seq<char>, width: nat) -> Seq<char> {
    if text.len() >= width {
        text
    } else {
        zeros((width - text.len()) as nat) + text
    }
}

/// The width of every row: with equal width asked for, the length of the
/// longer of the renderings of the first and the last value; else 1.
pub open spec fn width_of(equal_width: bool, first: Seq<char>, last: Seq<char>) -> nat {
    if !equal_width {
        1
    } else if first.len() >= last.len() {
        first.len()
    } else {
        last.len()
    }
}

/// Whether a sequence runs upwards: decided once, by `first <= last`.
pub open spec fn ascending(sequence: Sequence) -> bool {
    sequence.first.spec_le(sequence.last)
}

/// Whether `value` is still within the sequence: at or below the last value
/// of one that runs upwards, at or above it otherwise.
pub open spec fn in_range(sequence: Sequence, value: Number) -> bool {
    if ascending(sequence) {
        value.spec_le(sequence.last)
    } else {
        sequence.last.spec_le(value)
    }
}

/// Pads `text` with `0` on the left to `width` characters.
pub fn pad(text: &str, width: usize) -> (r: String)
    ensures
        r@ == padded(text@, width as nat),
{
    let n: usize = text.unicode_len();
    let mut r: String = String::new();
    let mut i: usize = n;
    proof {
        reveal_strlit("0");
    }
    while i < width
        invariant
            n == text@.len(),
            n <= i,
            i <= width || i == n,
            r@ == zeros((i - n) as nat),
            "0"@ == seq!['0'],
        decreases width - i,
    {
        r.append("0");
        i += 1;
        assert(r@ =~= zeros((i - n) as nat));
    }
    r.append(text);
    r
}

/// The width of every row.
pub fn width(equal_width: bool, first: &str, last: &str) -> (r: usize)
    ensures
        r == width_of(equal_width, first@, last@),
{
    if !equal_width {
        return 1;
    }
    let a: usize = first.unicode_len();
    let b: usize = last.unicode_len();
    if a >= b {
        a
    } else {
        b
    }
}

/// Whether `value` is still within the sequence.
pub fn admits(sequence: &Sequence, value: Number) -> (r: bool)
    ensures
        r == in_range(*sequence, value),
{
    if sequence.first.le(sequence.last) {
        value.le(sequence.last)
    } else {
        sequence.last.le(value)
    }
}

/// What the caller does next.
#[derive(Clone, Debug, PartialEq, Eq)]
pub enum Action {
    /// Write `text`, then offer `first + increment * next`.
    Write { text: String, next: u64 },
    /// Write `text`, if there is any, and stop.
    Finish { text: Option<String> },
}

/// An `Action` with its strings as sequences of characters.
pub enum Step {
    Write { text: Seq<char>, next: u64 },
    Finish { text: Option<Seq<char>> },
}

impl View for Action {
    type V = Step;

    open spec fn view(&self) -> Step {
        match self {
            Action::Write { text, next } => Step::Write { text: text@, next: *next },
            Action::Finish { text } => Step::Finish { text: text_of(*text) },
        }
    }
}

/// The state of one emission: the sequence, the layout of its rows, and the
/// number of rows laid out so far.
#[derive(Clone, Debug, PartialEq, Eq)]
pub struct Emitter {
    pub sequence: Sequence,
    pub separator: String,
    pub width: usize,
    pub terminator: Option<String>,
    pub count: u64,
}

impl Emitter {
    /// The answer to an offered value: the row to write and the multiple of
    /// the increment to offer next, or the terminator once the value is out
    /// of range.
    pub open spec fn answer(self, value: Number, rendered: Seq<char>) -> Step {
        if in_range(self.sequence, value) {
            Step::Write {
                text: padded(rendered, self.width as nat) + self.separator@,
                next: (self.count + 1) as u64,
            }
        } else {
            Step::Finish { text: text_of(self.terminator) }
        }
    }

    /// An emission that has laid out no row yet. The first value to offer is
    /// the sequence's first.
    pub fn new(sequence: Sequence, separator: String, width: usize, terminator: Option<String>) -> (r:
        Emitter)
        ensures
            r == (Emitter { sequence, separator, width, terminator, count: 0 }),
    {
        Emitter { sequence, separator, width, terminator, count: 0 }
    }

    /// The emission of `sequence` as a command line asks for it: with its
    /// separator and terminator, and with the width that follows from its
    /// choice of equal width and the renderings of the sequence's first and
    /// last value.
    pub fn of(invocation: Invocation, sequence: Sequence, first: &str, last: &str) -> (r: Emitter)
        ensures
            r == (Emitter {
                sequence,
                separator: invocation.separator,
                width: width_of(invocation.equal_width, first@, last@) as usize,
                terminator: invocation.terminator,
                count: 0,
            }),
    {
        let width: usize = width(invocation.equal_width, first, last);
        Emitter::new(sequence, invocation.separator, width, invocation.terminator)
    }

    /// Takes the value whose turn it is, with its rendering, and says what to
    /// do. A value in range gives its row, the rendering padded to the
    /// width and followed by the separator, and counts it; the first value
    /// out of range ends the emission and leaves the state as it was.
    pub fn step(&mut self, value: Number, rendered: &str) -> (r: Action)
        requires
            old(self).count < u64::MAX,
        ensures
            r@ == old(self).answer(value, rendered@),
            in_range(old(self).sequence, value) ==> *final(self) == (Emitter {
                count: (old(self).count + 1) as u64,
                ..*old(self)
            }),
            !in_range(old(self).sequence, value) ==> *final(self) == *old(self),
    {
        if admits(&self.sequence, value) {
            let mut text: String = pad(rendered, self.width);
            text.append(self.separator.as_str());
            self.count = self.count + 1;
            Action::Write { text, next: self.count }
        } else {
            Action::Finish { text: self.terminator.clone() }
        }
    }
}

/// Padding never truncates: the padded text ends with the text itself, all
/// that stands before it is `0`, and its length is the larger of the text's
/// length and the width. Padding what is padded changes nothing.
pub proof fn lemma_padded(text: Seq<char>, width: nat)
    ensures
        padded(padded(text, width), width) == padded(text, width),
        padded(text, width).len() >= width,
        padded(text, width).len() >= text.len(),
        padded(text, width).len() == width || padded(text, width).len() == text.len(),
        padded(text, width).subrange(
            padded(text, width).len() - text.len(),
            padded(text, width).len() as int,
        ) == text,
        forall|i: int|
            0 <= i < padded(text, width).len() - text.len() ==> padded(text, width)[i] == '0',
{
    let whole = padded(text, width);
    assert(whole.subrange(whole.len() - text.len(), whole.len() as int) =~= text);
}

/// With equal width asked for, the width is the length of the longer of the
/// two renderings, no row is shorter than it, and a row whose rendering is
/// no longer than it has exactly that length.
pub proof fn lemma_equal_width(first: Seq<char>, last: Seq<char>, text: Seq<char>)
    ensures
        width_of(true, first, last) >= first.len(),
        width_of(true, first, last) >= last.len(),
        width_of(true, first, last) == first.len() || width_of(true, first, last) == last.len(),
        padded(text, width_of(true, first, last)).len() >= width_of(true, first, last),
        text.len() <= width_of(true, first, last) ==> padded(
            text,
            width_of(true, first, last),
        ).len() == width_of(true, first, last),
{
}

/// Without equal width no rendering that holds a character is changed.
pub proof fn lemma_natural_width(first: Seq<char>, last: Seq<char>, text: Seq<char>)
    requires
        text.len() >= 1,
    ensures
        padded(text, width_of(false, first, last)) == text,
{
}

/// A value in range is answered with its row: the rendering, padded to the
/// width, then the separator, so that no row is shorter than the width and
/// the separator together. The row counts: the multiple to offer next is one
/// more than the rows so far. A value out of range is answered with the
/// terminator.
pub proof fn lemma_answer(emitter: Emitter, value: Number, rendered: Seq<char>)
    requires
        emitter.count < u64::MAX,
    ensures
        in_range(emitter.sequence, value) ==> (emitter.answer(value, rendered) matches Step::Write {
            text,
            next,
        } && {
            &&& text == padded(rendered, emitter.width as nat) + emitter.separator@
            &&& text.len() >= emitter.width + emitter.separator@.len()
            &&& text.len() >= rendered.len() + emitter.separator@.len()
            &&& next == emitter.count + 1
        }),
        !in_range(emitter.sequence, value) ==> emitter.answer(value, rendered) == (Step::Finish {
            text: text_of(emitter.terminator),
        }),
{
}

/// The emitter once `n` more rows are laid out.
pub open spec fn advanced(emitter: Emitter, n: nat) -> Emitter {
    Emitter { count: (emitter.count + n) as u64, ..emitter }
}

/// The rows of the offers, one behind the other: each rendering padded to
/// the width and followed by the separator.
pub open spec fn rows(width: nat, separator: Seq<char>, offers: Seq<(Number, Seq<char>)>) -> Seq<
    char,
>
    decreases offers.len(),
{
    if offers.len() == 0 {
        Seq::<char>::empty()
    } else {
        padded(offers[0].1, width) + separator + rows(width, separator, offers.drop_first())
    }
}

/// What is written when the caller offers `offers` in turn, each value with
/// its rendering, follows each answer, and stops at the first answer that
/// finishes.
pub open spec fn written(emitter: Emitter, offers: Seq<(Number, Seq<char>)>) -> Seq<char>
    decreases offers.len(),
{
    if offers.len() == 0 {
        Seq::<char>::empty()
    } else {
        match emitter.answer(offers[0].0, offers[0].1) {
            Step::Write { text, next } => text + written(
                Emitter { count: next, ..emitter },
                offers.drop_first(),
            ),
            Step::Finish { text } => match text {
                Some(text) => text,
                None => Seq::<char>::empty(),
            },
        }
    }
}

/// As long as every offered value is in range, what is written is the rows
/// of all the offers, and the answer to the offer at place `k` asks for the
/// multiple `k + 1` above the rows that were there before.
pub proof fn lemma_written_in_range(emitter: Emitter, offers: Seq<(Number, Seq<char>)>)
    requires
        emitter.count + offers.len() < u64::MAX,
        forall|k: int| 0 <= k < offers.len() ==> in_range(emitter.sequence, (#[trigger] offers[k]).0),
    ensures
        written(emitter, offers) == rows(emitter.width as nat, emitter.separator@, offers),
        forall|k: int|
            0 <= k < offers.len() ==> (#[trigger] advanced(emitter, k as nat).answer(
                offers[k].0,
                offers[k].1,
            ) matches Step::Write { text, next } && next == emitter.count + k + 1),
    decreases offers.len(),
{
    if offers.len() > 0 {
        let rest = offers.drop_first();
        let after = Emitter { count: (emitter.count + 1) as u64, ..emitter };
        assert forall|k: int| 0 <= k < rest.len() implies in_range(
            after.sequence,
            (#[trigger] rest[k]).0,
        ) by {
            assert(rest[k] == offers[k + 1]);
        }
        lemma_written_in_range(after, rest);
        assert(in_range(emitter.sequence, offers[0].0));
        assert(written(emitter, offers) =~= rows(
            emitter.width as nat,
            emitter.separator@,
            offers,
        ));
    }
}

/// Where the offer at place `n` is the first whose value is out of range,
/// exactly the `n` offers before it are written, each as its row, none left
/// out and none beyond, and the terminator follows where there is one.
pub proof fn lemma_written_until_out_of_range(
    emitter: Emitter,
    offers: Seq<(Number, Seq<char>)>,
    n: int,
)
    requires
        0 <= n < offers.len(),
        emitter.count + n < u64::MAX,
        forall|k: int| 0 <= k < n ==> in_range(emitter.sequence, (#[trigger] offers[k]).0),
        !in_range(emitter.sequence, offers[n].0),
    ensures
        written(emitter, offers) == rows(emitter.width as nat, emitter.separator@, offers.take(n))
            + match emitter.terminator {
            Some(text) => text@,
            None => Seq::<char>::empty(),
        },
    decreases n,
{
    if n == 0 {
        assert(offers.take(0) =~= Seq::<(Number, Seq<char>)>::empty());
        assert(written(emitter, offers) =~= rows(
            emitter.width as nat,
            emitter.separator@,
            offers.take(n),
        ) + match emitter.terminator {
            Some(text) => text@,
            None => Seq::<char>::empty(),
        });
    } else {
        let rest = offers.drop_first();
        let after = Emitter { count: (emitter.count + 1) as u64, ..emitter };
        assert forall|k: int| 0 <= k < n - 1 implies in_range(
            after.sequence,
            (#[trigger] rest[k]).0,
        ) by {
            assert(rest[k] == offers[k + 1]);
        }
        assert(rest[n - 1] == offers[n]);
        lemma_written_until_out_of_range(after, rest, n - 1);
        assert(in_range(emitter.sequence, offers[0].0));
        assert(offers.take(n).drop_first() =~= rest.take(n - 1));
        assert(offers.take(n)[0] == offers[0]);
        assert(written(emitter, offers) =~= rows(
            emitter.width as nat,
            emitter.separator@,
            offers.take(n),
        ) + match emitter.terminator {
            Some(text) => text@,
            None => Seq::<char>::empty(),
        });
    }
}

/// `n` rows hold at least `n` times the width and the separator.
pub proof fn lemma_rows_length(width: nat, separator: Seq<char>, offers: Seq<(Number, Seq<char>)>)
    ensures
        rows(width, separator, offers).len() >= offers.len() * (width + separator.len()),
    decreases offers.len(),
{
    if offers.len() > 0 {
        lemma_rows_length(width, separator, offers.drop_first());
        assert(offers.len() * (width + separator.len()) == (offers.len() - 1) * (width
            + separator.len()) + (width + separator.len())) by (nonlinear_arith);
    } else {
        assert(offers.len() * (width + separator.len()) == 0) by (nonlinear_arith)
            requires
                offers.len() == 0,
        ;
    }
}

} // verus!
