//! Texts as sequences of characters, white space, and texts without the
//! white space around them.

use vstd::prelude::*;
use vstd::string::*;

verus! {

/// The strings of a slice as sequences of characters.
pub open spec fn texts(args: Seq<String>) -> Seq<Seq<char>> {
    Seq::new(args.len(), |i: int| args[i]@)
}

/// The view of an optional string.
pub open spec fn text_of(text: Option<String>) -> Option<Seq<char>> {
    match text {
        Some(s) => Some(s@),
        None => None,
    }
}

/// Whether a character is white space, as Unicode's property `White_Space`
/// has it.
pub open spec fn is_space(c: char) -> bool {
    let code = c as u32;
    ||| 0x09 <= code <= 0x0d
    ||| code == 0x20
    ||| code == 0x85
    ||| code == 0xa0
    ||| code == 0x1680
    ||| 0x2000 <= code <= 0x200a
    ||| code == 0x2028
    ||| code == 0x2029
    ||| code == 0x202f
    ||| code == 0x205f
    ||| code == 0x3000
}

/// `text` without the white space it begins with.
pub open spec fn trim_start(text: Seq<char>) -> Seq<char>
    decreases text.len(),
{
    if text.len() > 0 && is_space(text[0]) {
        trim_start(text.drop_first())
    } else {
        text
    }
}

/// `text` without the white space it ends with.
pub open spec fn trim_end(text: Seq<char>) -> Seq<char>
    decreases text.len(),
{
    if text.len() > 0 && is_space(text.last()) {
        trim_end(text.drop_last())
    } else {
        text
    }
}

/// `text` without the white space around it.
pub open spec fn trimmed(text: Seq<char>) -> Seq<char> {
    trim_end(trim_start(text))
}

/// Whether a character is white space.
pub fn space(c: char) -> (r: bool)
    ensures
        r == is_space(c),
{
    let code: u32 = c as u32;
    (0x09 <= code && code <= 0x0d) || code == 0x20 || code == 0x85 || code == 0xa0 || code
        == 0x1680 || (0x2000 <= code && code <= 0x200a) || code == 0x2028 || code == 0x2029
        || code == 0x202f || code == 0x205f || code == 0x3000
}

/// `trim_start` drops exactly the leading characters that are white space.
proof fn lemma_trim_start(text: Seq<char>, from: int)
    requires
        0 <= from <= text.len(),
        forall|j: int| 0 <= j < from ==> is_space(text[j]),
        from < text.len() ==> !is_space(text[from]),
    ensures
        trim_start(text) == text.skip(from),
    decreases from,
{
    if from == 0 {
        assert(text.skip(0) =~= text);
    } else {
        lemma_trim_start(text.drop_first(), from - 1);
        assert(text.drop_first().skip(from - 1) =~= text.skip(from));
    }
}

/// `trim_end` drops exactly the trailing characters that are white space.
proof fn lemma_trim_end(text: Seq<char>, to: int)
    requires
        0 <= to <= text.len(),
        forall|j: int| to <= j < text.len() ==> is_space(text[j]),
        to > 0 ==> !is_space(text[to - 1]),
    ensures
        trim_end(text) == text.take(to),
    decreases text.len() - to,
{
    if to == text.len() {
        assert(text.take(to) =~= text);
    } else {
        lemma_trim_end(text.drop_last(), to);
        assert(text.drop_last().take(to) =~= text.take(to));
    }
}

/// Where the trimmed text stands within the text: from which character up
/// to which.
pub fn bounds(arg: &str) -> (r: (usize, usize))
    ensures
        r.0 <= r.1 <= arg@.len(),
        trimmed(arg@) == arg@.subrange(r.0 as int, r.1 as int),
{
    let n: usize = arg.unicode_len();
    let mut from: usize = 0;
    while from < n && space(arg.get_char(from))
        invariant
            n == arg@.len(),
            from <= n,
            forall|j: int| 0 <= j < from ==> is_space(arg@[j]),
        decreases n - from,
    {
        from += 1;
    }
    let mut to: usize = n;
    while to > from && space(arg.get_char(to - 1))
        invariant
            n == arg@.len(),
            from <= to <= n,
            forall|j: int| to <= j < n ==> is_space(arg@[j]),
        decreases to,
    {
        to -= 1;
    }
    proof {
        let rest = arg@.skip(from as int);
        lemma_trim_start(arg@, from as int);
        assert forall|j: int| to - from <= j < rest.len() implies is_space(rest[j]) by {
            assert(rest[j] == arg@[j + from]);
        }
        if to > from {
            assert(rest[to - from - 1] == arg@[to - 1]);
        }
        lemma_trim_end(rest, to - from);
        assert(rest.take(to - from) =~= arg@.subrange(from as int, to as int));
    }
    (from, to)
}

/// The text without the white space around it.
pub fn trim(arg: &str) -> (r: &str)
    ensures
        r@ == trimmed(arg@),
{
    let (from, to) = bounds(arg);
    arg.substring_char(from, to)
}

} // verus!
