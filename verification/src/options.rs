//! The command line: its options and its free arguments.

use vstd::prelude::*;
use vstd::string::*;
use crate::error::{Failure, SeqError};
use crate::getopt::{
    add_flag, add_valued, all_named, declared, defined, free, free_arguments, parse, parsed, plain,
    present, show, shown, value,
};
use crate::text::{text_of, texts};

verus! {

/// The groups that the utility knows: `-w`, `-s string`, `-t string`, with
/// their long names.
pub open spec fn standard_groups() -> Seq<(Seq<char>, Seq<char>, bool)> {
    seq![
        ("w"@, "equal-width"@, false),
        ("s"@, "separator"@, true),
        ("t"@, "terminator"@, true),
    ]
}

/// The separator where none is given: a line feed.
pub open spec fn default_separator() -> Seq<char> {
    "\n"@
}

/// What a command line asks for.
#[derive(Clone, Debug, PartialEq, Eq)]
pub struct Invocation {
    /// Whether every row is padded to one width.
    pub equal_width: bool,
    /// What follows each value.
    pub separator: String,
    /// What follows the last row, if anything.
    pub terminator: Option<String>,
    /// The arguments that are no options: the sequence's numbers.
    pub free: Vec<String>,
}

/// An `Invocation` with its strings as sequences of characters.
pub struct Request {
    pub equal_width: bool,
    pub separator: Seq<char>,
    pub terminator: Option<Seq<char>>,
    pub free: Seq<Seq<char>>,
}

impl View for Invocation {
    type V = Request;

    open spec fn view(&self) -> Request {
        Request {
            equal_width: self.equal_width,
            separator: self.separator@,
            terminator: text_of(self.terminator),
            free: texts(self.free@),
        }
    }
}

/// What a match asks for: equal width where `w` is present, the value of
/// `s` as separator or else a line feed, the value of `t` as terminator, and
/// the free arguments.
pub open spec fn request_of(matches: getopts::Matches) -> Request {
    Request {
        equal_width: present(matches, "w"@),
        separator: match value(matches, "s"@) {
            Some(text) => text,
            None => default_separator(),
        },
        terminator: value(matches, "t"@),
        free: free(matches),
    }
}

/// What comes of a parse: the request of a match, or the parser's message as
/// an error.
pub open spec fn outcome_of(result: Result<getopts::Matches, getopts::Fail>) -> Result<
    Request,
    Failure,
> {
    match result {
        Ok(matches) => Ok(request_of(matches)),
        Err(fail) => Err(Failure::Options(shown(fail))),
    }
}

/// The names of the standard groups are of the lengths that `getopts`
/// accepts, and none of them is empty.
proof fn lemma_standard_names()
    ensures
        "w".len() == 1,
        "s".len() == 1,
        "t".len() == 1,
        "equal-width".len() == 11,
        "separator".len() == 9,
        "terminator".len() == 10,
        "w"@.len() == 1,
        "s"@.len() == 1,
        "t"@.len() == 1,
        all_named(standard_groups()),
{
    broadcast use is_ascii_spec_bytes;

    reveal_strlit("w");
    reveal_strlit("s");
    reveal_strlit("t");
    reveal_strlit("equal-width");
    reveal_strlit("separator");
    reveal_strlit("terminator");
    assert(is_ascii("w"));
    assert(is_ascii("s"));
    assert(is_ascii("t"));
    assert(is_ascii("equal-width"));
    assert(is_ascii("separator"));
    assert(is_ascii("terminator"));
}

/// The options of the utility.
pub fn options() -> (r: getopts::Options)
    ensures
        declared(r) == standard_groups(),
        plain(r),
{
    proof {
        lemma_standard_names();
    }
    let mut opts = getopts::Options::new();
    add_flag(&mut opts, "w", "equal-width", "");
    add_valued(&mut opts, "s", "separator", "", "");
    add_valued(&mut opts, "t", "terminator", "", "");
    assert(declared(opts) =~= standard_groups());
    opts
}

/// Reads what a match asks for.
pub fn settings(matches: &getopts::Matches) -> (r: Invocation)
    requires
        defined(*matches, "w"@),
        defined(*matches, "s"@),
        defined(*matches, "t"@),
    ensures
        r@ == request_of(*matches),
{
    let equal_width: bool = matches.opt_present("w");
    let separator: String = match matches.opt_str("s") {
        Some(text) => text,
        None => String::from_str("\n"),
    };
    let terminator: Option<String> = matches.opt_str("t");
    let free: Vec<String> = free_arguments(matches);
    Invocation { equal_width, separator, terminator, free }
}

/// Turns the parser's refusal into an error that keeps its message.
pub fn refusal(fail: &getopts::Fail) -> (r: SeqError)
    ensures
        r@ == Failure::Options(shown(*fail)),
{
    SeqError::Options(show(fail))
}

/// Reads a command line: the arguments behind the program's name.
///
/// The arguments are parsed against the standard groups. A refusal of the
/// parser is an error that carries its message; a match gives the request.
pub fn run(argv: &[String]) -> (r: Result<Invocation, SeqError>)
    ensures
        match r {
            Ok(invocation) => outcome_of(parsed(standard_groups(), texts(argv@))) == Ok::<
                Request,
                Failure,
            >(invocation@),
            Err(error) => outcome_of(parsed(standard_groups(), texts(argv@))) == Err::<
                Request,
                Failure,
            >(error@),
        },
{
    let opts = options();
    proof {
        lemma_standard_names();
    }
    match parse(&opts, argv) {
        Ok(matches) => {
            proof {
                let groups = declared(opts);
                assert(groups[0].0 == "w"@);
                assert(groups[1].0 == "s"@);
                assert(groups[2].0 == "t"@);
            }
            Ok(settings(&matches))
        },
        Err(fail) => Err(refusal(&fail)),
    }
}

} // verus!
