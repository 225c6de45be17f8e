//! What this library takes on trust from `getopts`.
//!
//! Nothing in this file is proved. Each item says of one function or type of
//! `getopts` what the rest of the library relies on.

use vstd::prelude::*;
use vstd::string::*;
use crate::text::{text_of, texts};

verus! {

/// `getopts::Options`: the options that a parse goes by.
#[verifier::external_type_specification]
#[verifier::external_body]
pub struct ExOptions(getopts::Options);

/// `getopts::Matches`: what a parse found.
#[verifier::external_type_specification]
#[verifier::external_body]
pub struct ExMatches(getopts::Matches);

/// `getopts::Fail`: why a parse found nothing. Each of its five variants
/// holds the name of the option that it is about.
#[verifier::external_type_specification]
pub struct ExFail(getopts::Fail);

/// The option groups of a set of options, in the order in which they were
/// added: the short name, the long name, and whether the option takes a
/// value.
pub uninterp spec fn declared(options: getopts::Options) -> Seq<(Seq<char>, Seq<char>, bool)>;

/// Whether a set of options is as `getopts::Options::new` makes it, but for
/// groups that `optflag` and `optopt` added.
pub uninterp spec fn plain(options: getopts::Options) -> bool;

/// What `getopts::Options::parse` returns for the arguments `args`, on a
/// plain set of options with the groups `groups`.
pub uninterp spec fn parsed(
    groups: Seq<(Seq<char>, Seq<char>, bool)>,
    args: Seq<Seq<char>>,
) -> Result<getopts::Matches, getopts::Fail>;

/// What `getopts::Matches::opt_defined` returns for `name`.
pub uninterp spec fn defined(matches: getopts::Matches, name: Seq<char>) -> bool;

/// What `getopts::Matches::opt_present` returns for `name`.
pub uninterp spec fn present(matches: getopts::Matches, name: Seq<char>) -> bool;

/// What `getopts::Matches::opt_str` returns for `name`.
pub uninterp spec fn value(matches: getopts::Matches, name: Seq<char>) -> Option<Seq<char>>;

/// The free arguments of a match, in their order.
pub uninterp spec fn free(matches: getopts::Matches) -> Seq<Seq<char>>;

/// What `getopts::Fail` shows when it is displayed: one fixed sentence for
/// each variant, around the option's name in single quotes.
pub open spec fn shown(fail: getopts::Fail) -> Seq<char> {
    match fail {
        getopts::Fail::ArgumentMissing(name) => "Argument to option '"@ + name@ + "' missing"@,
        getopts::Fail::UnrecognizedOption(name) => "Unrecognized option: '"@ + name@ + "'"@,
        getopts::Fail::OptionMissing(name) => "Required option '"@ + name@ + "' missing"@,
        getopts::Fail::OptionDuplicated(name) => "Option '"@ + name@ + "' given more than once"@,
        getopts::Fail::UnexpectedArgument(name) => "Option '"@ + name@
            + "' does not take an argument"@,
    }
}

/// Every group has a short or a long name.
pub open spec fn all_named(groups: Seq<(Seq<char>, Seq<char>, bool)>) -> bool {
    forall|i: int| 0 <= i < groups.len() ==> (#[trigger] groups[i]).0.len() + groups[i].1.len() > 0
}

/// `getopts::Options::new`: a set of options without a group.
pub assume_specification[ getopts::Options::new ]() -> (r: getopts::Options)
    ensures
        declared(r) == Seq::<(Seq<char>, Seq<char>, bool)>::empty(),
        plain(r),
;

/// `getopts::Options::optflag`: adds a group that takes no value and may be
/// absent. The call panics on a short name of more than one byte and on a
/// long name of exactly one byte.
#[verifier::external_body]
pub(crate) fn add_flag(options: &mut getopts::Options, short: &str, long: &str, desc: &str)
    requires
        short.len() <= 1,
        long.len() != 1,
    ensures
        declared(*final(options)) == declared(*old(options)).push((short@, long@, false)),
        plain(*final(options)) == plain(*old(options)),
{
    options.optflag(short, long, desc);
}

/// `getopts::Options::optopt`: adds a group that takes a value and may be
/// absent. The call panics on a short name of more than one byte and on a
/// long name of exactly one byte.
#[verifier::external_body]
pub(crate) fn add_valued(
    options: &mut getopts::Options,
    short: &str,
    long: &str,
    desc: &str,
    hint: &str,
)
    requires
        short.len() <= 1,
        long.len() != 1,
    ensures
        declared(*final(options)) == declared(*old(options)).push((short@, long@, true)),
        plain(*final(options)) == plain(*old(options)),
{
    options.optopt(short, long, desc, hint);
}

/// `getopts::Options::parse`. The call panics on a group without a name. On
/// a plain set of options its result depends on the groups and the arguments
/// alone, and where it is a match, every name of a group is defined in it.
#[verifier::external_body]
pub(crate) fn parse(options: &getopts::Options, args: &[String]) -> (r: Result<
    getopts::Matches,
    getopts::Fail,
>)
    requires
        plain(*options),
        all_named(declared(*options)),
    ensures
        r == parsed(declared(*options), texts(args@)),
        r matches Ok(matches) ==> forall|i: int|
            0 <= i < declared(*options).len() ==> {
                &&& (#[trigger] declared(*options)[i]).0.len() > 0 ==> defined(
                    matches,
                    declared(*options)[i].0,
                )
                &&& declared(*options)[i].1.len() > 0 ==> defined(
                    matches,
                    declared(*options)[i].1,
                )
            },
{
    options.parse(args)
}

/// `getopts::Matches::opt_present`: whether the option was given. The call
/// panics on a name that is not defined.
pub assume_specification[ getopts::Matches::opt_present ](
    matches: &getopts::Matches,
    name: &str,
) -> (r: bool)
    requires
        defined(*matches, name@),
    ensures
        r == present(*matches, name@),
;

/// `getopts::Matches::opt_str`: the value that the option was given with.
/// The call panics on a name that is not defined.
pub assume_specification[ getopts::Matches::opt_str ](
    matches: &getopts::Matches,
    name: &str,
) -> (r: Option<String>)
    requires
        defined(*matches, name@),
    ensures
        text_of(r) == value(*matches, name@),
;

/// The field `free` of `getopts::Matches`, copied.
#[verifier::external_body]
pub(crate) fn free_arguments(matches: &getopts::Matches) -> (r: Vec<String>)
    ensures
        texts(r@) == free(*matches),
{
    matches.free.clone()
}

/// The `Display` of `getopts::Fail`, as a string: the sentence of the
/// variant, with the option's name in it.
#[verifier::external_body]
pub(crate) fn show(fail: &getopts::Fail) -> (r: String)
    ensures
        r@ == shown(*fail),
{
    fail.to_string()
}

} // verus!
