use vstd::prelude::*;
use crate::error::{fault, ArgError};
use crate::text::{text_of, texts};

verus! {

/// `getopts::Options`: the options that a program takes. Nothing is known
/// of a value but what `declared` names.
#[verifier::external_type_specification]
#[verifier::external_body]
pub struct ExOptions(getopts::Options);

/// `getopts::Matches`: what the parser found in a command line. Nothing is
/// known of a value but what `given` and `free` name.
#[verifier::external_type_specification]
#[verifier::external_body]
pub struct ExMatches(getopts::Matches);

/// The options that `options` holds, in the order in which they were
/// declared. Of each: its short name, its long name, its description, the
/// hint for its argument, and whether it takes an argument.
pub uninterp spec fn declared(options: getopts::Options) -> Seq<
    (Seq<char>, Seq<char>, Seq<char>, Seq<char>, bool),
>;

/// What `matches` holds of each option, under its short and under its long
/// name: one entry for each time that the option was given, in order, with
/// the argument that it was given with, if any.
pub uninterp spec fn given(matches: getopts::Matches) -> Map<Seq<char>, Seq<Option<Seq<char>>>>;

/// The arguments in `matches` that belong to no option, in order.
pub uninterp spec fn free(matches: getopts::Matches) -> Seq<Seq<char>>;

/// What `getopts::Options::parse` makes of the arguments `args` under the
/// options `options`: what was given of each option and the arguments that
/// belong to none, or the reason for which the arguments are refused (the
/// number of the variant of `getopts::Fail`, from 0, and the option it names).
pub uninterp spec fn parse_spec(
    options: Seq<(Seq<char>, Seq<char>, Seq<char>, Seq<char>, bool)>,
    args: Seq<Seq<char>>,
) -> Result<(Map<Seq<char>, Seq<Option<Seq<char>>>>, Seq<Seq<char>>), (nat, Seq<char>)>;

/// The help text that `getopts::Options::usage` writes for the options
/// `options` under the line `brief`.
pub uninterp spec fn usage_spec(
    options: Seq<(Seq<char>, Seq<char>, Seq<char>, Seq<char>, bool)>,
    brief: Seq<char>,
) -> Seq<char>;

/// A short name of one ASCII character with a long name of two or more.
pub open spec fn valid_names(short: Seq<char>, long: Seq<char>) -> bool {
    short.len() == 1 && (short[0] as int) < 128 && long.len() >= 2
}

/// Every option has such a pair of names.
pub open spec fn all_valid(options: Seq<(Seq<char>, Seq<char>, Seq<char>, Seq<char>, bool)>) -> bool {
    forall|i: int| 0 <= i < options.len() ==> valid_names((#[trigger] options[i]).0, options[i].1)
}

/// The short and long names of the options, as one set.
pub open spec fn name_set(options: Seq<(Seq<char>, Seq<char>, Seq<char>, Seq<char>, bool)>) -> Set<
    Seq<char>,
> {
    Set::new(
        |name: Seq<char>|
            exists|i: int|
                0 <= i < options.len() && ((#[trigger] options[i]).0 == name || options[i].1
                    == name),
    )
}

/// The argument that an option was first given with, if it was given with one.
pub open spec fn first_value(values: Seq<Option<Seq<char>>>) -> Option<Seq<char>> {
    if values.len() > 0 {
        values[0]
    } else {
        None
    }
}

/// `getopts::Options::new`: a set of options that holds none.
#[verifier::external_body]
pub(crate) fn new_options() -> (options: getopts::Options)
    ensures
        declared(options).len() == 0,
{
    getopts::Options::new()
}

/// `getopts::Options::optopt`: declares an option that takes an argument
/// and may be left out. The crate panics on a short name of more than one
/// byte and on a long name of one byte; both are ruled out here. The option
/// is added after those already declared.
#[verifier::external_body]
pub(crate) fn optopt(options: &mut getopts::Options, short: &str, long: &str, desc: &str, hint: &str)
    requires
        valid_names(short@, long@),
    ensures
        declared(*final(options)) == declared(*old(options)).push(
            (short@, long@, desc@, hint@, true),
        ),
{
    options.optopt(short, long, desc, hint);
}

/// `getopts::Options::optflag`: declares an option that takes no argument
/// and may be left out, under the same conditions as `optopt`. The crate
/// gives it an empty hint.
#[verifier::external_body]
pub(crate) fn optflag(options: &mut getopts::Options, short: &str, long: &str, desc: &str)
    requires
        valid_names(short@, long@),
    ensures
        declared(*final(options)) == declared(*old(options)).push(
            (short@, long@, desc@, Seq::empty(), false),
        ),
{
    options.optflag(short, long, desc);
}

/// `getopts::Options::parse`: reads the arguments against the options, in
/// the style of parsing that new options have. The result is what
/// `parse_spec` names; a refusal comes as the variant of `ArgError` of the
/// same name. Where it succeeds, the matches hold every option under its short
/// and under its long name, and under no other name. The crate panics on an
/// option without any name, which is ruled out.
#[verifier::external_body]
pub(crate) fn parse(options: &getopts::Options, args: &Vec<String>) -> (r: Result<
    getopts::Matches,
    ArgError,
>)
    requires
        all_valid(declared(*options)),
    ensures
        match r {
            Ok(matches) => {
                &&& parse_spec(declared(*options), texts(args@)) matches Ok(found)
                &&& found.0 == given(matches)
                &&& found.1 == free(matches)
                &&& given(matches).dom() == name_set(declared(*options))
            },
            Err(e) => {
                &&& parse_spec(declared(*options), texts(args@)) matches Err(refusal)
                &&& refusal == fault(e)
            },
        },
{
    options.parse(args).map_err(
        |fail| match fail {
            getopts::Fail::ArgumentMissing(name) => ArgError::ArgumentMissing(name),
            getopts::Fail::UnrecognizedOption(name) => ArgError::UnrecognizedOption(name),
            getopts::Fail::OptionMissing(name) => ArgError::OptionMissing(name),
            getopts::Fail::OptionDuplicated(name) => ArgError::OptionDuplicated(name),
            getopts::Fail::UnexpectedArgument(name) => ArgError::UnexpectedArgument(name),
        },
    )
}

/// `getopts::Matches::opt_present`: whether the option was given. The
/// crate panics on a name that the matches do not hold, which is ruled out.
#[verifier::external_body]
pub(crate) fn opt_present(matches: &getopts::Matches, name: &str) -> (present: bool)
    requires
        given(*matches).dom().contains(name@),
    ensures
        present == (given(*matches)[name@].len() > 0),
{
    matches.opt_present(name)
}

/// `getopts::Matches::opt_str`: the argument that the option was first
/// given with, if it was given with one. The crate panics on a name that the
/// matches do not hold, which is ruled out.
#[verifier::external_body]
pub(crate) fn opt_str(matches: &getopts::Matches, name: &str) -> (value: Option<String>)
    requires
        given(*matches).dom().contains(name@),
    ensures
        text_of(value) == first_value(given(*matches)[name@]),
{
    matches.opt_str(name)
}

/// The field `free` of `getopts::Matches`: the arguments that belong to no option.
#[verifier::external_body]
pub(crate) fn free_args(matches: &getopts::Matches) -> (args: Vec<String>)
    ensures
        texts(args@) == free(*matches),
{
    matches.free.clone()
}

/// `getopts::Options::usage`: the help text for the options under the
/// line `brief`; it is what `usage_spec` names. The crate panics on a short
/// name that is wider than one column, which no single ASCII character is.
#[verifier::external_body]
pub(crate) fn usage(options: &getopts::Options, brief: &str) -> (text: String)
    requires
        all_valid(declared(*options)),
    ensures
        text@ == usage_spec(declared(*options), brief@),
{
    options.usage(brief)
}

} // verus!
