use vstd::prelude::*;
use vstd::string::StringExecFns;
use crate::codec::{decimal, push_decimal};

verus! {

/// What can go wrong while reading or changing a list.
#[derive(Debug, Clone, Copy, PartialEq, Eq, Structural)]
pub enum ListError {
    /// A line does not begin with a numeral, a period and a space, or its
    /// numeral is too large for an index.
    Parse,
    /// The list text holds a line that cannot be parsed; `line` is the
    /// 1-based number of the first such line.
    Corrupt { line: usize },
    /// A requested index lies outside `1..=count`.
    IndexOutOfRange { index: usize, count: usize },
    /// An argument is malformed: a delete request without a positive
    /// decimal number in every word, or an item text with a line break.
    InvalidArgument,
}

/// The words that tell a user of an error.
pub open spec fn message_spec(e: ListError) -> Seq<char> {
    match e {
        ListError::Parse => "Line does not begin with a number, a period and a space."@,
        ListError::Corrupt { line } => "List file is corrupt at line "@ + decimal(line as nat)
            + "."@,
        ListError::IndexOutOfRange { index, count } => "List item number "@ + decimal(
            index as nat,
        ) + " is outside the list of "@ + decimal(count as nat) + " items."@,
        ListError::InvalidArgument => "Invalid argument."@,
    }
}

impl ListError {
    /// The words that tell a user of the error.
    pub fn message(&self) -> (text: String)
        ensures
            text@ == message_spec(*self),
    {
        match self {
            ListError::Parse => String::from_str(
                "Line does not begin with a number, a period and a space.",
            ),
            ListError::Corrupt { line } => {
                let mut text = String::from_str("List file is corrupt at line ");
                push_decimal(&mut text, *line);
                text.append(".");
                text
            },
            ListError::IndexOutOfRange { index, count } => {
                let mut text = String::from_str("List item number ");
                push_decimal(&mut text, *index);
                text.append(" is outside the list of ");
                push_decimal(&mut text, *count);
                text.append(" items.");
                text
            },
            ListError::InvalidArgument => String::from_str("Invalid argument."),
        }
    }
}

/// What can be wrong with the configuration.
#[derive(Debug, Clone, Copy, PartialEq, Eq, Structural)]
pub enum ConfigError {
    /// A line for the list sought has no equals sign; `line` is its number,
    /// counted from 1.
    Malformed { line: usize },
}

/// Why a command line was refused; each with the option that it is about.
#[derive(Debug, PartialEq, Eq)]
pub enum ArgError {
    /// The option needs an argument and none was given.
    ArgumentMissing(String),
    /// The option is not among those that the program knows.
    UnrecognizedOption(String),
    /// The option must be given and was not.
    OptionMissing(String),
    /// The option was given more than once.
    OptionDuplicated(String),
    /// The option takes no argument and one was given.
    UnexpectedArgument(String),
}

/// The refusal as plain values: the number of its variant, from 0, and
/// the option that it names.
pub open spec fn fault(e: ArgError) -> (nat, Seq<char>) {
    match e {
        ArgError::ArgumentMissing(name) => (0, name@),
        ArgError::UnrecognizedOption(name) => (1, name@),
        ArgError::OptionMissing(name) => (2, name@),
        ArgError::OptionDuplicated(name) => (3, name@),
        ArgError::UnexpectedArgument(name) => (4, name@),
    }
}

} // verus!
