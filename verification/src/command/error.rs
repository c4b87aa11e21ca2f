//! Why a token sequence did not match.

use crate::text::{bracketed, decimal, decimal_string, debug_text, list_text, quote, string_views};
use vstd::prelude::*;

verus! {

/// Mathematical model of a [`MatchError`].
pub ghost enum MatchErrorSpec {
    MissingCommand(Seq<Seq<char>>),
    UnknownCommand(Seq<char>),
    UnknownOption(Seq<char>, Seq<char>),
    OptionArgumentRequired(Seq<char>, Seq<char>),
    TooManyArguments(Seq<char>, nat),
    TooFewArguments(Seq<char>, nat),
}

impl MatchErrorSpec {
    /// The text of the error.
    pub open spec fn message(self) -> Seq<char> {
        match self {
            MatchErrorSpec::MissingCommand(names) => "Expected any of these commands:\n    "@
                + list_text(names),
            MatchErrorSpec::UnknownCommand(name) => "Invalid command: "@ + name + "."@,
            MatchErrorSpec::UnknownOption(name, accepted) => "Invalid option: "@ + name
                + ", expected any of these:\n    "@ + accepted,
            MatchErrorSpec::OptionArgumentRequired(name, constraint) => "-"@ + name
                + " requires "@ + constraint + "."@,
            MatchErrorSpec::TooManyArguments(command, count) => command + " expects "@ + decimal(
                count,
            ) + " arguments."@,
            MatchErrorSpec::TooFewArguments(command, count) => command + " expects "@ + decimal(
                count,
            ) + " arguments."@,
        }
    }
}

/// Why a token sequence did not match any declared command.
#[derive(Debug, PartialEq, Eq)]
pub enum MatchError {
    /// No token follows the program's name. Holds the names of the
    /// accepted commands.
    MissingCommand(Vec<String>),
    /// The command token names no declared command. Holds that token.
    UnknownCommand(String),
    /// An option token names no option of the selected command. Holds the
    /// name and the text of the accepted options.
    UnknownOption(String, String),
    /// An argumented option has no following token, or one that its
    /// constraint rejects. Holds the name and the text of the constraint.
    OptionArgumentRequired(String, String),
    /// One positional token more than the command takes. Holds the
    /// command's name and the number it takes.
    TooManyArguments(String, usize),
    /// The tokens ended with fewer positional tokens than the command
    /// takes. Holds the command's name and the number it takes.
    TooFewArguments(String, usize),
}

impl View for MatchError {
    type V = MatchErrorSpec;

    open spec fn view(&self) -> MatchErrorSpec {
        match self {
            MatchError::MissingCommand(names) => MatchErrorSpec::MissingCommand(
                string_views(names@),
            ),
            MatchError::UnknownCommand(name) => MatchErrorSpec::UnknownCommand(name@),
            MatchError::UnknownOption(name, accepted) => MatchErrorSpec::UnknownOption(
                name@,
                accepted@,
            ),
            MatchError::OptionArgumentRequired(name, constraint) => {
                MatchErrorSpec::OptionArgumentRequired(name@, constraint@)
            },
            MatchError::TooManyArguments(command, count) => MatchErrorSpec::TooManyArguments(
                command@,
                *count as nat,
            ),
            MatchError::TooFewArguments(command, count) => MatchErrorSpec::TooFewArguments(
                command@,
                *count as nat,
            ),
        }
    }
}

fn count_message(command: &String, count: usize) -> (r: String)
    ensures
        r@ == command@ + " expects "@ + decimal(count as nat) + " arguments."@,
{
    let mut out = command.clone();
    out.append(" expects ");
    let digits = decimal_string(count);
    out.append(digits.as_str());
    out.append(" arguments.");
    out
}

impl MatchError {
    /// The text of the error, for the caller to show.
    pub fn message(&self) -> (r: String)
        ensures
            r@ == self@.message(),
    {
        match self {
            MatchError::MissingCommand(names) => {
                let mut quoted: Vec<String> = Vec::new();
                let mut i: usize = 0;
                while i < names.len()
                    invariant
                        i <= names.len(),
                        quoted@.len() == i,
                        forall|j: int|
                            0 <= j < i ==> (#[trigger] quoted@[j])@ == debug_text(names@[j]@),
                    decreases names.len() - i,
                {
                    quoted.push(quote(names[i].as_str()));
                    i += 1;
                }
                assert(string_views(quoted@) =~= string_views(names@).map_values(
                    |s: Seq<char>| debug_text(s),
                ));
                let mut out = String::from_str("Expected any of these commands:\n    ");
                let list = bracketed(&quoted);
                out.append(list.as_str());
                out
            },
            MatchError::UnknownCommand(name) => {
                let mut out = String::from_str("Invalid command: ");
                out.append(name.as_str());
                out.append(".");
                out
            },
            MatchError::UnknownOption(name, accepted) => {
                let mut out = String::from_str("Invalid option: ");
                out.append(name.as_str());
                out.append(", expected any of these:\n    ");
                out.append(accepted.as_str());
                out
            },
            MatchError::OptionArgumentRequired(name, constraint) => {
                let mut out = String::from_str("-");
                out.append(name.as_str());
                out.append(" requires ");
                out.append(constraint.as_str());
                out.append(".");
                out
            },
            MatchError::TooManyArguments(command, count) => count_message(command, *count),
            MatchError::TooFewArguments(command, count) => count_message(command, *count),
        }
    }
}

} // verus!
