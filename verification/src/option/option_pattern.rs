//! Declared option shapes and the values they accept.

use crate::text::{bracketed, debug_text, list_text, quote, str_eq, str_views, string_views};
use vstd::prelude::*;

verus! {

/// Mathematical model of an [`ArgumentedOptPatArg`].
pub ghost enum ArgSpec {
    Specific(Seq<Seq<char>>),
    Any,
}

impl ArgSpec {
    /// Whether `token` may stand as the option's value: one of the listed
    /// values, compared character by character, or anything at all.
    pub open spec fn accepts(self, token: Seq<char>) -> bool {
        match self {
            ArgSpec::Specific(values) => values.contains(token),
            ArgSpec::Any => true,
        }
    }

    /// The text shown for the constraint.
    pub open spec fn render(self) -> Seq<char> {
        match self {
            ArgSpec::Specific(values) => list_text(values),
            ArgSpec::Any => "<any value>"@,
        }
    }
}

/// Mathematical model of an [`OptionPattern`].
pub ghost enum OptionPatternSpec {
    Standalone(Seq<char>),
    Argumented(Seq<char>, ArgSpec),
}

impl OptionPatternSpec {
    /// The bare name, without the prefix character.
    pub open spec fn name(self) -> Seq<char> {
        match self {
            OptionPatternSpec::Standalone(name) => name,
            OptionPatternSpec::Argumented(name, _) => name,
        }
    }

    /// The text shown for the pattern.
    pub open spec fn render(self) -> Seq<char> {
        match self {
            OptionPatternSpec::Standalone(name) => "-"@ + name,
            OptionPatternSpec::Argumented(name, arg) => "-"@ + name + " "@ + arg.render(),
        }
    }
}

/// Specifies whether the `OptionPattern::Argumented` variant should match
/// against a `Specific` set of values (e.g. `["exe", "lib"]`) or `Any` value.
#[derive(Clone, Copy)]
pub enum ArgumentedOptPatArg {
    Specific(&'static [&'static str]),
    Any,
}

/// The long name of [`ArgumentedOptPatArg`].
pub type ArgumentedOptionPatternArgument = ArgumentedOptPatArg;

/// Specifies which options are allowed to pass for a command.
#[derive(Clone, Copy)]
pub enum OptionPattern {
    /// An option with no argument (e.g. `-force`), by its name.
    Standalone(&'static str),
    /// An option that requires a value (e.g. `-warning-level all`), by its
    /// name and the values it accepts.
    Argumented(&'static str, ArgumentedOptPatArg),
}

impl View for ArgumentedOptPatArg {
    type V = ArgSpec;

    open spec fn view(&self) -> ArgSpec {
        match self {
            ArgumentedOptPatArg::Specific(values) => ArgSpec::Specific(
                str_views(values@),
            ),
            ArgumentedOptPatArg::Any => ArgSpec::Any,
        }
    }
}

impl View for OptionPattern {
    type V = OptionPatternSpec;

    open spec fn view(&self) -> OptionPatternSpec {
        match self {
            OptionPattern::Standalone(name) => OptionPatternSpec::Standalone(name@),
            OptionPattern::Argumented(name, arg) => OptionPatternSpec::Argumented(name@, arg@),
        }
    }
}

impl ArgumentedOptPatArg {
    /// Whether `token` satisfies the constraint.
    pub fn accepts(&self, token: &str) -> (r: bool)
        ensures
            r == self@.accepts(token@),
    {
        match self {
            ArgumentedOptPatArg::Any => true,
            ArgumentedOptPatArg::Specific(values) => {
                let ghost views = str_views(values@);
                let mut i: usize = 0;
                while i < values.len()
                    invariant
                        i <= values.len(),
                        views == str_views(values@),
                        self@ == ArgSpec::Specific(views),
                        forall|j: int| 0 <= j < i ==> views[j] != token@,
                    decreases values.len() - i,
                {
                    if str_eq(values[i], token) {
                        assert(views[i as int] == token@);
                        assert(views.contains(token@));
                        return true;
                    }
                    i += 1;
                }
                false
            },
        }
    }

    /// The constraint as text: the list of allowed values as `Debug`
    /// writes a list of strings, or `<any value>`.
    pub fn to_text(&self) -> (r: String)
        ensures
            r@ == self@.render(),
    {
        match self {
            ArgumentedOptPatArg::Any => String::from_str("<any value>"),
            ArgumentedOptPatArg::Specific(values) => {
                let ghost views = str_views(values@);
                let mut quoted: Vec<String> = Vec::new();
                let mut i: usize = 0;
                while i < values.len()
                    invariant
                        i <= values.len(),
                        quoted@.len() == i,
                        forall|j: int| 0 <= j < i ==> (#[trigger] quoted@[j])@ == debug_text(values@[j]@),
                    decreases values.len() - i,
                {
                    let q = quote(values[i]);
                    quoted.push(q);
                    i += 1;
                }
                assert(string_views(quoted@) =~= views.map_values(
                    |s: Seq<char>| debug_text(s),
                ));
                bracketed(&quoted)
            },
        }
    }
}

impl OptionPattern {
    /// The option's bare name, without the prefix character.
    pub fn name(&self) -> (r: &str)
        ensures
            r@ == self@.name(),
    {
        match self {
            OptionPattern::Standalone(name) => name,
            OptionPattern::Argumented(name, _) => name,
        }
    }

    /// The pattern as text: `-name`, followed for an argumented option by
    /// a space and the constraint.
    pub fn to_text(&self) -> (r: String)
        ensures
            r@ == self@.render(),
    {
        match self {
            OptionPattern::Standalone(name) => {
                let mut out = String::from_str("-");
                out.append(name);
                out
            },
            OptionPattern::Argumented(name, arg) => {
                let mut out = String::from_str("-");
                out.append(name);
                out.append(" ");
                let shown = arg.to_text();
                out.append(shown.as_str());
                out
            },
        }
    }
}

} // verus!
