//! Declared command shapes.

use crate::option::option_pattern::{OptionPattern, OptionPatternSpec};
use crate::text::join;
use vstd::prelude::*;

verus! {

/// Mathematical model of a [`CommandPattern`], without its handler.
pub ghost struct CommandPatternSpec {
    pub name: Seq<char>,
    pub args_count: nat,
    pub option_patterns: Seq<OptionPatternSpec>,
}

/// The models of a list of option patterns, in order.
pub open spec fn option_pattern_views(patterns: Seq<OptionPattern>) -> Seq<OptionPatternSpec> {
    patterns.map_values(|p: OptionPattern| p@)
}

/// The names of a list of option patterns, in order.
pub open spec fn option_names(patterns: Seq<OptionPatternSpec>) -> Seq<Seq<char>> {
    patterns.map_values(|p: OptionPatternSpec| p.name())
}

/// The texts of a list of option patterns, separated by a comma and a
/// space.
pub open spec fn options_text(patterns: Seq<OptionPatternSpec>) -> Seq<char> {
    join(patterns.map_values(|p: OptionPatternSpec| p.render()), ", "@)
}

/// Used to declare an accepted command.
pub struct CommandPattern<'a, H: ?Sized> {
    /// Name of the command.
    pub name: String,
    /// Number of positional arguments the command takes.
    pub args_count: usize,
    /// The options the command accepts.
    pub option_patterns: &'static [OptionPattern],
    /// Called with the positional arguments and the matched options when
    /// the command is executed.
    pub callback: &'a H,
}

impl<'a, H: ?Sized> View for CommandPattern<'a, H> {
    type V = CommandPatternSpec;

    open spec fn view(&self) -> CommandPatternSpec {
        CommandPatternSpec {
            name: self.name@,
            args_count: self.args_count as nat,
            option_patterns: option_pattern_views(self.option_patterns@),
        }
    }
}

impl<'a, H: ?Sized> Clone for CommandPattern<'a, H> {
    /// A copy with the same name, count and option patterns, and the
    /// same handler.
    fn clone(&self) -> (r: Self)
        ensures
            r@ == self@,
            r.option_patterns == self.option_patterns,
            r.callback == self.callback,
    {
        CommandPattern {
            name: self.name.clone(),
            args_count: self.args_count,
            option_patterns: self.option_patterns,
            callback: self.callback,
        }
    }
}

impl<'a, H: ?Sized> CommandPattern<'a, H> {
    /// Declares a command by its name, the number of positional values it
    /// takes, the options it accepts and its handler.
    pub fn new(
        name: &str,
        args_count: usize,
        option_patterns: &'static [OptionPattern],
        callback: &'a H,
    ) -> (r: Self)
        ensures
            r.name@ == name@,
            r.args_count == args_count,
            r.option_patterns == option_patterns,
            r.callback == callback,
    {
        CommandPattern { name: String::from_str(name), args_count, option_patterns, callback }
    }
}

} // verus!
