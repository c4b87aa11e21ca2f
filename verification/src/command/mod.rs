//! The matched command and the matcher that produces it.

pub mod command_pattern;
pub mod error;
pub mod laws;
pub mod matching;

use crate::args::Args;
use crate::command::command_pattern::{
    option_names,
    option_pattern_views,
    options_text,
    CommandPattern,
    CommandPatternSpec,
};
use crate::command::error::{MatchError, MatchErrorSpec};
use crate::command::matching::{
    after,
    as_command,
    command_names,
    first_index,
    is_option_token,
    lemma_after_argument,
    lemma_after_option,
    lemma_first_index,
    lemma_first_index_is,
    lemma_match_wf,
    match_tokens,
    option_name,
    scan,
    selected,
    CommandSpec,
};
use crate::option::option_pattern::{OptionPattern, OptionPatternSpec};
use crate::option::{option_views, Option, OptionSpec, Options};
use crate::text::{join_strings, str_eq, string_views};
use vstd::prelude::*;

verus! {

/// The result of matching a token sequence against the accepted command
/// patterns: the pattern that was selected, the positional values and
/// the options that were found.
pub struct Command<'a, H: ?Sized> {
    /// A copy of the pattern that the command's name selected.
    pub command_pattern: CommandPattern<'a, H>,
    /// The positional values, in the order in which they were met.
    pub arguments: Vec<String>,
    /// The matched options, in the order in which they were met.
    pub options: Options,
}

impl<'a, H: ?Sized> View for Command<'a, H> {
    type V = CommandSpec;

    open spec fn view(&self) -> CommandSpec {
        CommandSpec {
            command_pattern: self.command_pattern@,
            arguments: string_views(self.arguments@),
            options: self.options@,
        }
    }
}

/// The models of a list of command patterns, in order.
pub open spec fn command_views<'a, H: ?Sized>(patterns: Seq<CommandPattern<'a, H>>) -> Seq<
    CommandPatternSpec,
> {
    patterns.map_values(|p: CommandPattern<'a, H>| p@)
}

/// The model of what the matcher returns.
pub open spec fn result_view<'a, H: ?Sized>(r: Result<Command<'a, H>, MatchError>) -> Result<
    CommandSpec,
    MatchErrorSpec,
> {
    match r {
        Ok(c) => Ok(c@),
        Err(e) => Err(e@),
    }
}

/// The place of a found item as a mathematical integer.
pub open spec fn place(found: core::option::Option<usize>) -> core::option::Option<int> {
    match found {
        Some(k) => Some(k as int),
        None => None,
    }
}

/// The name of an option token, or `None` for a positional token.
pub fn option_token_name(token: &str) -> (r: core::option::Option<&str>)
    ensures
        r is Some <==> is_option_token(token@),
        r is Some ==> r->0@ == option_name(token@),
{
    if token.is_empty() {
        return None;
    }
    if token.get_char(0) != '-' {
        return None;
    }
    let len = token.unicode_len();
    Some(token.substring_char(1, len))
}

/// The place of the first of `patterns` that is called `name`.
pub fn find_option(patterns: &[OptionPattern], name: &str) -> (r: core::option::Option<usize>)
    ensures
        place(r) == first_index(option_names(option_pattern_views(patterns@)), name@),
        r is Some ==> r->0 < patterns.len(),
{
    let ghost names = option_names(option_pattern_views(patterns@));
    let mut i: usize = 0;
    while i < patterns.len()
        invariant
            i <= patterns.len(),
            names == option_names(option_pattern_views(patterns@)),
            forall|j: int| 0 <= j < i ==> names[j] != name@,
        decreases patterns.len() - i,
    {
        if str_eq(patterns[i].name(), name) {
            proof {
                assert(names[i as int] == patterns@[i as int]@.name());
                lemma_first_index_is(names, name@, i as int);
            }
            return Some(i);
        }
        i += 1;
    }
    proof {
        lemma_first_index(names, name@);
    }
    None
}

/// The place of the first of `patterns` that is called `name`.
pub fn find_command<'a, H: ?Sized>(patterns: &[CommandPattern<'a, H>], name: &str) -> (r:
    core::option::Option<usize>)
    ensures
        place(r) == first_index(command_names(command_views(patterns@)), name@),
        r is Some ==> r->0 < patterns.len(),
{
    let ghost names = command_names(command_views(patterns@));
    let mut i: usize = 0;
    while i < patterns.len()
        invariant
            i <= patterns.len(),
            names == command_names(command_views(patterns@)),
            forall|j: int| 0 <= j < i ==> names[j] != name@,
        decreases patterns.len() - i,
    {
        if str_eq(patterns[i].name.as_str(), name) {
            proof {
                assert(names[i as int] == patterns@[i as int]@.name);
                lemma_first_index_is(names, name@, i as int);
            }
            return Some(i);
        }
        i += 1;
    }
    proof {
        lemma_first_index(names, name@);
    }
    None
}

/// The texts of `patterns`, separated by a comma and a space.
pub fn render_options(patterns: &[OptionPattern]) -> (r: String)
    ensures
        r@ == options_text(option_pattern_views(patterns@)),
{
    let ghost views = option_pattern_views(patterns@);
    let mut texts: Vec<String> = Vec::new();
    let mut i: usize = 0;
    while i < patterns.len()
        invariant
            i <= patterns.len(),
            texts@.len() == i,
            forall|j: int| 0 <= j < i ==> (#[trigger] texts@[j])@ == patterns@[j]@.render(),
        decreases patterns.len() - i,
    {
        texts.push(patterns[i].to_text());
        i += 1;
    }
    assert(string_views(texts@) =~= views.map_values(|p: OptionPatternSpec| p.render()));
    join_strings(&texts, ", ")
}

/// The names of `patterns`, in order.
pub fn command_name_list<'a, H: ?Sized>(patterns: &[CommandPattern<'a, H>]) -> (r: Vec<String>)
    ensures
        string_views(r@) == command_names(command_views(patterns@)),
{
    let mut names: Vec<String> = Vec::new();
    let mut i: usize = 0;
    while i < patterns.len()
        invariant
            i <= patterns.len(),
            names@.len() == i,
            forall|j: int| 0 <= j < i ==> (#[trigger] names@[j])@ == patterns@[j].name@,
        decreases patterns.len() - i,
    {
        names.push(patterns[i].name.clone());
        i += 1;
    }
    assert(string_views(names@) =~= command_names(command_views(patterns@)));
    names
}

impl<'a, H: ?Sized> Command<'a, H> {
    /// Whether the command holds as many positional values as its pattern
    /// asks for, and only options that fit the pattern's option patterns.
    pub open spec fn wf(&self) -> bool {
        self@.wf()
    }

    /// Matches the tokens of `args` against `command_patterns`.
    ///
    /// The first token stands for the program and is passed over. The
    /// second selects the first pattern of that name. The tokens after it
    /// are matched from left to right as [`scan`] says. The command that
    /// comes back holds a copy of the selected pattern, with its handler.
    #[verifier::loop_isolation(false)]
    pub fn from_args(args: Args, command_patterns: &[CommandPattern<'a, H>]) -> (r: Result<
        Self,
        MatchError,
    >)
        ensures
            result_view(r) == match_tokens(args.tokens(), command_views(command_patterns@)),
            r matches Ok(c) ==> {
                &&& selected(args.tokens(), command_views(command_patterns@)) matches Some(k)
                &&& 0 <= k < command_patterns@.len()
                &&& c.command_pattern.callback == command_patterns@[k].callback
                &&& c.command_pattern.option_patterns == command_patterns@[k].option_patterns
                &&& c.wf()
            },
    {
        let tokens = args.to_vec();
        let ghost toks = args.tokens();
        let ghost views = command_views(command_patterns@);
        proof {
            lemma_match_wf(toks, views);
        }
        if tokens.len() < 2 {
            return Err(MatchError::MissingCommand(command_name_list(command_patterns)));
        }
        let command = tokens[1].as_str();
        let found = find_command(command_patterns, command);
        if found.is_none() {
            return Err(MatchError::UnknownCommand(tokens[1].clone()));
        }
        let k = found.unwrap();
        let pattern = &command_patterns[k];
        let ghost cmd = views[k as int];
        assert(cmd == pattern@);

        let mut arguments: Vec<String> = Vec::new();
        let mut options: Vec<Option> = Vec::new();
        let mut index: usize = 2;
        assert(string_views(arguments@) =~= Seq::empty());
        assert(option_views(options@) =~= Seq::empty());
        assert(after(Seq::empty(), Seq::empty(), scan(cmd, toks.skip(2), 0)) == scan(
            cmd,
            toks.skip(2),
            0,
        )) by {
            if let Ok(m) = scan(cmd, toks.skip(2), 0) {
                assert(Seq::<Seq<char>>::empty() + m.arguments =~= m.arguments);
                assert(Seq::<OptionSpec>::empty() + m.options =~= m.options);
            }
        }
        while index < tokens.len()
            invariant
                2 <= index <= tokens.len(),
                toks == string_views(tokens@),
                cmd == pattern@,
                arguments.len() <= pattern.args_count,
                match_tokens(toks, views) == as_command(
                    cmd,
                    after(
                        string_views(arguments@),
                        option_views(options@),
                        scan(cmd, toks.skip(index as int), arguments.len() as nat),
                    ),
                ),
            decreases tokens.len() - index,
        {
            let token = tokens[index].as_str();
            let ghost rest = toks.skip(index as int);
            let ghost seen = string_views(arguments@);
            let ghost had = option_views(options@);
            proof {
                assert(rest[0] == token@);
                assert(rest.skip(1) =~= toks.skip(index + 1));
                if index + 1 < tokens.len() {
                    assert(rest.skip(2) =~= toks.skip(index + 2));
                }
            }
            match option_token_name(token) {
                Some(name) => {
                    let chosen = find_option(pattern.option_patterns, name);
                    if chosen.is_none() {
                        return Err(
                            MatchError::UnknownOption(
                                String::from_str(name),
                                render_options(pattern.option_patterns),
                            ),
                        );
                    }
                    let p = chosen.unwrap();
                    match &pattern.option_patterns[p] {
                        OptionPattern::Standalone(n) => {
                            options.push(Option::Standalone(n));
                            proof {
                                assert(option_views(options@) =~= had.push(
                                    OptionSpec::Standalone(n@),
                                ));
                                lemma_after_option(
                                    seen,
                                    had,
                                    OptionSpec::Standalone(n@),
                                    scan(cmd, rest.skip(1), arguments.len() as nat),
                                );
                            }
                        },
                        OptionPattern::Argumented(n, expected) => {
                            if index + 1 < tokens.len() && expected.accepts(
                                tokens[index + 1].as_str(),
                            ) {
                                proof {
                                    assert(rest[1] == tokens@[index + 1]@);
                                }
                                let value = tokens[index + 1].clone();
                                options.push(Option::Argumented(n, value));
                                index += 1;
                                proof {
                                    assert(option_views(options@) =~= had.push(
                                        OptionSpec::Argumented(n@, rest[1]),
                                    ));
                                    lemma_after_option(
                                        seen,
                                        had,
                                        OptionSpec::Argumented(n@, rest[1]),
                                        scan(cmd, rest.skip(2), arguments.len() as nat),
                                    );
                                }
                            } else {
                                proof {
                                    if index + 1 < tokens.len() {
                                        assert(rest[1] == tokens@[index + 1]@);
                                    }
                                }
                                return Err(
                                    MatchError::OptionArgumentRequired(
                                        String::from_str(n),
                                        expected.to_text(),
                                    ),
                                );
                            }
                        },
                    }
                },
                None => {
                    if arguments.len() >= pattern.args_count {
                        return Err(
                            MatchError::TooManyArguments(
                                pattern.name.clone(),
                                pattern.args_count,
                            ),
                        );
                    }
                    arguments.push(tokens[index].clone());
                    proof {
                        assert(string_views(arguments@) =~= seen.push(token@));
                        lemma_after_argument(
                            seen,
                            had,
                            token@,
                            scan(cmd, rest.skip(1), (seen.len() + 1) as nat),
                        );
                    }
                },
            }
            index += 1;
        }
        proof {
            assert(toks.skip(index as int) =~= Seq::empty());
        }
        if arguments.len() < pattern.args_count {
            return Err(MatchError::TooFewArguments(pattern.name.clone(), pattern.args_count));
        }
        proof {
            assert(string_views(arguments@) + Seq::<Seq<char>>::empty() =~= string_views(
                arguments@,
            ));
            assert(option_views(options@) + Seq::<OptionSpec>::empty() =~= option_views(
                options@,
            ));
        }
        Ok(
            Command {
                command_pattern: pattern.clone(),
                arguments,
                options: Options::new(options),
            },
        )
    }
}

impl<'a, H: ?Sized + Fn(&[String], &Options)> Command<'a, H> {
    /// Calls the handler of the selected pattern with the positional
    /// values, as a slice, and the matched options.
    pub fn execute(&self)
        requires
            forall|values: &[String]|
                values@ == self.arguments@ ==> #[trigger] call_requires(
                    self.command_pattern.callback,
                    (values, &self.options),
                ),
        ensures
            exists|values: &[String]|
                values@ == self.arguments@ && #[trigger] call_ensures(
                    self.command_pattern.callback,
                    (values, &self.options),
                    (),
                ),
    {
        (self.command_pattern.callback)(self.arguments.as_slice(), &self.options)
    }
}

} // verus!
