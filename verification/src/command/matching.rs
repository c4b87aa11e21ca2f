//! What the matcher computes, stated over sequences of characters.

use crate::command::command_pattern::{option_names, options_text, CommandPatternSpec};
use crate::command::error::MatchErrorSpec;
use crate::option::option_pattern::OptionPatternSpec;
use crate::option::OptionSpec;
use vstd::prelude::*;

verus! {

/// Mathematical model of a matched command.
pub ghost struct CommandSpec {
    pub command_pattern: CommandPatternSpec,
    pub arguments: Seq<Seq<char>>,
    pub options: Seq<OptionSpec>,
}

/// The positional values and the options matched in a run of tokens.
pub ghost struct Matched {
    pub arguments: Seq<Seq<char>>,
    pub options: Seq<OptionSpec>,
}

/// Whether `option` is what matching against `pattern` can give.
pub open spec fn fits(pattern: OptionPatternSpec, option: OptionSpec) -> bool {
    match (pattern, option) {
        (OptionPatternSpec::Standalone(p), OptionSpec::Standalone(o)) => p == o,
        (OptionPatternSpec::Argumented(p, arg), OptionSpec::Argumented(o, value)) => p == o
            && arg.accepts(value),
        _ => false,
    }
}

/// Whether `option` fits one of `patterns`.
pub open spec fn allows(patterns: Seq<OptionPatternSpec>, option: OptionSpec) -> bool {
    exists|k: int| 0 <= k < patterns.len() && fits(#[trigger] patterns[k], option)
}

impl CommandSpec {
    /// A command holds as many positional values as its pattern asks for,
    /// and each of its options fits one of the pattern's option patterns.
    pub open spec fn wf(self) -> bool {
        &&& self.arguments.len() == self.command_pattern.args_count
        &&& forall|i: int|
            0 <= i < self.options.len() ==> allows(
                self.command_pattern.option_patterns,
                #[trigger] self.options[i],
            )
    }
}

/// A token that starts with the prefix character `-` is an option token;
/// every other token, the empty one too, is positional.
pub open spec fn is_option_token(token: Seq<char>) -> bool {
    token.len() > 0 && token[0] == '-'
}

/// An option token without its prefix character.
pub open spec fn option_name(token: Seq<char>) -> Seq<char> {
    token.skip(1)
}

/// Whether `i` is the first place at which `names` holds `name`.
pub open spec fn is_first(names: Seq<Seq<char>>, name: Seq<char>, i: int) -> bool {
    &&& 0 <= i < names.len()
    &&& names[i] == name
    &&& forall|j: int| 0 <= j < i ==> names[j] != name
}

/// The first place at which `names` holds `name`, if there is one.
pub open spec fn first_index(names: Seq<Seq<char>>, name: Seq<char>) -> Option<int> {
    if exists|i: int| is_first(names, name, i) {
        Some(choose|i: int| is_first(names, name, i))
    } else {
        None
    }
}

/// The names of a list of command patterns, in order.
pub open spec fn command_names(patterns: Seq<CommandPatternSpec>) -> Seq<Seq<char>> {
    patterns.map_values(|p: CommandPatternSpec| p.name)
}

/// `rest` with one more positional value in front.
pub open spec fn with_argument(
    value: Seq<char>,
    rest: Result<Matched, MatchErrorSpec>,
) -> Result<Matched, MatchErrorSpec> {
    match rest {
        Ok(m) => Ok(Matched { arguments: seq![value] + m.arguments, options: m.options }),
        Err(e) => Err(e),
    }
}

/// `rest` with one more option in front.
pub open spec fn with_option(
    option: OptionSpec,
    rest: Result<Matched, MatchErrorSpec>,
) -> Result<Matched, MatchErrorSpec> {
    match rest {
        Ok(m) => Ok(Matched { arguments: m.arguments, options: seq![option] + m.options }),
        Err(e) => Err(e),
    }
}

/// `rest` behind what was matched before it.
pub open spec fn after(
    arguments: Seq<Seq<char>>,
    options: Seq<OptionSpec>,
    rest: Result<Matched, MatchErrorSpec>,
) -> Result<Matched, MatchErrorSpec> {
    match rest {
        Ok(m) => Ok(Matched { arguments: arguments + m.arguments, options: options + m.options }),
        Err(e) => Err(e),
    }
}

/// Matches the tokens that follow the command's name, from left to right,
/// when `taken` positional values were matched before them.
///
/// An option token is looked up by its name among the command's option
/// patterns, the first of that name deciding. A standalone option takes
/// the one token. An argumented option takes the next token as its value,
/// whatever that token looks like, if there is one and the constraint
/// accepts it. A positional token is one value, unless the command has
/// all its values already. At the end the command must have them all.
pub open spec fn scan(cmd: CommandPatternSpec, tokens: Seq<Seq<char>>, taken: nat) -> Result<
    Matched,
    MatchErrorSpec,
>
    decreases tokens.len(),
{
    if tokens.len() == 0 {
        if taken < cmd.args_count {
            Err(MatchErrorSpec::TooFewArguments(cmd.name, cmd.args_count))
        } else {
            Ok(Matched { arguments: Seq::empty(), options: Seq::empty() })
        }
    } else if is_option_token(tokens[0]) {
        let name = option_name(tokens[0]);
        match first_index(option_names(cmd.option_patterns), name) {
            None => Err(MatchErrorSpec::UnknownOption(name, options_text(cmd.option_patterns))),
            Some(k) => match cmd.option_patterns[k] {
                OptionPatternSpec::Standalone(n) => with_option(
                    OptionSpec::Standalone(n),
                    scan(cmd, tokens.skip(1), taken),
                ),
                OptionPatternSpec::Argumented(n, arg) => if tokens.len() >= 2 && arg.accepts(
                    tokens[1],
                ) {
                    with_option(
                        OptionSpec::Argumented(n, tokens[1]),
                        scan(cmd, tokens.skip(2), taken),
                    )
                } else {
                    Err(MatchErrorSpec::OptionArgumentRequired(n, arg.render()))
                },
            },
        }
    } else if taken >= cmd.args_count {
        Err(MatchErrorSpec::TooManyArguments(cmd.name, cmd.args_count))
    } else {
        with_argument(tokens[0], scan(cmd, tokens.skip(1), taken + 1))
    }
}

/// The place of the pattern that `tokens` select: the first one whose
/// name is the second token.
pub open spec fn selected(tokens: Seq<Seq<char>>, patterns: Seq<CommandPatternSpec>) -> Option<
    int,
> {
    if tokens.len() < 2 {
        None
    } else {
        first_index(command_names(patterns), tokens[1])
    }
}

/// The result of matching a whole invocation against the accepted
/// commands. The first token stands for the program and is passed over.
pub open spec fn match_tokens(
    tokens: Seq<Seq<char>>,
    patterns: Seq<CommandPatternSpec>,
) -> Result<CommandSpec, MatchErrorSpec> {
    if tokens.len() < 2 {
        Err(MatchErrorSpec::MissingCommand(command_names(patterns)))
    } else {
        match selected(tokens, patterns) {
            None => Err(MatchErrorSpec::UnknownCommand(tokens[1])),
            Some(k) => as_command(patterns[k], scan(patterns[k], tokens.skip(2), 0)),
        }
    }
}

/// What was matched for `cmd`, as a command of that pattern.
pub open spec fn as_command(
    cmd: CommandPatternSpec,
    matched: Result<Matched, MatchErrorSpec>,
) -> Result<CommandSpec, MatchErrorSpec> {
    match matched {
        Ok(m) => Ok(
            CommandSpec { command_pattern: cmd, arguments: m.arguments, options: m.options },
        ),
        Err(e) => Err(e),
    }
}

/// A positional value may be counted with what came before it or with
/// what follows.
pub proof fn lemma_after_argument(
    arguments: Seq<Seq<char>>,
    options: Seq<OptionSpec>,
    value: Seq<char>,
    rest: Result<Matched, MatchErrorSpec>,
)
    ensures
        after(arguments, options, with_argument(value, rest)) == after(
            arguments.push(value),
            options,
            rest,
        ),
{
    if let Ok(m) = rest {
        assert(arguments + (seq![value] + m.arguments) =~= arguments.push(value) + m.arguments);
    }
}

/// An option may be counted with what came before it or with what
/// follows.
pub proof fn lemma_after_option(
    arguments: Seq<Seq<char>>,
    options: Seq<OptionSpec>,
    option: OptionSpec,
    rest: Result<Matched, MatchErrorSpec>,
)
    ensures
        after(arguments, options, with_option(option, rest)) == after(
            arguments,
            options.push(option),
            rest,
        ),
{
    if let Ok(m) = rest {
        assert(options + (seq![option] + m.options) =~= options.push(option) + m.options);
    }
}

/// The first place that holds a name is the place that `first_index`
/// gives.
pub proof fn lemma_first_index_is(names: Seq<Seq<char>>, name: Seq<char>, i: int)
    requires
        is_first(names, name, i),
    ensures
        first_index(names, name) == Some(i),
{
    let c = choose|c: int| is_first(names, name, c);
    assert(is_first(names, name, c));
    if c < i {
        assert(names[c] != name);
    } else if i < c {
        assert(names[i] != name);
    }
}

/// `first_index` gives a place exactly when the name occurs, and then its
/// first place.
pub proof fn lemma_first_index(names: Seq<Seq<char>>, name: Seq<char>)
    ensures
        first_index(names, name) is None <==> !names.contains(name),
        first_index(names, name) is Some ==> is_first(names, name, first_index(names, name)->0),
{
    if names.contains(name) {
        let k = choose|k: int| 0 <= k < names.len() && names[k] == name;
        lemma_first_exists(names, name, k);
    }
    if first_index(names, name) is Some {
        let c = choose|c: int| is_first(names, name, c);
        assert(is_first(names, name, c));
        assert(names.contains(name));
    }
}

proof fn lemma_first_exists(names: Seq<Seq<char>>, name: Seq<char>, k: int)
    requires
        0 <= k < names.len(),
        names[k] == name,
    ensures
        exists|i: int| is_first(names, name, i),
    decreases k,
{
    if exists|j: int| 0 <= j < k && names[j] == name {
        let j = choose|j: int| 0 <= j < k && names[j] == name;
        lemma_first_exists(names, name, j);
    } else {
        assert(is_first(names, name, k));
    }
}

/// Whatever `scan` matches is a well-formed command: it brings the count
/// of positional values up to what the pattern asks for, and each option
/// fits an option pattern of the command.
pub proof fn lemma_scan_wf(cmd: CommandPatternSpec, tokens: Seq<Seq<char>>, taken: nat)
    requires
        taken <= cmd.args_count,
    ensures
        scan(cmd, tokens, taken) matches Ok(m) ==> {
            &&& taken + m.arguments.len() == cmd.args_count
            &&& forall|i: int|
                0 <= i < m.options.len() ==> allows(cmd.option_patterns, #[trigger] m.options[i])
        },
    decreases tokens.len(),
{
    if tokens.len() == 0 {
    } else if is_option_token(tokens[0]) {
        let name = option_name(tokens[0]);
        let names = option_names(cmd.option_patterns);
        lemma_first_index(names, name);
        match first_index(names, name) {
            None => {},
            Some(k) => {
                let rest = match cmd.option_patterns[k] {
                    OptionPatternSpec::Standalone(_) => tokens.skip(1),
                    OptionPatternSpec::Argumented(_, _) => tokens.skip(2),
                };
                if scan(cmd, tokens, taken) is Ok {
                    lemma_scan_wf(cmd, rest, taken);
                    let m = scan(cmd, tokens, taken)->Ok_0;
                    let tail = scan(cmd, rest, taken)->Ok_0;
                    assert(fits(cmd.option_patterns[k], m.options[0]));
                    assert forall|i: int| 0 <= i < m.options.len() implies allows(
                        cmd.option_patterns,
                        #[trigger] m.options[i],
                    ) by {
                        if i > 0 {
                            assert(m.options[i] == tail.options[i - 1]);
                        }
                    }
                }
            },
        }
    } else if taken >= cmd.args_count {
    } else {
        lemma_scan_wf(cmd, tokens.skip(1), taken + 1);
    }
}

/// A successful match is a well-formed command.
pub proof fn lemma_match_wf(tokens: Seq<Seq<char>>, patterns: Seq<CommandPatternSpec>)
    ensures
        match_tokens(tokens, patterns) matches Ok(c) ==> c.wf(),
{
    if tokens.len() >= 2 {
        if let Some(k) = selected(tokens, patterns) {
            lemma_scan_wf(patterns[k], tokens.skip(2), 0);
        }
    }
}

} // verus!
