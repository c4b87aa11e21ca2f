//! Laws of the matcher, proved over its mathematical statement.

use crate::command::command_pattern::{option_names, CommandPatternSpec};
use crate::command::error::{MatchError, MatchErrorSpec};
use crate::command::matching::{
    after,
    as_command,
    command_names,
    first_index,
    is_first,
    is_option_token,
    lemma_first_index,
    lemma_first_index_is,
    match_tokens,
    option_name,
    scan,
    with_option,
    CommandSpec,
    Matched,
};
use crate::command::{result_view, Command};
use crate::option::option_pattern::{ArgSpec, OptionPatternSpec};
use crate::option::OptionSpec;
use crate::text::list_text;
use vstd::prelude::*;

verus! {

/// One unit of a command line behind the command's name: a positional
/// token, a standalone option's marker, or an argumented option's marker
/// with the value right behind it.
pub ghost enum Piece {
    Positional(Seq<char>),
    Flag(Seq<char>),
    Valued(Seq<char>, Seq<char>),
}

/// The option token for `name`: the prefix character and the name.
pub open spec fn marker(name: Seq<char>) -> Seq<char> {
    seq!['-'] + name
}

impl Piece {
    /// The tokens that make up the piece.
    pub open spec fn tokens(self) -> Seq<Seq<char>> {
        match self {
            Piece::Positional(token) => seq![token],
            Piece::Flag(name) => seq![marker(name)],
            Piece::Valued(name, value) => seq![marker(name), value],
        }
    }

    /// Whether `cmd` accepts the piece: a positional token does not start
    /// with the prefix character; an option's name selects a pattern of
    /// its shape, whose constraint accepts the value.
    pub open spec fn valid_for(self, cmd: CommandPatternSpec) -> bool {
        match self {
            Piece::Positional(token) => !is_option_token(token),
            Piece::Flag(name) => first_index(option_names(cmd.option_patterns), name) matches Some(
                k,
            ) && cmd.option_patterns[k] is Standalone,
            Piece::Valued(name, value) => first_index(
                option_names(cmd.option_patterns),
                name,
            ) matches Some(k) && (cmd.option_patterns[k] matches OptionPatternSpec::Argumented(
                _,
                arg,
            ) && arg.accepts(value)),
        }
    }
}

/// Whether `cmd` accepts each of `pieces`.
pub open spec fn all_valid(cmd: CommandPatternSpec, pieces: Seq<Piece>) -> bool {
    forall|i: int| 0 <= i < pieces.len() ==> (#[trigger] pieces[i]).valid_for(cmd)
}

/// The tokens of `pieces`, one piece after the other.
pub open spec fn flatten(pieces: Seq<Piece>) -> Seq<Seq<char>>
    decreases pieces.len(),
{
    if pieces.len() == 0 {
        Seq::empty()
    } else {
        pieces[0].tokens() + flatten(pieces.skip(1))
    }
}

/// The positional tokens among `pieces`, in order.
pub open spec fn positionals(pieces: Seq<Piece>) -> Seq<Seq<char>>
    decreases pieces.len(),
{
    if pieces.len() == 0 {
        Seq::empty()
    } else {
        match pieces[0] {
            Piece::Positional(token) => seq![token] + positionals(pieces.skip(1)),
            _ => positionals(pieces.skip(1)),
        }
    }
}

/// The options among `pieces`, in order.
pub open spec fn options_of(pieces: Seq<Piece>) -> Seq<OptionSpec>
    decreases pieces.len(),
{
    if pieces.len() == 0 {
        Seq::empty()
    } else {
        match pieces[0] {
            Piece::Positional(_) => options_of(pieces.skip(1)),
            Piece::Flag(name) => seq![OptionSpec::Standalone(name)] + options_of(pieces.skip(1)),
            Piece::Valued(name, value) => seq![OptionSpec::Argumented(name, value)] + options_of(
                pieces.skip(1),
            ),
        }
    }
}

/// What matching gives when nothing but the number of positional values
/// can be wrong: `taken` values were matched before, `arguments` and
/// `options` are what follows.
pub open spec fn by_count(
    cmd: CommandPatternSpec,
    taken: nat,
    arguments: Seq<Seq<char>>,
    options: Seq<OptionSpec>,
) -> Result<Matched, MatchErrorSpec> {
    if taken + arguments.len() > cmd.args_count {
        Err(MatchErrorSpec::TooManyArguments(cmd.name, cmd.args_count))
    } else if taken + arguments.len() < cmd.args_count {
        Err(MatchErrorSpec::TooFewArguments(cmd.name, cmd.args_count))
    } else {
        Ok(Matched { arguments, options })
    }
}

/// Accepted pieces in front of any tokens: they are matched as they
/// stand, and matching goes on behind them with the positional values
/// counted, unless the pieces hold more positional tokens than the
/// command still takes.
pub proof fn lemma_scan_prefix(
    cmd: CommandPatternSpec,
    pieces: Seq<Piece>,
    rest: Seq<Seq<char>>,
    taken: nat,
)
    requires
        all_valid(cmd, pieces),
        taken <= cmd.args_count,
    ensures
        scan(cmd, flatten(pieces) + rest, taken) == if taken + positionals(pieces).len()
            > cmd.args_count {
            Err::<Matched, MatchErrorSpec>(
                MatchErrorSpec::TooManyArguments(cmd.name, cmd.args_count),
            )
        } else {
            after(
                positionals(pieces),
                options_of(pieces),
                scan(cmd, rest, taken + positionals(pieces).len()),
            )
        },
    decreases pieces.len(),
{
    let tokens = flatten(pieces) + rest;
    if pieces.len() == 0 {
        assert(tokens =~= rest);
        if let Ok(m) = scan(cmd, rest, taken) {
            assert(Seq::<Seq<char>>::empty() + m.arguments =~= m.arguments);
            assert(Seq::<OptionSpec>::empty() + m.options =~= m.options);
        }
    } else {
        let tail = pieces.skip(1);
        let names = option_names(cmd.option_patterns);
        assert(pieces[0].valid_for(cmd));
        assert forall|i: int| 0 <= i < tail.len() implies (#[trigger] tail[i]).valid_for(cmd) by {
            assert(tail[i] == pieces[i + 1]);
        }
        match pieces[0] {
            Piece::Positional(token) => {
                assert(tokens[0] == token);
                assert(tokens.skip(1) =~= flatten(tail) + rest);
                if taken < cmd.args_count {
                    lemma_scan_prefix(cmd, tail, rest, taken + 1);
                    let behind = scan(cmd, rest, taken + 1 + positionals(tail).len());
                    if taken + 1 + positionals(tail).len() <= cmd.args_count {
                        if let Ok(m) = behind {
                            assert(seq![token] + (positionals(tail) + m.arguments) =~= (seq![token]
                                + positionals(tail)) + m.arguments);
                        }
                    }
                }
            },
            Piece::Flag(name) => {
                assert(tokens[0] == marker(name));
                assert(option_name(tokens[0]) =~= name);
                assert(tokens.skip(1) =~= flatten(tail) + rest);
                lemma_first_index(names, name);
                lemma_scan_prefix(cmd, tail, rest, taken);
                if taken + positionals(tail).len() <= cmd.args_count {
                    if let Ok(m) = scan(cmd, rest, taken + positionals(tail).len()) {
                        assert(seq![OptionSpec::Standalone(name)] + (options_of(tail) + m.options)
                            =~= (seq![OptionSpec::Standalone(name)] + options_of(tail))
                            + m.options);
                    }
                }
            },
            Piece::Valued(name, value) => {
                assert(tokens[0] == marker(name));
                assert(tokens[1] == value);
                assert(option_name(tokens[0]) =~= name);
                assert(tokens.skip(2) =~= flatten(tail) + rest);
                lemma_first_index(names, name);
                lemma_scan_prefix(cmd, tail, rest, taken);
                if taken + positionals(tail).len() <= cmd.args_count {
                    if let Ok(m) = scan(cmd, rest, taken + positionals(tail).len()) {
                        assert(seq![OptionSpec::Argumented(name, value)] + (options_of(tail)
                            + m.options) =~= (seq![OptionSpec::Argumented(name, value)]
                            + options_of(tail)) + m.options);
                    }
                }
            },
        }
    }
}

/// Matching a run of accepted pieces depends on the pieces only through
/// their positional tokens and their options, each in its own order: it
/// gives exactly these when the count of positional values is the
/// declared one, `TooManyArguments` when it is above, and
/// `TooFewArguments` when it is below.
pub proof fn lemma_scan_pieces(cmd: CommandPatternSpec, pieces: Seq<Piece>, taken: nat)
    requires
        all_valid(cmd, pieces),
        taken <= cmd.args_count,
    ensures
        scan(cmd, flatten(pieces), taken) == by_count(
            cmd,
            taken,
            positionals(pieces),
            options_of(pieces),
        ),
{
    lemma_scan_prefix(cmd, pieces, Seq::empty(), taken);
    assert(flatten(pieces) + Seq::<Seq<char>>::empty() =~= flatten(pieces));
    assert(positionals(pieces) + Seq::<Seq<char>>::empty() =~= positionals(pieces));
    assert(options_of(pieces) + Seq::<OptionSpec>::empty() =~= options_of(pieces));
}

/// A whole invocation whose command token selects `patterns[k]`, followed
/// by pieces that this pattern accepts, matches as the count of its
/// positional tokens decides.
pub proof fn lemma_match_pieces(
    program: Seq<char>,
    patterns: Seq<CommandPatternSpec>,
    k: int,
    pieces: Seq<Piece>,
)
    requires
        0 <= k < patterns.len(),
        is_first(command_names(patterns), patterns[k].name, k),
        all_valid(patterns[k], pieces),
    ensures
        match_tokens(seq![program, patterns[k].name] + flatten(pieces), patterns) == as_command(
            patterns[k],
            by_count(patterns[k], 0, positionals(pieces), options_of(pieces)),
        ),
{
    let tokens = seq![program, patterns[k].name] + flatten(pieces);
    assert(tokens[1] == patterns[k].name);
    assert(tokens.skip(2) =~= flatten(pieces));
    lemma_first_index_is(command_names(patterns), patterns[k].name, k);
    lemma_scan_pieces(patterns[k], pieces, 0);
}

/// Interleaving: two invocations of one command whose accepted pieces
/// hold the same positional tokens in the same order and the same options
/// in the same order match alike, however the positional tokens and the
/// options are mixed.
pub proof fn lemma_interleaving(
    program: Seq<char>,
    patterns: Seq<CommandPatternSpec>,
    k: int,
    first: Seq<Piece>,
    second: Seq<Piece>,
)
    requires
        0 <= k < patterns.len(),
        is_first(command_names(patterns), patterns[k].name, k),
        all_valid(patterns[k], first),
        all_valid(patterns[k], second),
        positionals(first) == positionals(second),
        options_of(first) == options_of(second),
    ensures
        match_tokens(seq![program, patterns[k].name] + flatten(first), patterns) == match_tokens(
            seq![program, patterns[k].name] + flatten(second),
            patterns,
        ),
{
    lemma_match_pieces(program, patterns, k, first);
    lemma_match_pieces(program, patterns, k, second);
}

/// Boundary of the positional count: an invocation of accepted pieces
/// with exactly the declared number of positional tokens matches, with
/// these tokens and the pieces' options in order; with one token more it
/// gives `TooManyArguments`, with one fewer `TooFewArguments`.
pub proof fn lemma_count_boundary(
    program: Seq<char>,
    patterns: Seq<CommandPatternSpec>,
    k: int,
    pieces: Seq<Piece>,
)
    requires
        0 <= k < patterns.len(),
        is_first(command_names(patterns), patterns[k].name, k),
        all_valid(patterns[k], pieces),
    ensures
        positionals(pieces).len() == patterns[k].args_count ==> match_tokens(
            seq![program, patterns[k].name] + flatten(pieces),
            patterns,
        ) == Ok::<CommandSpec, MatchErrorSpec>(
            CommandSpec {
                command_pattern: patterns[k],
                arguments: positionals(pieces),
                options: options_of(pieces),
            },
        ),
        positionals(pieces).len() == patterns[k].args_count + 1 ==> match_tokens(
            seq![program, patterns[k].name] + flatten(pieces),
            patterns,
        ) == Err::<CommandSpec, MatchErrorSpec>(
            MatchErrorSpec::TooManyArguments(patterns[k].name, patterns[k].args_count),
        ),
        positionals(pieces).len() + 1 == patterns[k].args_count ==> match_tokens(
            seq![program, patterns[k].name] + flatten(pieces),
            patterns,
        ) == Err::<CommandSpec, MatchErrorSpec>(
            MatchErrorSpec::TooFewArguments(patterns[k].name, patterns[k].args_count),
        ),
{
    lemma_match_pieces(program, patterns, k, pieces);
}

/// Positional tokens alone: where no two patterns share a name, the name
/// of any pattern followed by exactly as many positional tokens as it
/// declares, and no options, matches that pattern with those tokens as
/// its arguments, in the order in which they stand.
pub proof fn lemma_exact_positionals(
    program: Seq<char>,
    patterns: Seq<CommandPatternSpec>,
    k: int,
    values: Seq<Seq<char>>,
)
    requires
        0 <= k < patterns.len(),
        forall|i: int, j: int|
            0 <= i < j < patterns.len() ==> (#[trigger] patterns[i]).name != (
            #[trigger] patterns[j]).name,
        values.len() == patterns[k].args_count,
        forall|i: int| 0 <= i < values.len() ==> !is_option_token(#[trigger] values[i]),
    ensures
        match_tokens(seq![program, patterns[k].name] + values, patterns) == Ok::<
            CommandSpec,
            MatchErrorSpec,
        >(
            CommandSpec {
                command_pattern: patterns[k],
                arguments: values,
                options: Seq::empty(),
            },
        ),
{
    let names = command_names(patterns);
    assert forall|j: int| 0 <= j < k implies names[j] != patterns[k].name by {
        assert(patterns[j].name != patterns[k].name);
    }
    assert(is_first(names, patterns[k].name, k));
    lemma_first_index_is(names, patterns[k].name, k);
    let tokens = seq![program, patterns[k].name] + values;
    assert(tokens[1] == patterns[k].name);
    assert(tokens.skip(2) =~= values);
    lemma_scan_positionals(patterns[k], values, 0);
}

/// A run of positional tokens that brings the count exactly to the
/// declared one matches with those tokens in order and no options.
pub proof fn lemma_scan_positionals(cmd: CommandPatternSpec, values: Seq<Seq<char>>, taken: nat)
    requires
        taken + values.len() == cmd.args_count,
        forall|i: int| 0 <= i < values.len() ==> !is_option_token(#[trigger] values[i]),
    ensures
        scan(cmd, values, taken) == Ok::<Matched, MatchErrorSpec>(
            Matched { arguments: values, options: Seq::empty() },
        ),
    decreases values.len(),
{
    if values.len() == 0 {
        assert(values =~= Seq::empty());
    } else {
        let rest = values.skip(1);
        assert forall|i: int| 0 <= i < rest.len() implies !is_option_token(#[trigger] rest[i]) by {
            assert(rest[i] == values[i + 1]);
        }
        lemma_scan_positionals(cmd, rest, taken + 1);
        assert(seq![values[0]] + rest =~= values);
    }
}

/// An argumented option with listed values: where the first pattern
/// called like the option token lists `values`, the token behind the
/// option token is taken as the option's value if it is one of `values`,
/// and the match fails with `OptionArgumentRequired` if it is not.
pub proof fn lemma_specific_value(
    cmd: CommandPatternSpec,
    tokens: Seq<Seq<char>>,
    taken: nat,
    k: int,
    name: Seq<char>,
    values: Seq<Seq<char>>,
)
    requires
        tokens.len() >= 2,
        is_option_token(tokens[0]),
        first_index(option_names(cmd.option_patterns), option_name(tokens[0])) == Some(k),
        cmd.option_patterns[k] == OptionPatternSpec::Argumented(name, ArgSpec::Specific(values)),
    ensures
        values.contains(tokens[1]) ==> scan(cmd, tokens, taken) == with_option(
            OptionSpec::Argumented(name, tokens[1]),
            scan(cmd, tokens.skip(2), taken),
        ),
        !values.contains(tokens[1]) ==> scan(cmd, tokens, taken) == Err::<Matched, MatchErrorSpec>(
            MatchErrorSpec::OptionArgumentRequired(name, list_text(values)),
        ),
{
}

/// An argumented option that takes any value: the token behind the
/// option token is taken as the option's value whatever it holds, also
/// where it starts with the prefix character itself or is empty.
pub proof fn lemma_any_value(
    cmd: CommandPatternSpec,
    tokens: Seq<Seq<char>>,
    taken: nat,
    k: int,
    name: Seq<char>,
)
    requires
        tokens.len() >= 2,
        is_option_token(tokens[0]),
        first_index(option_names(cmd.option_patterns), option_name(tokens[0])) == Some(k),
        cmd.option_patterns[k] == OptionPatternSpec::Argumented(name, ArgSpec::Any),
    ensures
        scan(cmd, tokens, taken) == with_option(
            OptionSpec::Argumented(name, tokens[1]),
            scan(cmd, tokens.skip(2), taken),
        ),
{
}

/// An argumented option at the very end has no value to take: the match
/// fails with `OptionArgumentRequired`, whatever the constraint.
pub proof fn lemma_value_missing(
    cmd: CommandPatternSpec,
    tokens: Seq<Seq<char>>,
    taken: nat,
    k: int,
    name: Seq<char>,
    arg: ArgSpec,
)
    requires
        tokens.len() == 1,
        is_option_token(tokens[0]),
        first_index(option_names(cmd.option_patterns), option_name(tokens[0])) == Some(k),
        cmd.option_patterns[k] == OptionPatternSpec::Argumented(name, arg),
    ensures
        scan(cmd, tokens, taken) == Err::<Matched, MatchErrorSpec>(
            MatchErrorSpec::OptionArgumentRequired(name, arg.render()),
        ),
{
}

/// A value that is not listed fails the whole match: behind accepted
/// pieces that do not exceed the declared count, an option token whose
/// pattern lists `values`, followed by a token that is none of them,
/// gives `OptionArgumentRequired`, whatever comes after.
pub proof fn lemma_unlisted_value_fails(
    program: Seq<char>,
    patterns: Seq<CommandPatternSpec>,
    k: int,
    before: Seq<Piece>,
    option: Seq<char>,
    value: Seq<char>,
    behind: Seq<Seq<char>>,
    j: int,
    name: Seq<char>,
    values: Seq<Seq<char>>,
)
    requires
        0 <= k < patterns.len(),
        is_first(command_names(patterns), patterns[k].name, k),
        all_valid(patterns[k], before),
        positionals(before).len() <= patterns[k].args_count,
        first_index(option_names(patterns[k].option_patterns), option) == Some(j),
        patterns[k].option_patterns[j] == OptionPatternSpec::Argumented(
            name,
            ArgSpec::Specific(values),
        ),
        !values.contains(value),
    ensures
        match_tokens(
            seq![program, patterns[k].name] + flatten(before) + seq![marker(option), value]
                + behind,
            patterns,
        ) == Err::<CommandSpec, MatchErrorSpec>(
            MatchErrorSpec::OptionArgumentRequired(name, list_text(values)),
        ),
{
    let cmd = patterns[k];
    let rest = seq![marker(option), value] + behind;
    let tokens = seq![program, cmd.name] + flatten(before) + seq![marker(option), value] + behind;
    assert(tokens[1] == cmd.name);
    assert(tokens.skip(2) =~= flatten(before) + rest);
    lemma_first_index_is(command_names(patterns), cmd.name, k);
    lemma_scan_prefix(cmd, before, rest, 0);
    assert(rest[0] == marker(option));
    assert(rest[1] == value);
    assert(option_name(rest[0]) =~= option);
    lemma_specific_value(cmd, rest, positionals(before).len(), j, name, values);
}

/// A listed value makes an accepted piece, and so does any value at all
/// behind an option that takes any value, a value that starts with the
/// prefix character included.
pub proof fn lemma_accepted_values(
    cmd: CommandPatternSpec,
    option: Seq<char>,
    value: Seq<char>,
    j: int,
    name: Seq<char>,
    arg: ArgSpec,
)
    requires
        first_index(option_names(cmd.option_patterns), option) == Some(j),
        cmd.option_patterns[j] == OptionPatternSpec::Argumented(name, arg),
    ensures
        arg is Any ==> Piece::Valued(option, value).valid_for(cmd),
        arg matches ArgSpec::Specific(values) ==> (Piece::Valued(option, value).valid_for(cmd)
            <==> values.contains(value)),
{
}

/// Matching is a function of the tokens and the patterns: two results of
/// matching the same tokens against the same patterns hold the same
/// pattern, the same arguments and the same options in the same order,
/// or the same error.
pub proof fn lemma_same_input_same_result<'a, H: ?Sized>(
    first: Result<Command<'a, H>, MatchError>,
    second: Result<Command<'a, H>, MatchError>,
    tokens: Seq<Seq<char>>,
    patterns: Seq<CommandPatternSpec>,
)
    requires
        result_view(first) == match_tokens(tokens, patterns),
        result_view(second) == match_tokens(tokens, patterns),
    ensures
        result_view(first) == result_view(second),
        first is Ok <==> second is Ok,
        first is Ok ==> first->Ok_0@.arguments == second->Ok_0@.arguments && first->Ok_0@.options
            == second->Ok_0@.options,
{
}

} // verus!
