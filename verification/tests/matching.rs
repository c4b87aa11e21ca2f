use commandargs::args::Args;
use commandargs::command::command_pattern::CommandPattern;
use commandargs::command::error::MatchError;
use commandargs::command::{
    command_name_list, find_command, find_option, option_token_name, render_options, Command,
};
use commandargs::option::option_pattern::{ArgumentedOptPatArg, OptionPattern};
use commandargs::option::{Option, Options};
use std::cell::RefCell;

type Handler<'a> = dyn Fn(&[String], &Options) + 'a;

fn silent(_: &[String], _: &Options) {}

fn line(items: &[&str]) -> Args {
    Args::Vec(items.iter().map(|s| s.to_string()).collect())
}

fn strings(items: &[&str]) -> Vec<String> {
    items.iter().map(|s| s.to_string()).collect()
}

static COPY_OPTIONS: [OptionPattern; 4] = [
    OptionPattern::Standalone("force"),
    OptionPattern::Argumented("mode", ArgumentedOptPatArg::Specific(&["fast", "safe"])),
    OptionPattern::Argumented("label", ArgumentedOptPatArg::Any),
    OptionPattern::Standalone("mode"),
];

static NO_OPTIONS: [OptionPattern; 0] = [];

fn outcome(items: &[&str]) -> Result<(String, Vec<String>, Vec<Option>), MatchError> {
    let handler: &Handler = &silent;
    let patterns = [
        CommandPattern::new("copy", 2, &COPY_OPTIONS, handler),
        CommandPattern::new("list", 0, &NO_OPTIONS, handler),
        CommandPattern::new("copy", 0, &NO_OPTIONS, handler),
    ];
    match Command::from_args(line(items), &patterns) {
        Ok(command) => {
            let mut options = Vec::new();
            for option in command.options.values() {
                options.push(match option {
                    Option::Standalone(name) => Option::Standalone(name),
                    Option::Argumented(name, value) => Option::Argumented(name, value.clone()),
                });
            }
            assert_eq!(command.command_pattern.option_patterns.len() == 4, command.command_pattern.name == "copy");
            Ok((command.command_pattern.name.clone(), command.arguments, options))
        }
        Err(error) => Err(error),
    }
}

#[test]
fn exact_positionals_in_order() {
    assert_eq!(
        outcome(&["prog", "copy", "b", "a"]),
        Ok(("copy".to_string(), strings(&["b", "a"]), vec![]))
    );
    assert_eq!(outcome(&["prog", "list"]), Ok(("list".to_string(), vec![], vec![])));
}

#[test]
fn first_declared_command_wins() {
    let result = outcome(&["prog", "copy"]);
    assert_eq!(result, Err(MatchError::TooFewArguments("copy".to_string(), 2)));
}

#[test]
fn listed_value_accepted() {
    assert_eq!(
        outcome(&["prog", "copy", "-mode", "safe", "x", "y"]),
        Ok((
            "copy".to_string(),
            strings(&["x", "y"]),
            vec![Option::Argumented("mode", "safe".to_string())]
        ))
    );
    assert_eq!(
        outcome(&["prog", "copy", "-mode", "fast", "x", "y"]),
        Ok((
            "copy".to_string(),
            strings(&["x", "y"]),
            vec![Option::Argumented("mode", "fast".to_string())]
        ))
    );
}

#[test]
fn unlisted_value_rejected() {
    let expected = Err(MatchError::OptionArgumentRequired(
        "mode".to_string(),
        "[\"fast\", \"safe\"]".to_string(),
    ));
    assert_eq!(outcome(&["prog", "copy", "-mode", "slow", "x", "y"]), expected);
    assert_eq!(outcome(&["prog", "copy", "-mode", "Fast", "x", "y"]), expected);
    assert_eq!(outcome(&["prog", "copy", "-mode", "", "x", "y"]), expected);
    assert_eq!(outcome(&["prog", "copy", "x", "y", "-mode"]), expected);
}

#[test]
fn any_value_accepted() {
    assert_eq!(
        outcome(&["prog", "copy", "x", "-label", "-force", "y"]),
        Ok((
            "copy".to_string(),
            strings(&["x", "y"]),
            vec![Option::Argumented("label", "-force".to_string())]
        ))
    );
    assert_eq!(
        outcome(&["prog", "copy", "x", "-label", "", "y"]),
        Ok((
            "copy".to_string(),
            strings(&["x", "y"]),
            vec![Option::Argumented("label", "".to_string())]
        ))
    );
    assert_eq!(
        outcome(&["prog", "copy", "x", "-label", "-label", "y"]),
        Ok((
            "copy".to_string(),
            strings(&["x", "y"]),
            vec![Option::Argumented("label", "-label".to_string())]
        ))
    );
}

#[test]
fn any_value_missing_at_the_end() {
    let result = outcome(&["prog", "copy", "x", "y", "-label"]);
    assert_eq!(
        result,
        Err(MatchError::OptionArgumentRequired("label".to_string(), "<any value>".to_string()))
    );
    assert_eq!(result.unwrap_err().message(), "-label requires <any value>.");
}

#[test]
fn same_tokens_same_result() {
    let tokens = ["prog", "copy", "-force", "x", "-label", "l", "y", "-mode", "fast"];
    let first = outcome(&tokens);
    let second = outcome(&tokens);
    assert!(first.is_ok());
    assert_eq!(first, second);
    let failing = ["prog", "copy", "-force", "x", "-nope"];
    assert!(outcome(&failing).is_err());
    assert_eq!(outcome(&failing), outcome(&failing));
}

#[test]
fn interleavings_agree() {
    let expected = Ok((
        "copy".to_string(),
        strings(&["x", "y"]),
        vec![
            Option::Standalone("force"),
            Option::Argumented("label", "l".to_string()),
            Option::Argumented("mode", "safe".to_string()),
        ],
    ));
    let orders: [[&str; 9]; 5] = [
        ["prog", "copy", "x", "y", "-force", "-label", "l", "-mode", "safe"],
        ["prog", "copy", "-force", "-label", "l", "-mode", "safe", "x", "y"],
        ["prog", "copy", "x", "-force", "y", "-label", "l", "-mode", "safe"],
        ["prog", "copy", "-force", "x", "-label", "l", "y", "-mode", "safe"],
        ["prog", "copy", "-force", "-label", "l", "x", "-mode", "safe", "y"],
    ];
    for order in orders.iter() {
        assert_eq!(outcome(order), expected);
    }
}

#[test]
fn positional_count_boundary() {
    assert!(outcome(&["prog", "copy", "a", "b"]).is_ok());
    assert_eq!(
        outcome(&["prog", "copy", "a", "b", "c"]),
        Err(MatchError::TooManyArguments("copy".to_string(), 2))
    );
    assert_eq!(
        outcome(&["prog", "copy", "a"]),
        Err(MatchError::TooFewArguments("copy".to_string(), 2))
    );
    assert_eq!(
        outcome(&["prog", "list", "a"]),
        Err(MatchError::TooManyArguments("list".to_string(), 0))
    );
    assert_eq!(
        outcome(&["prog", "copy", "-force", "a", "-force"]),
        Err(MatchError::TooFewArguments("copy".to_string(), 2))
    );
}

#[test]
fn excess_positional_fails_before_later_faults() {
    assert_eq!(
        outcome(&["prog", "copy", "a", "b", "c", "-nope"]),
        Err(MatchError::TooManyArguments("copy".to_string(), 2))
    );
    assert_eq!(
        outcome(&["prog", "copy", "a", "-nope", "b", "c"]),
        Err(MatchError::UnknownOption(
            "nope".to_string(),
            "-force, -mode [\"fast\", \"safe\"], -label <any value>, -mode".to_string()
        ))
    );
}

#[test]
fn missing_command() {
    let result = outcome(&["prog"]);
    assert_eq!(
        result,
        Err(MatchError::MissingCommand(strings(&["copy", "list", "copy"])))
    );
    assert_eq!(
        result.unwrap_err().message(),
        "Expected any of these commands:\n    [\"copy\", \"list\", \"copy\"]"
    );
    assert_eq!(outcome(&[]), Err(MatchError::MissingCommand(strings(&["copy", "list", "copy"]))));
}

#[test]
fn unknown_command() {
    let result = outcome(&["prog", "Copy", "a", "b"]);
    assert_eq!(result, Err(MatchError::UnknownCommand("Copy".to_string())));
    assert_eq!(result.unwrap_err().message(), "Invalid command: Copy.");
    assert_eq!(outcome(&["copy", "prog"]), Err(MatchError::UnknownCommand("prog".to_string())));
}

#[test]
fn unknown_option() {
    let result = outcome(&["prog", "copy", "a", "-Force", "b"]);
    assert_eq!(
        result,
        Err(MatchError::UnknownOption(
            "Force".to_string(),
            "-force, -mode [\"fast\", \"safe\"], -label <any value>, -mode".to_string()
        ))
    );
    assert_eq!(
        result.unwrap_err().message(),
        "Invalid option: Force, expected any of these:\n    -force, -mode [\"fast\", \"safe\"], -label <any value>, -mode"
    );
    assert_eq!(
        outcome(&["prog", "list", "-force"]),
        Err(MatchError::UnknownOption("force".to_string(), "".to_string()))
    );
}

#[test]
fn prefix_alone_and_double_prefix() {
    assert_eq!(
        outcome(&["prog", "list", "-"]),
        Err(MatchError::UnknownOption("".to_string(), "".to_string()))
    );
    assert_eq!(
        outcome(&["prog", "list", "--force"]),
        Err(MatchError::UnknownOption("-force".to_string(), "".to_string()))
    );
}

#[test]
fn empty_token_is_positional() {
    assert_eq!(
        outcome(&["prog", "copy", "", "b"]),
        Ok(("copy".to_string(), strings(&["", "b"]), vec![]))
    );
}

#[test]
fn first_declared_option_wins() {
    assert_eq!(
        outcome(&["prog", "copy", "a", "b", "-mode"]),
        Err(MatchError::OptionArgumentRequired(
            "mode".to_string(),
            "[\"fast\", \"safe\"]".to_string()
        ))
    );
}

#[test]
fn repeated_options_are_kept() {
    assert_eq!(
        outcome(&["prog", "copy", "-force", "a", "-force", "b", "-label", "1", "-label", "2"]),
        Ok((
            "copy".to_string(),
            strings(&["a", "b"]),
            vec![
                Option::Standalone("force"),
                Option::Standalone("force"),
                Option::Argumented("label", "1".to_string()),
                Option::Argumented("label", "2".to_string()),
            ]
        ))
    );
}

#[test]
fn names_beyond_ascii() {
    static OPTIONS: [OptionPattern; 1] =
        [OptionPattern::Argumented("größe", ArgumentedOptPatArg::Specific(&["groß", "klein"]))];
    let handler: &Handler = &silent;
    let patterns = [CommandPattern::new("zeige", 1, &OPTIONS, handler)];
    let command =
        Command::from_args(line(&["prog", "zeige", "-größe", "groß", "日本"]), &patterns);
    match command {
        Ok(command) => {
            assert_eq!(command.arguments, strings(&["日本"]));
            assert_eq!(command.options.get_argumented("größe"), Some("groß"));
        }
        Err(error) => panic!("{}", error.message()),
    }
}

#[test]
fn command_line_variant_matches_alike() {
    let handler: &Handler = &silent;
    let patterns = [CommandPattern::new("copy", 2, &COPY_OPTIONS, handler)];
    let args = Args::CommandLineArgs(strings(&["prog", "copy", "a", "-force", "b"]));
    assert_eq!(args.to_vec(), strings(&["prog", "copy", "a", "-force", "b"]));
    match Command::from_args(args, &patterns) {
        Ok(command) => {
            assert_eq!(command.arguments, strings(&["a", "b"]));
            assert!(command.options.get_standalone("force"));
        }
        Err(error) => panic!("{}", error.message()),
    }
    assert_eq!(line(&["x", "y"]).to_vec(), strings(&["x", "y"]));
    assert_eq!(Args::Vec(vec![]).to_vec(), Vec::<String>::new());
}

#[test]
fn execute_calls_the_selected_handler() {
    let seen: RefCell<Vec<String>> = RefCell::new(Vec::new());
    let copy = |arguments: &[String], options: &Options| {
        seen.borrow_mut().push(format!(
            "copy {} {} {:?}",
            arguments[0],
            options.get_standalone("force"),
            options.get_argumented("label")
        ));
    };
    let list = |_: &[String], _: &Options| {
        seen.borrow_mut().push("list".to_string());
    };
    let copy: &Handler = &copy;
    let list: &Handler = &list;
    let patterns = [
        CommandPattern::new("list", 0, &NO_OPTIONS, list),
        CommandPattern::new("copy", 1, &COPY_OPTIONS, copy),
    ];
    match Command::from_args(line(&["prog", "copy", "-label", "l", "a", "-force"]), &patterns) {
        Ok(command) => command.execute(),
        Err(error) => panic!("{}", error.message()),
    }
    match Command::from_args(line(&["prog", "list"]), &patterns) {
        Ok(command) => command.execute(),
        Err(error) => panic!("{}", error.message()),
    }
    assert_eq!(
        *seen.borrow(),
        vec!["copy a true Some(\"l\")".to_string(), "list".to_string()]
    );
}

#[test]
fn new_keeps_what_it_is_given() {
    let pattern = CommandPattern::new("copy", 2, &COPY_OPTIONS, &silent);
    assert_eq!(pattern.name, "copy");
    assert_eq!(pattern.args_count, 2);
    assert_eq!(pattern.option_patterns.len(), 4);
    assert_eq!(pattern.option_patterns[2].name(), "label");
}

#[test]
fn option_token_names() {
    assert_eq!(option_token_name("-force"), Some("force"));
    assert_eq!(option_token_name("-"), Some(""));
    assert_eq!(option_token_name("--x"), Some("-x"));
    assert_eq!(option_token_name("-é"), Some("é"));
    assert_eq!(option_token_name("force"), None);
    assert_eq!(option_token_name(""), None);
    assert_eq!(option_token_name("a-b"), None);
}

#[test]
fn finding_patterns_by_name() {
    assert_eq!(find_option(&COPY_OPTIONS, "force"), Some(0));
    assert_eq!(find_option(&COPY_OPTIONS, "mode"), Some(1));
    assert_eq!(find_option(&COPY_OPTIONS, "label"), Some(2));
    assert_eq!(find_option(&COPY_OPTIONS, "Label"), None);
    assert_eq!(find_option(&NO_OPTIONS, "force"), None);
    let patterns = [
        CommandPattern::new("copy", 2, &COPY_OPTIONS, &silent),
        CommandPattern::new("list", 0, &NO_OPTIONS, &silent),
        CommandPattern::new("list", 1, &NO_OPTIONS, &silent),
    ];
    assert_eq!(find_command(&patterns, "copy"), Some(0));
    assert_eq!(find_command(&patterns, "list"), Some(1));
    assert_eq!(find_command(&patterns, "lis"), None);
    assert_eq!(command_name_list(&patterns), strings(&["copy", "list", "list"]));
}

#[test]
fn rendering_option_lists() {
    assert_eq!(
        render_options(&COPY_OPTIONS),
        "-force, -mode [\"fast\", \"safe\"], -label <any value>, -mode"
    );
    assert_eq!(render_options(&COPY_OPTIONS[..1]), "-force");
    assert_eq!(render_options(&NO_OPTIONS), "");
}
