use commandargs::args::Args;
use commandargs::command::command_pattern::CommandPattern;
use commandargs::command::error::MatchError;
use commandargs::command::Command;
use commandargs::option::option_pattern::{ArgumentedOptPatArg, OptionPattern};
use commandargs::option::{Option, Options};

fn quiet(_: &[String], _: &Options) {}

fn tokens(items: &[&str]) -> Args {
    Args::Vec(items.iter().map(|s| s.to_string()).collect())
}

static GREET_OPTIONS: [OptionPattern; 2] = [
    OptionPattern::Argumented("method", ArgumentedOptPatArg::Specific(&["hello", "hi"])),
    OptionPattern::Argumented("also-greet", ArgumentedOptPatArg::Any),
];

static BUILD_OPTIONS: [OptionPattern; 1] = [OptionPattern::Standalone("force")];

#[test]
fn greet_with_listed_method() {
    let patterns = [CommandPattern::new("greet", 1, &GREET_OPTIONS[..1], &quiet)];
    let command =
        Command::from_args(tokens(&["prog", "greet", "Alice", "-method", "hi"]), &patterns)
            .unwrap();
    assert_eq!(command.arguments, vec!["Alice".to_string()]);
    assert_eq!(command.options.get_argumented("method"), Some("hi"));
    assert_eq!(command.command_pattern.name, "greet");
    assert_eq!(
        command.options.values(),
        &vec![Option::Argumented("method", "hi".to_string())]
    );
}

#[test]
fn greet_with_unlisted_method() {
    let patterns = [CommandPattern::new("greet", 1, &GREET_OPTIONS[..1], &quiet)];
    let result =
        Command::from_args(tokens(&["prog", "greet", "-method", "bye", "Alice"]), &patterns);
    match result {
        Err(error) => {
            assert_eq!(
                error,
                MatchError::OptionArgumentRequired(
                    "method".to_string(),
                    "[\"hello\", \"hi\"]".to_string()
                )
            );
            assert_eq!(error.message(), "-method requires [\"hello\", \"hi\"].");
        }
        Ok(_) => panic!("an unlisted value was accepted"),
    }
}

#[test]
fn build_with_force() {
    let patterns = [CommandPattern::new("build", 0, &BUILD_OPTIONS, &quiet)];
    let command = Command::from_args(tokens(&["prog", "build", "-force"]), &patterns).unwrap();
    assert!(command.options.get_standalone("force"));
    assert!(command.arguments.is_empty());
    assert_eq!(command.options.get_argumented("force"), None);
}

#[test]
fn program_name_alone() {
    let patterns = [
        CommandPattern::new("greet", 1, &GREET_OPTIONS, &quiet),
        CommandPattern::new("build", 0, &BUILD_OPTIONS, &quiet),
    ];
    let result = Command::from_args(tokens(&["prog"]), &patterns);
    match result {
        Err(error) => {
            assert_eq!(
                error,
                MatchError::MissingCommand(vec!["greet".to_string(), "build".to_string()])
            );
            assert_eq!(
                error.message(),
                "Expected any of these commands:\n    [\"greet\", \"build\"]"
            );
        }
        Ok(_) => panic!("a command was matched without a command token"),
    }
}
