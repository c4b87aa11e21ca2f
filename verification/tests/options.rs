use commandargs::command::error::MatchError;
use commandargs::option::option_pattern::{
    ArgumentedOptPatArg, ArgumentedOptionPatternArgument, OptionPattern,
};
use commandargs::option::{Option, Options};
use commandargs::text::{bracketed, decimal_string, join_strings, str_eq};

fn sample() -> Options {
    Options::new(vec![
        Option::Standalone("mode"),
        Option::Argumented("level", "1".to_string()),
        Option::Argumented("mode", "fast".to_string()),
        Option::Standalone("force"),
        Option::Argumented("level", "2".to_string()),
    ])
}

#[test]
fn get_returns_the_first_of_a_name() {
    let options = sample();
    assert_eq!(options.get("mode"), Some(&Option::Standalone("mode")));
    assert_eq!(options.get("level"), Some(&Option::Argumented("level", "1".to_string())));
    assert_eq!(options.get("force"), Some(&Option::Standalone("force")));
    assert_eq!(options.get("Force"), None);
    assert_eq!(Options::new(vec![]).get("force"), None);
}

#[test]
fn get_standalone_asks_for_shape_and_name() {
    let options = sample();
    assert!(options.get_standalone("force"));
    assert!(options.get_standalone("mode"));
    assert!(!options.get_standalone("level"));
    assert!(!options.get_standalone("forc"));
    assert!(!Options::new(vec![]).get_standalone("force"));
}

#[test]
fn get_argumented_returns_the_first_value() {
    let options = sample();
    assert_eq!(options.get_argumented("level"), Some("1"));
    assert_eq!(options.get_argumented("mode"), Some("fast"));
    assert_eq!(options.get_argumented("force"), None);
    assert_eq!(options.get_argumented("none"), None);
}

#[test]
fn values_keep_the_order() {
    let options = sample();
    let names: Vec<&str> = options.values().iter().map(|o| o.name()).collect();
    assert_eq!(names, vec!["mode", "level", "mode", "force", "level"]);
    assert!(Options::new(vec![]).values().is_empty());
}

#[test]
fn from_a_list_of_options() {
    let options = Options::from(vec![
        Option::Argumented("a", "1".to_string()),
        Option::Standalone("b"),
    ]);
    assert_eq!(
        options.values(),
        &vec![Option::Argumented("a", "1".to_string()), Option::Standalone("b")]
    );
    assert_eq!(options.get_argumented("a"), Some("1"));
    assert!(options.get_standalone("b"));
}

#[test]
fn names_of_options_and_patterns() {
    assert_eq!(Option::Standalone("force").name(), "force");
    assert_eq!(Option::Argumented("mode", "fast".to_string()).name(), "mode");
    assert_eq!(OptionPattern::Standalone("force").name(), "force");
    assert_eq!(OptionPattern::Argumented("mode", ArgumentedOptPatArg::Any).name(), "mode");
}

#[test]
fn constraints_accept_by_exact_membership() {
    let listed = ArgumentedOptPatArg::Specific(&["hello", "hi"]);
    assert!(listed.accepts("hello"));
    assert!(listed.accepts("hi"));
    assert!(!listed.accepts("Hi"));
    assert!(!listed.accepts("h"));
    assert!(!listed.accepts(""));
    assert!(!ArgumentedOptPatArg::Specific(&[]).accepts("hi"));
    assert!(ArgumentedOptPatArg::Specific(&["", "x"]).accepts(""));
    let any: ArgumentedOptionPatternArgument = ArgumentedOptPatArg::Any;
    assert!(any.accepts("hello"));
    assert!(any.accepts("-hello"));
    assert!(any.accepts(""));
}

#[test]
fn texts_of_patterns() {
    assert_eq!(OptionPattern::Standalone("force").to_text(), "-force");
    assert_eq!(
        OptionPattern::Argumented("method", ArgumentedOptPatArg::Specific(&["hello", "hi"]))
            .to_text(),
        "-method [\"hello\", \"hi\"]"
    );
    assert_eq!(
        OptionPattern::Argumented("also-greet", ArgumentedOptPatArg::Any).to_text(),
        "-also-greet <any value>"
    );
    assert_eq!(ArgumentedOptPatArg::Any.to_text(), "<any value>");
    assert_eq!(ArgumentedOptPatArg::Specific(&[]).to_text(), "[]");
    assert_eq!(ArgumentedOptPatArg::Specific(&["one"]).to_text(), "[\"one\"]");
}

#[test]
fn listed_values_are_quoted_with_escapes() {
    assert_eq!(
        ArgumentedOptPatArg::Specific(&["a\"b", "c\\d", "e\nf"]).to_text(),
        "[\"a\\\"b\", \"c\\\\d\", \"e\\nf\"]"
    );
    assert_eq!(
        MatchError::MissingCommand(vec!["say \"hi\"".to_string()]).message(),
        "Expected any of these commands:\n    [\"say \\\"hi\\\"\"]"
    );
}

#[test]
fn messages_of_each_error() {
    assert_eq!(
        MatchError::MissingCommand(vec![]).message(),
        "Expected any of these commands:\n    []"
    );
    assert_eq!(
        MatchError::MissingCommand(vec!["a".to_string(), "b".to_string()]).message(),
        "Expected any of these commands:\n    [\"a\", \"b\"]"
    );
    assert_eq!(MatchError::UnknownCommand("run".to_string()).message(), "Invalid command: run.");
    assert_eq!(
        MatchError::UnknownOption("x".to_string(), "-force, -mode <any value>".to_string())
            .message(),
        "Invalid option: x, expected any of these:\n    -force, -mode <any value>"
    );
    assert_eq!(
        MatchError::OptionArgumentRequired("mode".to_string(), "<any value>".to_string())
            .message(),
        "-mode requires <any value>."
    );
    assert_eq!(
        MatchError::TooManyArguments("greet".to_string(), 1).message(),
        "greet expects 1 arguments."
    );
    assert_eq!(
        MatchError::TooFewArguments("greet".to_string(), 12).message(),
        "greet expects 12 arguments."
    );
    assert_eq!(
        MatchError::TooManyArguments("list".to_string(), 0).message(),
        "list expects 0 arguments."
    );
}

#[test]
fn decimal_numerals() {
    assert_eq!(decimal_string(0), "0");
    assert_eq!(decimal_string(7), "7");
    assert_eq!(decimal_string(9), "9");
    assert_eq!(decimal_string(10), "10");
    assert_eq!(decimal_string(105), "105");
    assert_eq!(decimal_string(1234567890), "1234567890");
    assert_eq!(decimal_string(usize::MAX), usize::MAX.to_string());
}

#[test]
fn joining_and_bracketing() {
    let parts = vec!["a".to_string(), "".to_string(), "bc".to_string()];
    assert_eq!(join_strings(&parts, ", "), "a, , bc");
    assert_eq!(join_strings(&parts, ""), "abc");
    assert_eq!(join_strings(&parts[..1].to_vec(), ", "), "a");
    assert_eq!(join_strings(&vec![], ", "), "");
    assert_eq!(bracketed(&parts), "[a, , bc]");
    assert_eq!(bracketed(&vec![]), "[]");
}

#[test]
fn string_equality_is_exact() {
    assert!(str_eq("", ""));
    assert!(str_eq("force", "force"));
    assert!(str_eq("größe", "größe"));
    assert!(!str_eq("force", "Force"));
    assert!(!str_eq("force", "forc"));
    assert!(!str_eq("forc", "force"));
    assert!(!str_eq("", "a"));
    assert!(!str_eq("große", "grosse"));
    assert!(!str_eq("ab", "ba"));
}
