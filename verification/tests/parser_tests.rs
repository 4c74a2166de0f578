use cmdgen::parser::Command;
use cmdgen::parser::Destination;
use cmdgen::parser::parse;
use cmdgen::parser::parse_word;
use cmdgen::template::Segment;

fn lit(s: &str) -> Segment {
    Segment::Literal(s.to_string())
}

fn var(s: &str) -> Segment {
    Segment::VariableRef(s.to_string())
}

#[test]
fn parse_word_splits_and_trims_before() {
    assert_eq!(parse_word("x = y", '='), ("x", " y"));
    assert_eq!(parse_word("  spaced  =rest", '='), ("spaced", "rest"));
}

#[test]
fn parse_word_missing_delimiter_takes_whole_text() {
    assert_eq!(parse_word("abc", '='), ("abc", ""));
}

#[test]
fn two_variable_arguments() {
    let mut actions: Vec<Command> = Vec::new();
    parse("x=foo({a},{b})", &mut actions);
    assert_eq!(actions.len(), 1);
    assert_eq!(actions[0].dest, Destination::ToVariable("x".to_string()));
    assert_eq!(actions[0].func, vec![lit("foo")]);
    assert_eq!(actions[0].args.len(), 2);
    assert_eq!(actions[0].args[0], vec![lit(""), var("var_a")]);
    assert_eq!(actions[0].args[1], vec![lit(""), var("var_b")]);
}

#[test]
fn percent_destination_means_standard_output() {
    let mut actions: Vec<Command> = Vec::new();
    parse("%=echo({msg})", &mut actions);
    assert_eq!(actions.len(), 1);
    assert_eq!(actions[0].dest, Destination::ToStandardOutput);
    assert_eq!(actions[0].func, vec![lit("echo")]);
    assert_eq!(actions[0].args, vec![vec![lit(""), var("var_msg")]]);
}

#[test]
fn two_parses_concatenate_in_order() {
    let mut actions: Vec<Command> = Vec::new();
    parse("x=f()", &mut actions);
    parse("%=g({x})", &mut actions);
    assert_eq!(actions.len(), 2);
    assert_eq!(actions[0].dest, Destination::ToVariable("x".to_string()));
    assert_eq!(actions[1].dest, Destination::ToStandardOutput);
}

#[test]
fn empty_lines_contribute_no_command() {
    let mut actions: Vec<Command> = Vec::new();
    parse("a=f()\n\nb=g()\n", &mut actions);
    assert_eq!(actions.len(), 2);
    assert_eq!(actions[0].dest, Destination::ToVariable("a".to_string()));
    assert_eq!(actions[1].dest, Destination::ToVariable("b".to_string()));
}

#[test]
fn carriage_return_is_stripped() {
    let mut actions: Vec<Command> = Vec::new();
    parse("x=f()\r\n", &mut actions);
    assert_eq!(actions.len(), 1);
    assert_eq!(actions[0].dest, Destination::ToVariable("x".to_string()));
}

#[test]
fn missing_equals_takes_whole_line_as_destination() {
    let mut actions: Vec<Command> = Vec::new();
    parse("foo(bar)", &mut actions);
    assert_eq!(actions.len(), 1);
    assert_eq!(
        actions[0].dest,
        Destination::ToVariable("foo(bar)".to_string())
    );
    assert_eq!(actions[0].func, Vec::<Segment>::new());
    assert_eq!(actions[0].args, vec![Vec::<Segment>::new()]);
}

#[test]
fn arguments_are_not_trimmed() {
    let mut actions: Vec<Command> = Vec::new();
    parse("x = f ( a , b )", &mut actions);
    assert_eq!(actions[0].dest, Destination::ToVariable("x".to_string()));
    assert_eq!(actions[0].func, vec![lit("f")]);
    assert_eq!(actions[0].args[0], vec![lit(" a ")]);
    assert_eq!(actions[0].args[1], vec![lit(" b ")]);
}

#[test]
fn text_after_close_paren_is_ignored() {
    let mut actions: Vec<Command> = Vec::new();
    parse("x=f(a)ignored", &mut actions);
    assert_eq!(actions[0].args, vec![vec![lit("a")]]);
}
