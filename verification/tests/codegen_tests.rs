use cmdgen::codegen::conc;
use cmdgen::codegen::decl_str;
use cmdgen::codegen::escape_string_to;
use cmdgen::codegen::format_list;
use cmdgen::codegen::output;
use cmdgen::codegen::write_literal;
use cmdgen::parser::Command;
use cmdgen::parser::parse;
use cmdgen::template::Segment;

fn lit(s: &str) -> Segment {
    Segment::Literal(s.to_string())
}

fn var(s: &str) -> Segment {
    Segment::VariableRef(s.to_string())
}

#[test]
fn escaping_backslash_quote_newline() {
    let mut buf = String::new();
    escape_string_to("a\\b\"c\nd", &mut buf);
    assert_eq!(buf, "a\\\\b\\\"c\\nd");
}

#[test]
fn literal_segment_is_quoted_and_escaped() {
    let mut buf = String::new();
    write_literal(&lit("hi\n"), &mut buf);
    assert_eq!(buf, "\"hi\\n\"");
}

#[test]
fn variable_segment_is_bare_identifier() {
    let mut buf = String::new();
    write_literal(&var("var_x"), &mut buf);
    assert_eq!(buf, "var_x");
}

#[test]
fn declaration_binds_destination() {
    assert_eq!(decl_str("dest", &lit("v")), "char*dest=\"v\";");
}

#[test]
fn list_joins_items_with_sentinel() {
    let mut buf = String::new();
    format_list(&vec!["a".to_string(), "b".to_string()], "0", &mut buf);
    assert_eq!(buf, "{a,b,0};");
}

#[test]
fn empty_list_is_only_the_sentinel() {
    let mut buf = String::new();
    format_list(&Vec::new(), "(char*)NULL", &mut buf);
    assert_eq!(buf, "{(char*)NULL};");
}

#[test]
fn single_segment_avoids_allocation_path() {
    // A one-segment template resolves through a direct declaration: no
    // length table, no malloc, no copy loop.
    let mut buf = String::new();
    conc(&vec![lit("v")], "local_0", &mut buf);
    assert_eq!(buf, "char*local_0=\"v\";");
    assert!(!buf.contains("malloc"));
    assert!(!buf.contains("lengths"));
}

#[test]
fn two_segments_use_tables_and_allocation() {
    let mut buf = String::new();
    conc(&vec![var("var_a"), lit("-")], "x", &mut buf);
    assert_eq!(
        buf,
        "int lengths[3]={strlen(var_a),strlen(\"-\"),0};\
         char*substrings[3]={var_a,\"-\",0};\
         int length=0;for(int i=0;i<2;)length+=lengths[i++];\
         char*x=malloc(length);if(x==NULL&&length!=0)exit(1);\
         char*ref=x;for(int i=0;i<2;)(memcpy(ref,substrings[i],lengths[i]),ref+=lengths[i++]);"
    );
}

#[test]
fn whole_program_for_one_command() {
    let mut actions: Vec<Command> = Vec::new();
    parse("x=f()", &mut actions);
    let text = output(&actions, "");
    assert_eq!(
        text,
        "\n{int lengths[1]={0};char*substrings[1]={0};\
         int length=0;for(int i=0;i<0;)length+=lengths[i++];\
         char*local_0=malloc(length);if(local_0==NULL&&length!=0)exit(1);\
         char*ref=local_0;for(int i=0;i<0;)(memcpy(ref,substrings[i],lengths[i]),ref+=lengths[i++]);\
         char*func=\"f\";char*args[2]={local_0,(char*)NULL};char*x=run(func,args);}}"
    );
}

#[test]
fn header_text_is_emitted_first() {
    let actions: Vec<Command> = Vec::new();
    assert_eq!(output(&actions, "HEADER"), "HEADER}");
}

#[test]
fn variable_arguments_build_vector_and_assignment() {
    let mut actions: Vec<Command> = Vec::new();
    parse("x=foo({a},{b})", &mut actions);
    let text = output(&actions, "");
    assert!(text.contains("char*args[3]={local_0,local_1,(char*)NULL};"));
    assert!(text.contains("char*x=run(func,args);"));
    assert!(text.contains("var_a"));
    assert!(text.contains("var_b"));
}

#[test]
fn stdout_destination_prints_instead_of_binding() {
    let mut actions: Vec<Command> = Vec::new();
    parse("%=echo({msg})", &mut actions);
    let text = output(&actions, "");
    assert!(text.contains("puts(run(func, args))"));
    assert!(!text.contains("=run(func,args)"));
}

#[test]
fn commands_from_two_files_share_one_program_in_order() {
    // Commands from two parsed texts land in one flat list; the generated
    // blocks follow file-argument order in a single translation unit, with
    // no namespace separation between the files.
    let mut actions: Vec<Command> = Vec::new();
    parse("x=f()", &mut actions);
    parse("%=g({x})", &mut actions);
    let text = output(&actions, "");
    let first = text.find("char*x=run(func,args)").unwrap();
    let second = text.find("puts(run(func, args))").unwrap();
    assert!(first < second);
    assert_eq!(text.matches('\n').count(), 2);
}

#[test]
fn three_segments_concatenate_in_order() {
    // The generated routine for [A, B, C] lists the three lengths and the
    // three values in exactly that order, sums the lengths, and copies the
    // three values sequentially into the one allocated buffer.
    let mut buf = String::new();
    conc(&vec![lit("A"), var("var_b"), lit("C")], "x", &mut buf);
    assert_eq!(
        buf,
        "int lengths[4]={strlen(\"A\"),strlen(var_b),strlen(\"C\"),0};\
         char*substrings[4]={\"A\",var_b,\"C\",0};\
         int length=0;for(int i=0;i<3;)length+=lengths[i++];\
         char*x=malloc(length);if(x==NULL&&length!=0)exit(1);\
         char*ref=x;for(int i=0;i<3;)(memcpy(ref,substrings[i],lengths[i]),ref+=lengths[i++]);"
    );
}
