use cli_schema::diagnostic::DiagnosticKind;
use cli_schema::diagnostic::Diagnostics;
use cli_schema::names::NameSet;
use cli_schema::path::append_decimal;
use cli_schema::path::append_segment;
use cli_schema::path::Path;
use cli_schema::path::Segment;
use cli_schema::registry::resolve;
use cli_schema::registry::same_text;
use cli_schema::registry::TypeRule;
use cli_schema::schema::ArgumentSpec;
use cli_schema::schema::CommandSpec;
use cli_schema::validate::validate_argument;
use cli_schema::validate::validate_arguments;
use cli_schema::validate::validate_command;
use cli_schema::validate::validate_commands;

#[test]
fn registry_holds_three_tags() {
    assert_eq!(resolve("string").unwrap(), TypeRule::Text);
    assert_eq!(resolve("integer").unwrap(), TypeRule::Integer);
    assert_eq!(resolve("boolean").unwrap(), TypeRule::Boolean);
}

#[test]
fn registry_refuses_other_tags() {
    assert_eq!(resolve("uuid").unwrap_err().tag, "uuid");
    assert_eq!(resolve("").unwrap_err().tag, "");
    assert!(resolve("String").is_err());
    assert!(resolve("integer ").is_err());
    assert!(resolve("float").is_err());
}

#[test]
fn same_text_compares_characters() {
    assert!(same_text("abc", "abc"));
    assert!(same_text("", ""));
    assert!(!same_text("abc", "abd"));
    assert!(!same_text("abc", "ab"));
}

#[test]
fn decimal_has_no_leading_zeros() {
    let mut out = String::new();
    append_decimal(&mut out, 0);
    assert_eq!(out, "0");
    let mut out = String::from("x");
    append_decimal(&mut out, 7);
    assert_eq!(out, "x7");
    let mut out = String::new();
    append_decimal(&mut out, 10);
    assert_eq!(out, "10");
    let mut out = String::new();
    append_decimal(&mut out, 1234567890);
    assert_eq!(out, "1234567890");
    let mut out = String::new();
    append_decimal(&mut out, usize::MAX);
    assert_eq!(out, usize::MAX.to_string());
}

#[test]
fn segments_are_written_with_their_index() {
    let mut out = String::new();
    append_segment(&mut out, Segment::Name);
    append_segment(&mut out, Segment::Version);
    append_segment(&mut out, Segment::Author);
    assert_eq!(out, "nameversionauthor");
    let mut out = String::new();
    append_segment(&mut out, Segment::Commands(12));
    assert_eq!(out, "commands[12]");
    let mut out = String::new();
    append_segment(&mut out, Segment::Arguments(0));
    assert_eq!(out, "arguments[0]");
    let mut out = String::new();
    append_segment(&mut out, Segment::Subcommands(305));
    assert_eq!(out, "subcommands[305]");
}

#[test]
fn paths_are_dotted() {
    let root = Path::root();
    assert_eq!(root.render(), "");
    let first = root.child(Segment::Commands(1));
    assert_eq!(first.render(), "commands[1]");
    let second = first.child(Segment::Subcommands(20));
    let third = second.child(Segment::Arguments(3));
    assert_eq!(third.render(), "commands[1].subcommands[20].arguments[3]");
    assert_eq!(first.render(), "commands[1]");
    assert_eq!(third.duplicate().render(), third.render());
    assert_eq!(third.segments.len(), 3);
}

#[test]
fn name_set_holds_what_was_inserted() {
    let mut names = NameSet::new();
    let a = "alpha".to_string();
    let b = "beta".to_string();
    assert!(!names.contains(&a));
    names.insert(&a);
    assert!(names.contains(&a));
    assert!(!names.contains(&b));
    names.insert(&b);
    names.insert(&a);
    assert!(names.contains(&a));
    assert!(names.contains(&b));
    assert!(!names.contains(&"Alpha".to_string()));
}

#[test]
fn collector_keeps_the_order_of_reports() {
    let mut found = Diagnostics::new();
    assert!(found.is_empty());
    assert_eq!(found.len(), 0);
    let place = Path::root().child(Segment::Commands(0));
    found.report(&place, DiagnosticKind::EmptyDescription, "one".to_string());
    let mut more = Diagnostics::new();
    more.report(&place, DiagnosticKind::UnknownType, "two".to_string());
    more.report(&Path::root(), DiagnosticKind::InvalidMetadata, "three".to_string());
    found.absorb(more);
    assert!(!found.is_empty());
    assert_eq!(found.len(), 3);
    let items = found.into_vec();
    assert_eq!(items[0].message, "one");
    assert_eq!(items[0].kind, DiagnosticKind::EmptyDescription);
    assert_eq!(items[0].path.render(), "commands[0]");
    assert_eq!(items[1].message, "two");
    assert_eq!(items[1].kind, DiagnosticKind::UnknownType);
    assert_eq!(items[2].message, "three");
    assert_eq!(items[2].path.render(), "");
}

fn argument(name: &str, description: &str, type_tag: &str) -> ArgumentSpec {
    ArgumentSpec::new(name.to_string(), description.to_string(), type_tag.to_string())
}

#[test]
fn new_argument_is_required() {
    let a = argument("file", "the file", "string");
    assert_eq!(a.name, "file");
    assert_eq!(a.description, "the file");
    assert_eq!(a.type_tag, "string");
    assert!(a.required);
}

#[test]
fn optional_argument_keeps_the_rest() {
    let a = argument("file", "the file", "string").optional();
    assert_eq!(a.name, "file");
    assert_eq!(a.description, "the file");
    assert_eq!(a.type_tag, "string");
    assert!(!a.required);
}

#[test]
fn argument_in_order_brings_nothing() {
    let names = NameSet::new();
    let found = validate_argument(&argument("file", "the file", "string"), &names, &Path::root());
    assert!(found.is_empty());
}

#[test]
fn argument_checks_are_made_in_turn() {
    let mut names = NameSet::new();
    names.insert(&"file".to_string());
    let place = Path::root().child(Segment::Commands(2)).child(Segment::Arguments(1));
    let found = validate_argument(&argument("file", "", "path"), &names, &place).into_vec();
    assert_eq!(found.len(), 3);
    assert_eq!(found[0].kind, DiagnosticKind::DuplicateArgument);
    assert_eq!(found[0].message, "name is already taken: file");
    assert_eq!(found[1].kind, DiagnosticKind::EmptyDescription);
    assert_eq!(found[1].message, "description must not be empty");
    assert_eq!(found[2].kind, DiagnosticKind::UnknownType);
    assert_eq!(found[2].message, "unknown argument type: path");
    for d in &found {
        assert_eq!(d.path.render(), "commands[2].arguments[1]");
    }
}

#[test]
fn arguments_are_held_against_those_before_them() {
    let arguments = vec![
        argument("a", "first", "string"),
        argument("b", "second", "integer"),
        argument("a", "third", "boolean"),
    ];
    let place = Path::root().child(Segment::Commands(0));
    let found = validate_arguments(&arguments, &place).into_vec();
    assert_eq!(found.len(), 1);
    assert_eq!(found[0].kind, DiagnosticKind::DuplicateArgument);
    assert_eq!(found[0].path.render(), "commands[0].arguments[2]");
}

fn leaf(name: &str) -> CommandSpec {
    CommandSpec {
        name: name.to_string(),
        description: "does something".to_string(),
        arguments: vec![],
        subcommands: vec![],
    }
}

#[test]
fn command_is_held_against_the_names_given() {
    let mut names = NameSet::new();
    names.insert(&"push".to_string());
    let place = Path::root().child(Segment::Commands(4));
    assert!(validate_command(&leaf("pull"), &names, &place).is_empty());
    let found = validate_command(&leaf("push"), &names, &place).into_vec();
    assert_eq!(found.len(), 1);
    assert_eq!(found[0].kind, DiagnosticKind::DuplicateCommand);
    assert_eq!(found[0].path.render(), "commands[4]");
}

#[test]
fn nested_commands_start_from_an_empty_set() {
    let mut names = NameSet::new();
    names.insert(&"push".to_string());
    let mut parent = leaf("origin");
    parent.subcommands = vec![leaf("push"), leaf("origin")];
    let place = Path::root().child(Segment::Commands(0));
    assert!(validate_command(&parent, &names, &place).is_empty());
}

#[test]
fn commands_are_named_by_their_level() {
    let commands = vec![leaf("a"), leaf("a")];
    let root = Path::root();
    let top = validate_commands(&commands, &root, false).into_vec();
    assert_eq!(top.len(), 1);
    assert_eq!(top[0].path.render(), "commands[1]");
    let place = root.child(Segment::Commands(3));
    let nested = validate_commands(&commands, &place, true).into_vec();
    assert_eq!(nested.len(), 1);
    assert_eq!(nested[0].path.render(), "commands[3].subcommands[1]");
}
