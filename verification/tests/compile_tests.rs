use cli_schema::compiler::compile;
use cli_schema::compiler::diagnose;
use cli_schema::diagnostic::Diagnostic;
use cli_schema::diagnostic::DiagnosticKind;
use cli_schema::registry::TypeRule;
use cli_schema::schema::ArgumentSpec;
use cli_schema::schema::CommandSpec;
use cli_schema::schema::ToolSpec;

fn argument(name: &str, type_tag: &str) -> ArgumentSpec {
    ArgumentSpec {
        name: name.to_string(),
        description: format!("{} description", name),
        type_tag: type_tag.to_string(),
        required: true,
    }
}

fn command(name: &str, arguments: Vec<ArgumentSpec>, subcommands: Vec<CommandSpec>) -> CommandSpec {
    CommandSpec {
        name: name.to_string(),
        description: format!("{} description", name),
        arguments,
        subcommands,
    }
}

fn tool(commands: Vec<CommandSpec>) -> ToolSpec {
    ToolSpec {
        name: "my_tool".to_string(),
        version: "1.0".to_string(),
        author: "John Doe".to_string(),
        commands,
    }
}

fn example() -> ToolSpec {
    tool(vec![
        command(
            "cmd1",
            vec![argument("arg1", "string"), argument("arg2", "integer")],
            vec![],
        ),
        command("cmd2", vec![argument("arg3", "boolean")], vec![]),
    ])
}

fn failure(spec: &ToolSpec) -> Vec<Diagnostic> {
    match compile(spec) {
        Ok(_) => panic!("the declaration compiled"),
        Err(failed) => failed.diagnostics,
    }
}

fn summary(found: &Vec<Diagnostic>) -> Vec<(String, DiagnosticKind)> {
    let mut out = Vec::new();
    for d in found {
        out.push((d.path.render(), d.kind));
    }
    out
}

#[test]
fn valid_tool_compiles_to_its_tree() {
    let tree = compile(&example()).unwrap();
    assert_eq!(tree.name, "my_tool");
    assert_eq!(tree.version, "1.0");
    assert_eq!(tree.author, "John Doe");
    assert_eq!(tree.commands.len(), 2);
    let first = &tree.commands[0];
    assert_eq!(first.name, "cmd1");
    assert_eq!(first.description, "cmd1 description");
    assert_eq!(first.arguments.len(), 2);
    assert_eq!(first.arguments[0].name, "arg1");
    assert_eq!(first.arguments[0].description, "arg1 description");
    assert_eq!(first.arguments[0].rule, TypeRule::Text);
    assert!(first.arguments[0].required);
    assert_eq!(first.arguments[1].name, "arg2");
    assert_eq!(first.arguments[1].rule, TypeRule::Integer);
    assert!(first.subcommands.is_empty());
    let second = &tree.commands[1];
    assert_eq!(second.name, "cmd2");
    assert_eq!(second.arguments.len(), 1);
    assert_eq!(second.arguments[0].name, "arg3");
    assert_eq!(second.arguments[0].rule, TypeRule::Boolean);
}

#[test]
fn renamed_sibling_gives_one_duplicate_command() {
    let mut spec = example();
    spec.commands[1].name = "cmd1".to_string();
    let found = failure(&spec);
    assert_eq!(found.len(), 1);
    assert_eq!(found[0].kind, DiagnosticKind::DuplicateCommand);
    assert_eq!(found[0].path.render(), "commands[1]");
    assert_eq!(found[0].message, "name is already taken: cmd1");
}

#[test]
fn unregistered_type_gives_unknown_type_at_the_argument() {
    let mut spec = example();
    spec.commands[0].arguments[1].type_tag = "uuid".to_string();
    let found = failure(&spec);
    assert_eq!(found.len(), 1);
    assert_eq!(found[0].kind, DiagnosticKind::UnknownType);
    assert_eq!(found[0].path.render(), "commands[0].arguments[1]");
    assert_eq!(found[0].message, "unknown argument type: uuid");
}

#[test]
fn unknown_type_does_not_hide_later_problems() {
    let mut spec = example();
    spec.commands[0].arguments[0].type_tag = "uuid".to_string();
    spec.commands[0].arguments[1].description = String::new();
    spec.commands[1].description = String::new();
    let found = failure(&spec);
    assert_eq!(
        summary(&found),
        vec![
            ("commands[0].arguments[0]".to_string(), DiagnosticKind::UnknownType),
            ("commands[0].arguments[1]".to_string(), DiagnosticKind::EmptyDescription),
            ("commands[1]".to_string(), DiagnosticKind::EmptyDescription),
        ]
    );
}

#[test]
fn empty_description_and_duplicate_argument_come_together() {
    let mut spec = example();
    spec.commands[0].description = String::new();
    spec.commands[0].arguments[1].name = "arg1".to_string();
    let found = failure(&spec);
    assert_eq!(
        summary(&found),
        vec![
            ("commands[0]".to_string(), DiagnosticKind::EmptyDescription),
            ("commands[0].arguments[1]".to_string(), DiagnosticKind::DuplicateArgument),
        ]
    );
    assert_eq!(found[0].message, "description must not be empty");
    assert_eq!(found[1].message, "name is already taken: arg1");
}

#[test]
fn compiling_twice_gives_equal_trees() {
    let spec = example();
    let first = compile(&spec).unwrap();
    let second = compile(&spec).unwrap();
    assert_eq!(format!("{:?}", first), format!("{:?}", second));
}

#[test]
fn three_problems_give_three_diagnostics() {
    let spec = tool(vec![
        command("build", vec![argument("target", "uuid")], vec![]),
        command("build", vec![], vec![]),
        command("build", vec![], vec![]),
    ]);
    let found = failure(&spec);
    assert_eq!(
        summary(&found),
        vec![
            ("commands[0].arguments[0]".to_string(), DiagnosticKind::UnknownType),
            ("commands[1]".to_string(), DiagnosticKind::DuplicateCommand),
            ("commands[2]".to_string(), DiagnosticKind::DuplicateCommand),
        ]
    );
}

#[test]
fn same_name_at_another_depth_is_no_duplicate() {
    let spec = tool(vec![
        command(
            "remote",
            vec![],
            vec![command("remote", vec![], vec![command("remote", vec![], vec![])])],
        ),
        command("add", vec![], vec![command("remote", vec![], vec![])]),
    ]);
    let tree = compile(&spec).unwrap();
    assert_eq!(tree.commands[0].subcommands[0].subcommands[0].name, "remote");
    assert_eq!(tree.commands[1].subcommands[0].name, "remote");
}

#[test]
fn same_name_among_nested_siblings_is_one_duplicate() {
    let spec = tool(vec![command(
        "remote",
        vec![],
        vec![command("add", vec![], vec![]), command("add", vec![], vec![])],
    )]);
    let found = failure(&spec);
    assert_eq!(
        summary(&found),
        vec![("commands[0].subcommands[1]".to_string(), DiagnosticKind::DuplicateCommand)]
    );
}

#[test]
fn same_argument_name_in_two_commands_is_no_duplicate() {
    let spec = tool(vec![
        command("get", vec![argument("key", "string")], vec![]),
        command("set", vec![argument("key", "string")], vec![]),
    ]);
    assert!(compile(&spec).is_ok());
}

#[test]
fn diagnostics_follow_the_walk() {
    let spec = ToolSpec {
        name: String::new(),
        version: String::new(),
        author: String::new(),
        commands: vec![
            CommandSpec {
                name: String::new(),
                description: String::new(),
                arguments: vec![
                    ArgumentSpec {
                        name: String::new(),
                        description: String::new(),
                        type_tag: "float".to_string(),
                        required: false,
                    },
                    argument("ok", "string"),
                ],
                subcommands: vec![
                    command("leaf", vec![argument("x", "string"), argument("x", "int")], vec![]),
                    command("leaf", vec![], vec![]),
                ],
            },
            command("", vec![], vec![]),
        ],
    };
    let found = failure(&spec);
    let expected = vec![
        ("name".to_string(), DiagnosticKind::InvalidMetadata),
        ("version".to_string(), DiagnosticKind::InvalidMetadata),
        ("author".to_string(), DiagnosticKind::InvalidMetadata),
        ("commands[0]".to_string(), DiagnosticKind::DuplicateCommand),
        ("commands[0]".to_string(), DiagnosticKind::EmptyDescription),
        ("commands[0].arguments[0]".to_string(), DiagnosticKind::DuplicateArgument),
        ("commands[0].arguments[0]".to_string(), DiagnosticKind::EmptyDescription),
        ("commands[0].arguments[0]".to_string(), DiagnosticKind::UnknownType),
        ("commands[0].subcommands[0].arguments[1]".to_string(), DiagnosticKind::DuplicateArgument),
        ("commands[0].subcommands[0].arguments[1]".to_string(), DiagnosticKind::UnknownType),
        ("commands[0].subcommands[1]".to_string(), DiagnosticKind::DuplicateCommand),
        ("commands[1]".to_string(), DiagnosticKind::DuplicateCommand),
    ];
    assert_eq!(summary(&found), expected);
    let again = failure(&spec);
    assert_eq!(summary(&again), expected);
    assert_eq!(format!("{:?}", found), format!("{:?}", again));
}

#[test]
fn empty_metadata_is_reported_field_by_field() {
    let mut spec = example();
    spec.version = String::new();
    let found = failure(&spec);
    assert_eq!(found.len(), 1);
    assert_eq!(found[0].kind, DiagnosticKind::InvalidMetadata);
    assert_eq!(found[0].path.render(), "version");
    assert_eq!(found[0].message, "tool version must not be empty");
    spec.name = String::new();
    spec.author = String::new();
    let found = failure(&spec);
    assert_eq!(found.len(), 3);
    assert_eq!(found[0].message, "tool name must not be empty");
    assert_eq!(found[1].message, "tool version must not be empty");
    assert_eq!(found[2].message, "tool author must not be empty");
    assert_eq!(found[2].path.render(), "author");
}

#[test]
fn empty_names_are_reported_as_name_problems() {
    let spec = tool(vec![command("", vec![argument("", "string")], vec![])]);
    let found = failure(&spec);
    assert_eq!(
        summary(&found),
        vec![
            ("commands[0]".to_string(), DiagnosticKind::DuplicateCommand),
            ("commands[0].arguments[0]".to_string(), DiagnosticKind::DuplicateArgument),
        ]
    );
    assert_eq!(found[0].message, "name must not be empty");
    assert_eq!(found[1].message, "name must not be empty");
}

#[test]
fn tool_without_commands_compiles() {
    let tree = compile(&tool(vec![])).unwrap();
    assert_eq!(tree.name, "my_tool");
    assert!(tree.commands.is_empty());
}

#[test]
fn optional_argument_stays_optional() {
    let mut spec = example();
    spec.commands[0].arguments[0].required = false;
    let tree = compile(&spec).unwrap();
    assert!(!tree.commands[0].arguments[0].required);
    assert!(tree.commands[0].arguments[1].required);
}

#[test]
fn diagnose_agrees_with_compile() {
    let mut spec = example();
    assert!(diagnose(&spec).is_empty());
    spec.commands[1].name = "cmd1".to_string();
    let found = diagnose(&spec);
    assert_eq!(found.len(), 1);
    let items = found.into_vec();
    assert_eq!(items[0].kind, DiagnosticKind::DuplicateCommand);
    assert_eq!(items[0].path.render(), "commands[1]");
}

#[test]
fn third_of_a_name_is_reported_once_more() {
    let spec = tool(vec![command(
        "run",
        vec![argument("a", "string"), argument("a", "string"), argument("a", "string")],
        vec![],
    )]);
    let found = failure(&spec);
    assert_eq!(
        summary(&found),
        vec![
            ("commands[0].arguments[1]".to_string(), DiagnosticKind::DuplicateArgument),
            ("commands[0].arguments[2]".to_string(), DiagnosticKind::DuplicateArgument),
        ]
    );
}
