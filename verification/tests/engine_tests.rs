use cli_schema::compiler::compile;
use cli_schema::engine::generate_command;
use cli_schema::engine::generate_tool;
use cli_schema::registry::TypeRule;
use cli_schema::schema::ArgumentSpec;
use cli_schema::schema::CommandSpec;
use cli_schema::schema::ToolSpec;
use cli_schema::tree::CompiledArgument;
use cli_schema::tree::CompiledCommand;

fn example() -> ToolSpec {
    ToolSpec {
        name: "my_tool".to_string(),
        version: "1.0".to_string(),
        author: "John Doe".to_string(),
        commands: vec![
            CommandSpec {
                name: "cmd1".to_string(),
                description: "Command 1 description".to_string(),
                arguments: vec![
                    ArgumentSpec {
                        name: "arg1".to_string(),
                        description: "Argument 1 description".to_string(),
                        type_tag: "string".to_string(),
                        required: true,
                    },
                    ArgumentSpec {
                        name: "arg2".to_string(),
                        description: "Argument 2 description".to_string(),
                        type_tag: "integer".to_string(),
                        required: false,
                    },
                ],
                subcommands: vec![CommandSpec {
                    name: "inner".to_string(),
                    description: "Inner description".to_string(),
                    arguments: vec![],
                    subcommands: vec![],
                }],
            },
            CommandSpec {
                name: "cmd2".to_string(),
                description: "Command 2 description".to_string(),
                arguments: vec![ArgumentSpec {
                    name: "arg3".to_string(),
                    description: "Argument 3 description".to_string(),
                    type_tag: "boolean".to_string(),
                    required: true,
                }],
                subcommands: vec![],
            },
        ],
    }
}

#[test]
fn generated_tool_has_the_metadata() {
    let tree = compile(&example()).unwrap();
    let app = generate_tool(&tree);
    assert_eq!(app.get_name(), "my_tool");
    assert_eq!(app.get_version(), Some("1.0"));
    assert_eq!(app.get_author(), Some("John Doe"));
    assert_eq!(app.get_about(), None);
    let own: Vec<(&str, Option<&str>, bool)> =
        app.get_arguments().map(|a| (a.get_id(), a.get_help(), a.is_required_set())).collect();
    assert_eq!(
        own,
        vec![
            ("help", Some("Print help information"), false),
            ("version", Some("Print version information"), false),
        ]
    );
}

#[test]
fn generated_tool_has_the_commands_in_order() {
    let tree = compile(&example()).unwrap();
    let app = generate_tool(&tree);
    let names: Vec<&str> = app.get_subcommands().map(|c| c.get_name()).collect();
    assert_eq!(names, vec!["cmd1", "cmd2"]);
    let first = app.get_subcommands().next().unwrap();
    assert_eq!(first.get_about(), Some("Command 1 description"));
    assert_eq!(first.get_version(), None);
    assert_eq!(first.get_author(), None);
    let nested: Vec<&str> = first.get_subcommands().map(|c| c.get_name()).collect();
    assert_eq!(nested, vec!["inner"]);
    let inner = first.get_subcommands().next().unwrap();
    assert_eq!(inner.get_about(), Some("Inner description"));
    assert_eq!(inner.get_subcommands().count(), 0);
}

#[test]
fn generated_commands_have_the_arguments_in_order() {
    let tree = compile(&example()).unwrap();
    let app = generate_tool(&tree);
    let first = app.get_subcommands().next().unwrap();
    let arguments: Vec<(&str, Option<&str>, bool)> = first
        .get_arguments()
        .map(|a| (a.get_id(), a.get_help(), a.is_required_set()))
        .collect();
    assert_eq!(
        arguments,
        vec![
            ("help", Some("Print help information"), false),
            ("version", Some("Print version information"), false),
            ("arg1", Some("Argument 1 description"), true),
            ("arg2", Some("Argument 2 description"), false),
        ]
    );
    let second = app.get_subcommands().nth(1).unwrap();
    let arguments: Vec<(&str, Option<&str>, bool)> = second
        .get_arguments()
        .skip(2)
        .map(|a| (a.get_id(), a.get_help(), a.is_required_set()))
        .collect();
    assert_eq!(arguments, vec![("arg3", Some("Argument 3 description"), true)]);
}

#[test]
fn generated_command_stands_alone() {
    let command = CompiledCommand {
        name: "serve".to_string(),
        description: "Serves".to_string(),
        arguments: vec![CompiledArgument {
            name: "depth".to_string(),
            description: "The depth".to_string(),
            rule: TypeRule::Integer,
            required: true,
        }],
        subcommands: vec![],
    };
    let app = generate_command(&command);
    assert_eq!(app.get_name(), "serve");
    assert_eq!(app.get_about(), Some("Serves"));
    let only = app.get_arguments().nth(2).unwrap();
    assert_eq!(only.get_id(), "depth");
    assert_eq!(only.get_help(), Some("The depth"));
    assert!(only.is_required_set());
    assert_eq!(app.get_arguments().count(), 3);
}
