use crate::registry::resolve_spec;
use crate::registry::TypeRule;
use crate::schema::ArgumentModel;
use crate::schema::CommandModel;
use crate::schema::ToolModel;
use vstd::prelude::*;

verus! {

/// An argument of a compiled command: its type tag has become a rule.
#[derive(Debug)]
pub struct CompiledArgument {
    pub name: String,
    pub description: String,
    pub rule: TypeRule,
    pub required: bool,
}

/// A command of a compiled tree, with the commands nested under it.
#[derive(Debug)]
pub struct CompiledCommand {
    pub name: String,
    pub description: String,
    pub arguments: Vec<CompiledArgument>,
    pub subcommands: Vec<CompiledCommand>,
}

/// What compiling a valid tool declaration yields: the declaration with every type tag
/// resolved, ready for an engine that parses command lines.
#[derive(Debug)]
pub struct CommandTree {
    pub name: String,
    pub version: String,
    pub author: String,
    pub commands: Vec<CompiledCommand>,
}

/// What a `CompiledArgument` says, as mathematical values.
pub struct CompiledArgumentModel {
    pub name: Seq<char>,
    pub description: Seq<char>,
    pub rule: TypeRule,
    pub required: bool,
}

/// What a `CompiledCommand` says, as mathematical values.
pub struct CompiledCommandModel {
    pub name: Seq<char>,
    pub description: Seq<char>,
    pub arguments: Seq<CompiledArgumentModel>,
    pub subcommands: Seq<CompiledCommandModel>,
}

/// What a `CommandTree` says, as mathematical values.
pub struct TreeModel {
    pub name: Seq<char>,
    pub version: Seq<char>,
    pub author: Seq<char>,
    pub commands: Seq<CompiledCommandModel>,
}

impl View for CompiledArgument {
    type V = CompiledArgumentModel;

    open spec fn view(&self) -> CompiledArgumentModel {
        CompiledArgumentModel {
            name: self.name@,
            description: self.description@,
            rule: self.rule,
            required: self.required,
        }
    }
}

/// The models of a list of compiled arguments, in order.
pub open spec fn compiled_argument_models(arguments: Seq<CompiledArgument>) -> Seq<
    CompiledArgumentModel,
> {
    Seq::new(arguments.len(), |i: int| arguments[i]@)
}

/// The model of one compiled command, nested commands included.
pub open spec fn compiled_command_model(command: CompiledCommand) -> CompiledCommandModel
    decreases command,
{
    CompiledCommandModel {
        name: command.name@,
        description: command.description@,
        arguments: compiled_argument_models(command.arguments@),
        subcommands: Seq::new(
            command.subcommands.len() as nat,
            |i: int|
                if 0 <= i < command.subcommands.len() {
                    compiled_command_model(command.subcommands[i])
                } else {
                    arbitrary()
                },
        ),
    }
}

/// The models of a list of compiled commands, in order.
pub open spec fn compiled_command_models(commands: Seq<CompiledCommand>) -> Seq<
    CompiledCommandModel,
> {
    Seq::new(commands.len(), |i: int| compiled_command_model(commands[i]))
}

impl View for CompiledCommand {
    type V = CompiledCommandModel;

    open spec fn view(&self) -> CompiledCommandModel {
        compiled_command_model(*self)
    }
}

impl View for CommandTree {
    type V = TreeModel;

    open spec fn view(&self) -> TreeModel {
        TreeModel {
            name: self.name@,
            version: self.version@,
            author: self.author@,
            commands: compiled_command_models(self.commands@),
        }
    }
}

/// The nested commands of a compiled command have the models that its own model lists.
pub proof fn lemma_compiled_command_model_unfold(command: CompiledCommand)
    ensures
        command@.name == command.name@,
        command@.description == command.description@,
        command@.arguments == compiled_argument_models(command.arguments@),
        command@.subcommands == compiled_command_models(command.subcommands@),
{
    assert(command@.subcommands =~= compiled_command_models(command.subcommands@));
}

/// An argument declaration is in order: it has a name, a description and a known type tag.
pub open spec fn valid_argument(argument: ArgumentModel) -> bool {
    &&& argument.name.len() > 0
    &&& argument.description.len() > 0
    &&& resolve_spec(argument.type_tag) is Some
}

/// No two of the arguments share a name.
pub open spec fn distinct_argument_names(arguments: Seq<ArgumentModel>) -> bool {
    forall|i: int, j: int|
        0 <= i < j < arguments.len() ==> (#[trigger] arguments[i]).name != (
        #[trigger] arguments[j]).name
}

/// No two of the commands share a name.
pub open spec fn distinct_command_names(commands: Seq<CommandModel>) -> bool {
    forall|i: int, j: int|
        0 <= i < j < commands.len() ==> (#[trigger] commands[i]).name != (
        #[trigger] commands[j]).name
}

/// A command declaration is in order: it has a name and a description, its arguments are
/// in order and differ in their names, and so are and do the commands nested under it.
pub open spec fn valid_command(command: CommandModel) -> bool
    decreases command,
{
    &&& command.name.len() > 0
    &&& command.description.len() > 0
    &&& forall|i: int|
        0 <= i < command.arguments.len() ==> valid_argument(#[trigger] command.arguments[i])
    &&& distinct_argument_names(command.arguments)
    &&& forall|i: int|
        0 <= i < command.subcommands.len() ==> valid_command(#[trigger] command.subcommands[i])
    &&& distinct_command_names(command.subcommands)
}

/// A tool declaration is in order: name, version and author are not empty, and its
/// commands are in order and differ in their names.
pub open spec fn valid_tool(tool: ToolModel) -> bool {
    &&& tool.name.len() > 0
    &&& tool.version.len() > 0
    &&& tool.author.len() > 0
    &&& forall|i: int| 0 <= i < tool.commands.len() ==> valid_command(#[trigger] tool.commands[i])
    &&& distinct_command_names(tool.commands)
}

/// The rule that a type tag stands for; meaningful for the tags that the registry holds.
pub open spec fn rule_of(tag: Seq<char>) -> TypeRule {
    match resolve_spec(tag) {
        Some(rule) => rule,
        None => arbitrary(),
    }
}

/// What an argument declaration compiles to.
pub open spec fn compiled_argument(argument: ArgumentModel) -> CompiledArgumentModel {
    CompiledArgumentModel {
        name: argument.name,
        description: argument.description,
        rule: rule_of(argument.type_tag),
        required: argument.required,
    }
}

/// What a list of argument declarations compiles to.
pub open spec fn compiled_arguments(arguments: Seq<ArgumentModel>) -> Seq<CompiledArgumentModel> {
    Seq::new(arguments.len(), |i: int| compiled_argument(arguments[i]))
}

/// What a command declaration compiles to.
pub open spec fn compiled_command(command: CommandModel) -> CompiledCommandModel
    decreases command,
{
    CompiledCommandModel {
        name: command.name,
        description: command.description,
        arguments: compiled_arguments(command.arguments),
        subcommands: Seq::new(
            command.subcommands.len(),
            |i: int|
                if 0 <= i < command.subcommands.len() {
                    compiled_command(command.subcommands[i])
                } else {
                    arbitrary()
                },
        ),
    }
}

/// What a list of command declarations compiles to.
pub open spec fn compiled_commands(commands: Seq<CommandModel>) -> Seq<CompiledCommandModel> {
    Seq::new(commands.len(), |i: int| compiled_command(commands[i]))
}

/// What a tool declaration compiles to.
pub open spec fn compiled_tree(tool: ToolModel) -> TreeModel {
    TreeModel {
        name: tool.name,
        version: tool.version,
        author: tool.author,
        commands: compiled_commands(tool.commands),
    }
}

/// The nested commands of a declaration compile to the nested commands of what it compiles to.
pub proof fn lemma_compiled_command_unfold(command: CommandModel)
    ensures
        compiled_command(command).subcommands == compiled_commands(command.subcommands),
{
    assert(compiled_command(command).subcommands =~= compiled_commands(command.subcommands));
}

/// No two of the compiled arguments share a name.
pub open spec fn distinct_compiled_argument_names(arguments: Seq<CompiledArgumentModel>) -> bool {
    forall|i: int, j: int|
        0 <= i < j < arguments.len() ==> (#[trigger] arguments[i]).name != (
        #[trigger] arguments[j]).name
}

/// No two of the compiled commands share a name.
pub open spec fn distinct_compiled_command_names(commands: Seq<CompiledCommandModel>) -> bool {
    forall|i: int, j: int|
        0 <= i < j < commands.len() ==> (#[trigger] commands[i]).name != (
        #[trigger] commands[j]).name
}

/// What holds of every command of a compiled tree: it has a name and a description,
/// its arguments have names and descriptions and differ in their names, and the
/// commands nested under it differ in their names and are well formed themselves.
pub open spec fn well_formed_command(command: CompiledCommandModel) -> bool
    decreases command,
{
    &&& command.name.len() > 0
    &&& command.description.len() > 0
    &&& forall|i: int|
        0 <= i < command.arguments.len() ==> (#[trigger] command.arguments[i]).name.len() > 0
            && command.arguments[i].description.len() > 0
    &&& distinct_compiled_argument_names(command.arguments)
    &&& forall|i: int|
        0 <= i < command.subcommands.len() ==> well_formed_command(
            #[trigger] command.subcommands[i],
        )
    &&& distinct_compiled_command_names(command.subcommands)
}

/// What holds of every compiled tree: name, version and author are not empty, and
/// its commands differ in their names and are well formed.
pub open spec fn well_formed_tree(tree: TreeModel) -> bool {
    &&& tree.name.len() > 0
    &&& tree.version.len() > 0
    &&& tree.author.len() > 0
    &&& forall|i: int|
        0 <= i < tree.commands.len() ==> well_formed_command(#[trigger] tree.commands[i])
    &&& distinct_compiled_command_names(tree.commands)
}

/// A command declaration that is in order compiles to a well-formed command.
pub proof fn lemma_compiled_command_well_formed(command: CommandModel)
    requires
        valid_command(command),
    ensures
        well_formed_command(compiled_command(command)),
    decreases command,
{
    let compiled = compiled_command(command);
    assert forall|i: int| 0 <= i < compiled.arguments.len() implies (
    #[trigger] compiled.arguments[i]).name.len() > 0 && compiled.arguments[i].description.len()
        > 0 by {
        assert(valid_argument(command.arguments[i]));
    }
    assert forall|i: int, j: int| 0 <= i < j < compiled.arguments.len() implies (
    #[trigger] compiled.arguments[i]).name != (#[trigger] compiled.arguments[j]).name by {
        assert(command.arguments[i].name != command.arguments[j].name);
    }
    assert forall|i: int| 0 <= i < compiled.subcommands.len() implies well_formed_command(
        #[trigger] compiled.subcommands[i],
    ) by {
        assert(valid_command(command.subcommands[i]));
        lemma_compiled_command_well_formed(command.subcommands[i]);
    }
    assert forall|i: int, j: int| 0 <= i < j < compiled.subcommands.len() implies (
    #[trigger] compiled.subcommands[i]).name != (#[trigger] compiled.subcommands[j]).name by {
        lemma_compiled_command_name(command.subcommands[i]);
        lemma_compiled_command_name(command.subcommands[j]);
        assert(command.subcommands[i].name != command.subcommands[j].name);
    }
}

proof fn lemma_compiled_command_name(command: CommandModel)
    ensures
        compiled_command(command).name == command.name,
{
}

/// A tool declaration that is in order compiles to a well-formed tree.
pub proof fn lemma_compiled_tree_well_formed(tool: ToolModel)
    requires
        valid_tool(tool),
    ensures
        well_formed_tree(compiled_tree(tool)),
{
    let compiled = compiled_tree(tool);
    assert forall|i: int| 0 <= i < compiled.commands.len() implies well_formed_command(
        #[trigger] compiled.commands[i],
    ) by {
        assert(valid_command(tool.commands[i]));
        lemma_compiled_command_well_formed(tool.commands[i]);
    }
    assert forall|i: int, j: int| 0 <= i < j < compiled.commands.len() implies (
    #[trigger] compiled.commands[i]).name != (#[trigger] compiled.commands[j]).name by {
        assert(tool.commands[i].name != tool.commands[j].name);
    }
}

} // verus!
