use crate::diagnostic::diagnostic_models;
use crate::diagnostic::Diagnostic;
use crate::diagnostic::DiagnosticKind;
use crate::diagnostic::DiagnosticModel;
use crate::diagnostic::Diagnostics;
use crate::path::Path;
use crate::path::Segment;
use crate::path::Step;
use crate::registry::resolve;
use crate::schema::argument_models;
use crate::schema::command_models;
use crate::schema::lemma_command_model_unfold;
use crate::schema::ArgumentModel;
use crate::schema::ArgumentSpec;
use crate::schema::CommandModel;
use crate::schema::CommandSpec;
use crate::schema::ToolModel;
use crate::schema::ToolSpec;
use crate::tree::compiled_argument;
use crate::tree::compiled_argument_models;
use crate::tree::compiled_arguments;
use crate::tree::compiled_command;
use crate::tree::compiled_command_models;
use crate::tree::compiled_commands;
use crate::tree::compiled_tree;
use crate::tree::lemma_compiled_command_model_unfold;
use crate::tree::lemma_compiled_command_unfold;
use crate::tree::lemma_compiled_tree_well_formed;
use crate::tree::valid_argument;
use crate::tree::valid_command;
use crate::tree::valid_tool;
use crate::tree::well_formed_tree;
use crate::tree::CommandTree;
use crate::tree::CompiledArgument;
use crate::tree::CompiledCommand;
use crate::validate::argument_diagnostics;
use crate::validate::argument_names;
use crate::validate::arguments_diagnostics;
use crate::validate::command_diagnostics;
use crate::validate::command_names;
use crate::validate::command_step;
use crate::validate::commands_diagnostics;
use crate::validate::validate_commands;
use vstd::pervasive::unreached;
use vstd::prelude::*;
use vstd::string::StringExecFns;

verus! {

/// The failure of a compilation: every problem of the declaration, in the order of a
/// walk that visits a node before its parts.
#[derive(Debug)]
pub struct CompilationFailed {
    pub diagnostics: Vec<Diagnostic>,
}

impl View for CompilationFailed {
    type V = Seq<DiagnosticModel>;

    open spec fn view(&self) -> Seq<DiagnosticModel> {
        diagnostic_models(self.diagnostics@)
    }
}

/// The words that go with an empty piece of the tool's metadata.
pub open spec fn metadata_message(step: Step) -> Seq<char> {
    match step {
        Step::Name => "tool name must not be empty"@,
        Step::Version => "tool version must not be empty"@,
        _ => "tool author must not be empty"@,
    }
}

/// What the check of one piece of metadata reports: one diagnostic if it is empty.
pub open spec fn metadata_finding(text: Seq<char>, step: Step) -> Seq<DiagnosticModel> {
    if text.len() == 0 {
        seq![
            DiagnosticModel {
                path: seq![step],
                kind: DiagnosticKind::InvalidMetadata,
                message: metadata_message(step),
            },
        ]
    } else {
        Seq::empty()
    }
}

/// Every diagnostic of a tool declaration: for its name, version and author, then for
/// its commands in order.
pub open spec fn tool_diagnostics(tool: ToolModel) -> Seq<DiagnosticModel> {
    metadata_finding(tool.name, Step::Name) + metadata_finding(tool.version, Step::Version)
        + metadata_finding(tool.author, Step::Author) + commands_diagnostics(
        tool.commands,
        Seq::empty(),
        false,
        tool.commands.len(),
    )
}

/// What a compilation of `tool` may return: the compiled tree where the declaration
/// has no diagnostic, all of its diagnostics where it has some.
pub open spec fn compiles_to(
    tool: ToolModel,
    result: Result<CommandTree, CompilationFailed>,
) -> bool {
    match result {
        Ok(tree) => tool_diagnostics(tool).len() == 0 && tree@ == compiled_tree(tool),
        Err(failed) => tool_diagnostics(tool).len() > 0 && failed@ == tool_diagnostics(tool),
    }
}

/// An argument brings no diagnostic exactly when it is in order and its name is free.
pub proof fn lemma_argument_clean(argument: ArgumentModel, taken: Set<Seq<char>>, path: Seq<Step>)
    ensures
        argument_diagnostics(argument, taken, path).len() == 0 <==> valid_argument(argument)
            && !taken.contains(argument.name),
{
}

/// The first `upto` arguments bring no diagnostic exactly when each is in order and no
/// two of them share a name.
pub proof fn lemma_arguments_clean(arguments: Seq<ArgumentModel>, path: Seq<Step>, upto: nat)
    requires
        upto <= arguments.len(),
    ensures
        arguments_diagnostics(arguments, path, upto).len() == 0 <==> (forall|i: int|
            0 <= i < upto ==> valid_argument(#[trigger] arguments[i])) && (forall|i: int, j: int|
            0 <= i < j < upto ==> (#[trigger] arguments[i]).name != (#[trigger] arguments[j]).name),
    decreases upto,
{
    if upto > 0 {
        let last = arguments[upto - 1];
        let taken = argument_names(arguments, upto - 1);
        let place = path.push(Step::Arguments((upto - 1) as nat));
        lemma_arguments_clean(arguments, path, (upto - 1) as nat);
        lemma_argument_clean(last, taken, place);
        if taken.contains(last.name) {
            let j = choose|j: int|
                0 <= j < upto - 1 && j < arguments.len() && arguments[j].name == last.name;
            assert(arguments[j].name == arguments[upto - 1].name);
        } else {
            assert forall|i: int| 0 <= i < upto - 1 implies (#[trigger] arguments[i]).name
                != arguments[upto - 1].name by {
                if arguments[i].name == last.name {
                    assert(taken.contains(last.name));
                }
            }
        }
    }
}

/// A command brings no diagnostic exactly when it is in order and its name is free.
pub proof fn lemma_command_clean(command: CommandModel, taken: Set<Seq<char>>, path: Seq<Step>)
    ensures
        command_diagnostics(command, taken, path).len() == 0 <==> valid_command(command)
            && !taken.contains(command.name),
    decreases command, 0nat,
{
    lemma_arguments_clean(command.arguments, path, command.arguments.len());
    lemma_commands_clean(command.subcommands, path, true, command.subcommands.len());
}

/// The first `upto` commands bring no diagnostic exactly when each is in order and no
/// two of them share a name.
pub proof fn lemma_commands_clean(
    commands: Seq<CommandModel>,
    path: Seq<Step>,
    nested: bool,
    upto: nat,
)
    requires
        upto <= commands.len(),
    ensures
        commands_diagnostics(commands, path, nested, upto).len() == 0 <==> (forall|i: int|
            0 <= i < upto ==> valid_command(#[trigger] commands[i])) && (forall|i: int, j: int|
            0 <= i < j < upto ==> (#[trigger] commands[i]).name != (#[trigger] commands[j]).name),
    decreases commands, upto,
{
    if upto > 0 {
        let last = commands[upto - 1];
        let taken = command_names(commands, upto - 1);
        let place = path.push(command_step(nested, (upto - 1) as nat));
        lemma_commands_clean(commands, path, nested, (upto - 1) as nat);
        lemma_command_clean(last, taken, place);
        if taken.contains(last.name) {
            let j = choose|j: int|
                0 <= j < upto - 1 && j < commands.len() && commands[j].name == last.name;
            assert(commands[j].name == commands[upto - 1].name);
        } else {
            assert forall|i: int| 0 <= i < upto - 1 implies (#[trigger] commands[i]).name
                != commands[upto - 1].name by {
                if commands[i].name == last.name {
                    assert(taken.contains(last.name));
                }
            }
        }
    }
}

/// A tool declaration brings no diagnostic exactly when it is in order.
pub proof fn lemma_tool_clean(tool: ToolModel)
    ensures
        tool_diagnostics(tool).len() == 0 <==> valid_tool(tool),
{
    lemma_commands_clean(tool.commands, Seq::empty(), false, tool.commands.len());
}

fn check_metadata(text: &String, segment: Segment, message: &str, found: &mut Diagnostics)
    requires
        segment@ == Step::Name || segment@ == Step::Version || segment@ == Step::Author,
        message@ == metadata_message(segment@),
    ensures
        final(found)@ == old(found)@ + metadata_finding(text@, segment@),
{
    if text.as_str().is_empty() {
        let place = Path::root().child(segment);
        assert(place@ =~= seq![segment@]);
        found.report(&place, DiagnosticKind::InvalidMetadata, String::from_str(message));
    }
    assert(found@ =~= old(found)@ + metadata_finding(text@, segment@));
}

/// Walks a tool declaration and returns every problem in it, in the order of a walk that
/// visits a node before its parts. Nothing is returned exactly when the declaration is in order.
pub fn diagnose(spec: &ToolSpec) -> (found: Diagnostics)
    ensures
        found@ == tool_diagnostics(spec@),
        found@.len() == 0 <==> valid_tool(spec@),
{
    let mut found = Diagnostics::new();
    check_metadata(&spec.name, Segment::Name, "tool name must not be empty", &mut found);
    check_metadata(&spec.version, Segment::Version, "tool version must not be empty", &mut found);
    check_metadata(&spec.author, Segment::Author, "tool author must not be empty", &mut found);
    let root = Path::root();
    let of_commands = validate_commands(&spec.commands, &root, false);
    found.absorb(of_commands);
    proof {
        assert(found@ =~= tool_diagnostics(spec@));
        lemma_tool_clean(spec@);
    }
    found
}

fn assemble_argument(argument: &ArgumentSpec) -> (compiled: CompiledArgument)
    requires
        valid_argument(argument@),
    ensures
        compiled@ == compiled_argument(argument@),
{
    let rule = match resolve(argument.type_tag.as_str()) {
        Ok(rule) => rule,
        Err(_) => unreached(),
    };
    CompiledArgument {
        name: argument.name.clone(),
        description: argument.description.clone(),
        rule,
        required: argument.required,
    }
}

fn assemble_arguments(arguments: &Vec<ArgumentSpec>) -> (compiled: Vec<CompiledArgument>)
    requires
        forall|i: int|
            0 <= i < arguments.len() ==> valid_argument(#[trigger] argument_models(arguments@)[i]),
    ensures
        compiled_argument_models(compiled@) == compiled_arguments(argument_models(arguments@)),
{
    let mut compiled: Vec<CompiledArgument> = Vec::new();
    let mut i: usize = 0;
    while i < arguments.len()
        invariant
            i <= arguments.len(),
            compiled.len() == i,
            forall|j: int|
                0 <= j < arguments.len() ==> valid_argument(
                    #[trigger] argument_models(arguments@)[j],
                ),
            forall|j: int| 0 <= j < i ==> (#[trigger] compiled[j])@ == compiled_argument(arguments[j]@),
        decreases arguments.len() - i,
    {
        assert(argument_models(arguments@)[i as int] == arguments[i as int]@);
        let one = assemble_argument(&arguments[i]);
        compiled.push(one);
        i = i + 1;
    }
    assert(compiled_argument_models(compiled@) =~= compiled_arguments(
        argument_models(arguments@),
    ));
    compiled
}

fn assemble_command(command: &CommandSpec) -> (compiled: CompiledCommand)
    requires
        valid_command(command@),
    ensures
        compiled@ == compiled_command(command@),
    decreases command, 0nat,
{
    proof {
        lemma_command_model_unfold(*command);
    }
    let arguments = assemble_arguments(&command.arguments);
    let subcommands = assemble_commands(&command.subcommands);
    let compiled = CompiledCommand {
        name: command.name.clone(),
        description: command.description.clone(),
        arguments,
        subcommands,
    };
    proof {
        lemma_compiled_command_model_unfold(compiled);
        lemma_compiled_command_unfold(command@);
    }
    compiled
}

fn assemble_commands(commands: &Vec<CommandSpec>) -> (compiled: Vec<CompiledCommand>)
    requires
        forall|i: int|
            0 <= i < commands.len() ==> valid_command(#[trigger] command_models(commands@)[i]),
    ensures
        compiled_command_models(compiled@) == compiled_commands(command_models(commands@)),
    decreases commands, 1nat,
{
    let mut compiled: Vec<CompiledCommand> = Vec::new();
    let mut i: usize = 0;
    while i < commands.len()
        invariant
            i <= commands.len(),
            compiled.len() == i,
            forall|j: int|
                0 <= j < commands.len() ==> valid_command(#[trigger] command_models(commands@)[j]),
            forall|j: int| 0 <= j < i ==> (#[trigger] compiled[j])@ == compiled_command(commands[j]@),
        decreases commands.len() - i,
    {
        assert(command_models(commands@)[i as int] == commands[i as int]@);
        let one = assemble_command(&commands[i]);
        compiled.push(one);
        i = i + 1;
    }
    assert(compiled_command_models(compiled@) =~= compiled_commands(command_models(commands@)));
    compiled
}

/// Compiles a tool declaration. A declaration that is in order yields its command tree,
/// with every type tag resolved; any other yields all of its diagnostics, and no tree.
pub fn compile(spec: &ToolSpec) -> (result: Result<CommandTree, CompilationFailed>)
    ensures
        compiles_to(spec@, result),
        result is Ok <==> valid_tool(spec@),
        result matches Ok(tree) ==> well_formed_tree(tree@),
{
    let found = diagnose(spec);
    if found.is_empty() {
        proof {
            lemma_compiled_tree_well_formed(spec@);
        }
        let commands = assemble_commands(&spec.commands);
        Ok(
            CommandTree {
                name: spec.name.clone(),
                version: spec.version.clone(),
                author: spec.author.clone(),
                commands,
            },
        )
    } else {
        Err(CompilationFailed { diagnostics: found.into_vec() })
    }
}

} // verus!
