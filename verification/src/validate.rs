use crate::diagnostic::DiagnosticKind;
use crate::diagnostic::DiagnosticModel;
use crate::diagnostic::Diagnostics;
use crate::names::NameSet;
use crate::path::Path;
use crate::path::Segment;
use crate::path::Step;
use crate::registry::resolve;
use crate::registry::resolve_spec;
use crate::schema::argument_models;
use crate::schema::command_models;
use crate::schema::lemma_command_model_unfold;
use crate::schema::ArgumentModel;
use crate::schema::ArgumentSpec;
use crate::schema::CommandModel;
use crate::schema::CommandSpec;
use vstd::prelude::*;
use vstd::string::StringExecFns;

verus! {

/// A name is refused when it is empty or when a sibling walked earlier has taken it.
pub open spec fn name_refused(name: Seq<char>, taken: Set<Seq<char>>) -> bool {
    name.len() == 0 || taken.contains(name)
}

/// The words that go with a refused name.
pub open spec fn name_message(name: Seq<char>) -> Seq<char> {
    if name.len() == 0 {
        "name must not be empty"@
    } else {
        "name is already taken: "@ + name
    }
}

/// The words that go with an empty description.
pub open spec fn description_message() -> Seq<char> {
    "description must not be empty"@
}

/// The words that go with a type tag that the registry does not hold.
pub open spec fn type_message(tag: Seq<char>) -> Seq<char> {
    "unknown argument type: "@ + tag
}

/// What the check of a name reports: one diagnostic of `kind` if the name is refused.
pub open spec fn name_finding(
    name: Seq<char>,
    taken: Set<Seq<char>>,
    path: Seq<Step>,
    kind: DiagnosticKind,
) -> Seq<DiagnosticModel> {
    if name_refused(name, taken) {
        seq![DiagnosticModel { path: path, kind: kind, message: name_message(name) }]
    } else {
        Seq::empty()
    }
}

/// What the check of a description reports: one diagnostic if it is empty.
pub open spec fn description_finding(description: Seq<char>, path: Seq<Step>) -> Seq<
    DiagnosticModel,
> {
    if description.len() == 0 {
        seq![
            DiagnosticModel {
                path: path,
                kind: DiagnosticKind::EmptyDescription,
                message: description_message(),
            },
        ]
    } else {
        Seq::empty()
    }
}

/// What the check of a type tag reports: one diagnostic if the registry does not hold it.
pub open spec fn type_finding(tag: Seq<char>, path: Seq<Step>) -> Seq<DiagnosticModel> {
    if resolve_spec(tag) is None {
        seq![
            DiagnosticModel {
                path: path,
                kind: DiagnosticKind::UnknownType,
                message: type_message(tag),
            },
        ]
    } else {
        Seq::empty()
    }
}

/// The diagnostics of one argument at `path`, when earlier arguments took the names `taken`:
/// for its name, then its description, then its type tag.
pub open spec fn argument_diagnostics(
    argument: ArgumentModel,
    taken: Set<Seq<char>>,
    path: Seq<Step>,
) -> Seq<DiagnosticModel> {
    name_finding(argument.name, taken, path, DiagnosticKind::DuplicateArgument)
        + description_finding(argument.description, path) + type_finding(argument.type_tag, path)
}

/// The names of the first `upto` arguments.
pub open spec fn argument_names(arguments: Seq<ArgumentModel>, upto: int) -> Set<Seq<char>> {
    Set::new(
        |name: Seq<char>|
            exists|j: int| 0 <= j < upto && j < arguments.len() && arguments[j].name == name,
    )
}

/// The names of the first `upto` commands.
pub open spec fn command_names(commands: Seq<CommandModel>, upto: int) -> Set<Seq<char>> {
    Set::new(
        |name: Seq<char>|
            exists|j: int| 0 <= j < upto && j < commands.len() && commands[j].name == name,
    )
}

/// The diagnostics of the first `upto` arguments of the command at `path`, each checked
/// against the names of those before it.
pub open spec fn arguments_diagnostics(
    arguments: Seq<ArgumentModel>,
    path: Seq<Step>,
    upto: nat,
) -> Seq<DiagnosticModel>
    decreases upto,
{
    if upto == 0 || upto > arguments.len() {
        Seq::empty()
    } else {
        arguments_diagnostics(arguments, path, (upto - 1) as nat) + argument_diagnostics(
            arguments[upto - 1],
            argument_names(arguments, upto - 1),
            path.push(Step::Arguments((upto - 1) as nat)),
        )
    }
}

/// The step from a node to its command with index `index`: the tool's own commands are
/// its `commands`, those of a command its `subcommands`.
pub open spec fn command_step(nested: bool, index: nat) -> Step {
    if nested {
        Step::Subcommands(index)
    } else {
        Step::Commands(index)
    }
}

/// The diagnostics of one command at `path`, when earlier siblings took the names `taken`:
/// for its name, then its description, then its arguments in order, then the commands
/// nested under it in order. Argument names and nested names each start from an empty set.
pub open spec fn command_diagnostics(
    command: CommandModel,
    taken: Set<Seq<char>>,
    path: Seq<Step>,
) -> Seq<DiagnosticModel>
    decreases command, 0nat,
{
    name_finding(command.name, taken, path, DiagnosticKind::DuplicateCommand) + description_finding(
        command.description,
        path,
    ) + arguments_diagnostics(command.arguments, path, command.arguments.len())
        + commands_diagnostics(command.subcommands, path, true, command.subcommands.len())
}

/// The diagnostics of the first `upto` commands under the node at `path`, each checked
/// against the names of those before it.
pub open spec fn commands_diagnostics(
    commands: Seq<CommandModel>,
    path: Seq<Step>,
    nested: bool,
    upto: nat,
) -> Seq<DiagnosticModel>
    decreases commands, upto,
{
    if upto == 0 || upto > commands.len() {
        Seq::empty()
    } else {
        commands_diagnostics(commands, path, nested, (upto - 1) as nat) + command_diagnostics(
            commands[upto - 1],
            command_names(commands, upto - 1),
            path.push(command_step(nested, (upto - 1) as nat)),
        )
    }
}

proof fn lemma_argument_names_step(arguments: Seq<ArgumentModel>, upto: int)
    requires
        0 <= upto < arguments.len(),
    ensures
        argument_names(arguments, upto + 1) == argument_names(arguments, upto).insert(
            arguments[upto].name,
        ),
{
    assert(argument_names(arguments, upto + 1) =~= argument_names(arguments, upto).insert(
        arguments[upto].name,
    ));
}

proof fn lemma_command_names_step(commands: Seq<CommandModel>, upto: int)
    requires
        0 <= upto < commands.len(),
    ensures
        command_names(commands, upto + 1) == command_names(commands, upto).insert(
            commands[upto].name,
        ),
{
    assert(command_names(commands, upto + 1) =~= command_names(commands, upto).insert(
        commands[upto].name,
    ));
}

fn check_name(
    name: &String,
    taken: &NameSet,
    path: &Path,
    kind: DiagnosticKind,
    found: &mut Diagnostics,
)
    ensures
        final(found)@ == old(found)@ + name_finding(name@, taken@, path@, kind),
{
    if name.as_str().is_empty() {
        found.report(path, kind, String::from_str("name must not be empty"));
    } else if taken.contains(name) {
        let message = String::from_str("name is already taken: ").concat(name.as_str());
        found.report(path, kind, message);
    }
    assert(found@ =~= old(found)@ + name_finding(name@, taken@, path@, kind));
}

fn check_description(description: &String, path: &Path, found: &mut Diagnostics)
    ensures
        final(found)@ == old(found)@ + description_finding(description@, path@),
{
    if description.as_str().is_empty() {
        found.report(
            path,
            DiagnosticKind::EmptyDescription,
            String::from_str("description must not be empty"),
        );
    }
    assert(found@ =~= old(found)@ + description_finding(description@, path@));
}

fn check_type(tag: &String, path: &Path, found: &mut Diagnostics)
    ensures
        final(found)@ == old(found)@ + type_finding(tag@, path@),
{
    if resolve(tag.as_str()).is_err() {
        let message = String::from_str("unknown argument type: ").concat(tag.as_str());
        found.report(path, DiagnosticKind::UnknownType, message);
    }
    assert(found@ =~= old(found)@ + type_finding(tag@, path@));
}

/// Checks one argument declaration that stands at `path`, against the names that the
/// arguments before it have taken. Returns what it found; nothing means the argument is in order.
pub fn validate_argument(argument: &ArgumentSpec, sibling_names: &NameSet, path: &Path) -> (found:
    Diagnostics)
    ensures
        found@ == argument_diagnostics(argument@, sibling_names@, path@),
{
    let mut found = Diagnostics::new();
    check_name(
        &argument.name,
        sibling_names,
        path,
        DiagnosticKind::DuplicateArgument,
        &mut found,
    );
    check_description(&argument.description, path, &mut found);
    check_type(&argument.type_tag, path, &mut found);
    assert(found@ =~= argument_diagnostics(argument@, sibling_names@, path@));
    found
}

/// Checks the arguments of the command at `path`, in order, each against the names of
/// those before it.
pub fn validate_arguments(arguments: &Vec<ArgumentSpec>, path: &Path) -> (found: Diagnostics)
    ensures
        found@ == arguments_diagnostics(argument_models(arguments@), path@, arguments@.len()),
{
    let mut found = Diagnostics::new();
    let mut names = NameSet::new();
    let ghost models = argument_models(arguments@);
    let mut i: usize = 0;
    while i < arguments.len()
        invariant
            i <= arguments.len(),
            models == argument_models(arguments@),
            found@ == arguments_diagnostics(models, path@, i as nat),
            names@ == argument_names(models, i as int),
        decreases arguments.len() - i,
    {
        let place = path.child(Segment::Arguments(i));
        let more = validate_argument(&arguments[i], &names, &place);
        found.absorb(more);
        names.insert(&arguments[i].name);
        proof {
            lemma_argument_names_step(models, i as int);
        }
        i = i + 1;
    }
    found
}

/// Checks one command declaration that stands at `path`, against the names that the
/// siblings before it have taken, and everything below it. Returns what it found, in
/// the order of a walk that visits a node before its parts; nothing means the command is in order.
pub fn validate_command(command: &CommandSpec, sibling_names: &NameSet, path: &Path) -> (found:
    Diagnostics)
    ensures
        found@ == command_diagnostics(command@, sibling_names@, path@),
    decreases command, 0nat,
{
    proof {
        lemma_command_model_unfold(*command);
    }
    let mut found = Diagnostics::new();
    check_name(&command.name, sibling_names, path, DiagnosticKind::DuplicateCommand, &mut found);
    check_description(&command.description, path, &mut found);
    let of_arguments = validate_arguments(&command.arguments, path);
    found.absorb(of_arguments);
    let of_nested = validate_commands(&command.subcommands, path, true);
    found.absorb(of_nested);
    assert(found@ =~= command_diagnostics(command@, sibling_names@, path@));
    found
}

/// Checks the commands under the node at `path`, in order, each against the names of
/// those before it. `nested` says whether the node is a command or the tool itself.
pub fn validate_commands(commands: &Vec<CommandSpec>, path: &Path, nested: bool) -> (found:
    Diagnostics)
    ensures
        found@ == commands_diagnostics(command_models(commands@), path@, nested, commands@.len()),
    decreases commands, 1nat,
{
    let mut found = Diagnostics::new();
    let mut names = NameSet::new();
    let ghost models = command_models(commands@);
    let mut i: usize = 0;
    while i < commands.len()
        invariant
            i <= commands.len(),
            models == command_models(commands@),
            found@ == commands_diagnostics(models, path@, nested, i as nat),
            names@ == command_names(models, i as int),
        decreases commands.len() - i,
    {
        let segment = if nested {
            Segment::Subcommands(i)
        } else {
            Segment::Commands(i)
        };
        let place = path.child(segment);
        let more = validate_command(&commands[i], &names, &place);
        found.absorb(more);
        names.insert(&commands[i].name);
        proof {
            lemma_command_names_step(models, i as int);
        }
        i = i + 1;
    }
    found
}

} // verus!
