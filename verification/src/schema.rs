use vstd::prelude::*;

verus! {

/// The declaration of one argument of a command.
#[derive(Clone, Debug)]
pub struct ArgumentSpec {
    pub name: String,
    pub description: String,
    pub type_tag: String,
    pub required: bool,
}

/// The declaration of one command, with the commands nested under it.
#[derive(Debug)]
pub struct CommandSpec {
    pub name: String,
    pub description: String,
    pub arguments: Vec<ArgumentSpec>,
    pub subcommands: Vec<CommandSpec>,
}

/// The declaration of a whole tool.
#[derive(Debug)]
pub struct ToolSpec {
    pub name: String,
    pub version: String,
    pub author: String,
    pub commands: Vec<CommandSpec>,
}

/// What an `ArgumentSpec` says, as mathematical values.
pub struct ArgumentModel {
    pub name: Seq<char>,
    pub description: Seq<char>,
    pub type_tag: Seq<char>,
    pub required: bool,
}

/// What a `CommandSpec` says, as mathematical values.
pub struct CommandModel {
    pub name: Seq<char>,
    pub description: Seq<char>,
    pub arguments: Seq<ArgumentModel>,
    pub subcommands: Seq<CommandModel>,
}

/// What a `ToolSpec` says, as mathematical values.
pub struct ToolModel {
    pub name: Seq<char>,
    pub version: Seq<char>,
    pub author: Seq<char>,
    pub commands: Seq<CommandModel>,
}

impl View for ArgumentSpec {
    type V = ArgumentModel;

    open spec fn view(&self) -> ArgumentModel {
        ArgumentModel {
            name: self.name@,
            description: self.description@,
            type_tag: self.type_tag@,
            required: self.required,
        }
    }
}

/// The models of a list of argument declarations, in order.
pub open spec fn argument_models(arguments: Seq<ArgumentSpec>) -> Seq<ArgumentModel> {
    Seq::new(arguments.len(), |i: int| arguments[i]@)
}

/// The model of one command declaration, nested commands included.
pub open spec fn command_model(command: CommandSpec) -> CommandModel
    decreases command,
{
    CommandModel {
        name: command.name@,
        description: command.description@,
        arguments: argument_models(command.arguments@),
        subcommands: Seq::new(
            command.subcommands.len() as nat,
            |i: int|
                if 0 <= i < command.subcommands.len() {
                    command_model(command.subcommands[i])
                } else {
                    arbitrary()
                },
        ),
    }
}

/// The models of a list of command declarations, in order.
pub open spec fn command_models(commands: Seq<CommandSpec>) -> Seq<CommandModel> {
    Seq::new(commands.len(), |i: int| command_model(commands[i]))
}

impl View for CommandSpec {
    type V = CommandModel;

    open spec fn view(&self) -> CommandModel {
        command_model(*self)
    }
}

impl View for ToolSpec {
    type V = ToolModel;

    open spec fn view(&self) -> ToolModel {
        ToolModel {
            name: self.name@,
            version: self.version@,
            author: self.author@,
            commands: command_models(self.commands@),
        }
    }
}

/// The nested commands of a declaration have the models that its own model lists.
pub proof fn lemma_command_model_unfold(command: CommandSpec)
    ensures
        command@.name == command.name@,
        command@.description == command.description@,
        command@.arguments == argument_models(command.arguments@),
        command@.subcommands == command_models(command.subcommands@),
{
    assert(command@.subcommands =~= command_models(command.subcommands@));
}

impl ArgumentSpec {
    /// An argument declaration; `required` is true unless `optional` is called on it.
    pub fn new(name: String, description: String, type_tag: String) -> (argument: ArgumentSpec)
        ensures
            argument@ == (ArgumentModel {
                name: name@,
                description: description@,
                type_tag: type_tag@,
                required: true,
            }),
    {
        ArgumentSpec { name, description, type_tag, required: true }
    }

    /// The same argument declaration, not required.
    pub fn optional(self) -> (argument: ArgumentSpec)
        ensures
            argument@ == (ArgumentModel { required: false, ..self@ }),
    {
        ArgumentSpec {
            name: self.name,
            description: self.description,
            type_tag: self.type_tag,
            required: false,
        }
    }
}

} // verus!
