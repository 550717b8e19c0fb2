use crate::tree::compiled_command_models;
use crate::tree::lemma_compiled_command_model_unfold;
use crate::tree::CommandTree;
use crate::tree::CompiledArgumentModel;
use crate::tree::CompiledCommand;
use crate::tree::CompiledCommandModel;
use crate::tree::TreeModel;
use clap::App;
use clap::Arg;
use clap::SubCommand;
use vstd::prelude::*;

verus! {

/// `clap::App`, the parser of one command. Nothing inside it is seen from here.
#[verifier::external_type_specification]
#[verifier::external_body]
pub struct ExApp<'help>(clap::App<'help>);

/// `clap::Arg`, the description of one argument. Nothing inside it is seen from here.
#[verifier::external_type_specification]
#[verifier::external_body]
pub struct ExArg<'help>(clap::Arg<'help>);

/// The name of an `App`: what `App::get_name` returns.
pub uninterp spec fn app_name(app: App) -> Seq<char>;

/// The version of an `App`: what `App::get_version` returns.
pub uninterp spec fn app_version(app: App) -> Option<Seq<char>>;

/// The author of an `App`: what `App::get_author` returns.
pub uninterp spec fn app_author(app: App) -> Option<Seq<char>>;

/// The short description of an `App`: what `App::get_about` returns.
pub uninterp spec fn app_about(app: App) -> Option<Seq<char>>;

/// The arguments that an `App` holds, in the order in which they came to it, each as
/// its name, its help text and whether it is required: what `App::get_arguments`
/// yields, read through `Arg::get_id`, `Arg::get_help` and `Arg::is_required_set`.
pub uninterp spec fn app_arguments(app: App) -> Seq<(Seq<char>, Option<Seq<char>>, bool)>;

/// The subcommands given to an `App`, in the order in which they were given: what
/// `App::get_subcommands` yields.
pub uninterp spec fn app_subcommands(app: App) -> Seq<App<'static>>;

/// The name of an `Arg`: what `Arg::get_id` returns.
pub uninterp spec fn arg_name(arg: Arg) -> Seq<char>;

/// The help text of an `Arg`: what `Arg::get_help` returns.
pub uninterp spec fn arg_help(arg: Arg) -> Option<Seq<char>>;

/// Whether an `Arg` is required: what `Arg::is_required_set` returns.
pub uninterp spec fn arg_required(arg: Arg) -> bool;

/// All that this library reads of an `Arg`: name, help text, whether it is required.
pub open spec fn arg_contents(arg: Arg) -> (Seq<char>, Option<Seq<char>>, bool) {
    (arg_name(arg), arg_help(arg), arg_required(arg))
}

/// The two arguments that `App::new` gives to every `App` before it returns it.
pub open spec fn own_arguments() -> Seq<(Seq<char>, Option<Seq<char>>, bool)> {
    seq![
        ("help"@, Some("Print help information"@), false),
        ("version"@, Some("Print version information"@), false),
    ]
}

/// Calls `App::new`. The new `App` has the name given, no version, author or
/// description, no subcommand, and the two arguments that clap adds itself.
#[verifier::external_body]
fn named_app<'h>(name: &str) -> (app: App<'h>)
    ensures
        app_name(app) == name@,
        app_version(app) is None,
        app_author(app) is None,
        app_about(app) is None,
        app_arguments(app) == own_arguments(),
        app_subcommands(app).len() == 0,
{
    App::new(name)
}

/// Calls `SubCommand::with_name`, which is `App::new` under another name.
#[verifier::external_body]
fn named_subcommand<'h>(name: &str) -> (app: App<'h>)
    ensures
        app_name(app) == name@,
        app_version(app) is None,
        app_author(app) is None,
        app_about(app) is None,
        app_arguments(app) == own_arguments(),
        app_subcommands(app).len() == 0,
{
    SubCommand::with_name(name)
}

/// Calls `App::version`, which sets the version and leaves the rest as it was.
#[verifier::external_body]
fn with_version<'h>(app: App<'h>, version: &'h str) -> (out: App<'h>)
    ensures
        app_version(out) == Some(version@),
        app_name(out) == app_name(app),
        app_author(out) == app_author(app),
        app_about(out) == app_about(app),
        app_arguments(out) == app_arguments(app),
        app_subcommands(out) == app_subcommands(app),
{
    app.version(version)
}

/// Calls `App::author`, which sets the author and leaves the rest as it was.
#[verifier::external_body]
fn with_author<'h>(app: App<'h>, author: &'h str) -> (out: App<'h>)
    ensures
        app_author(out) == Some(author@),
        app_name(out) == app_name(app),
        app_version(out) == app_version(app),
        app_about(out) == app_about(app),
        app_arguments(out) == app_arguments(app),
        app_subcommands(out) == app_subcommands(app),
{
    app.author(author)
}

/// Calls `App::about`, which sets the short description and leaves the rest as it was.
#[verifier::external_body]
fn with_about<'h>(app: App<'h>, about: &'h str) -> (out: App<'h>)
    ensures
        app_about(out) == Some(about@),
        app_name(out) == app_name(app),
        app_version(out) == app_version(app),
        app_author(out) == app_author(app),
        app_arguments(out) == app_arguments(app),
        app_subcommands(out) == app_subcommands(app),
{
    app.about(about)
}

/// Calls `App::arg`, which puts the argument behind those that the `App` has and
/// leaves the rest as it was. Name, help text and required flag of the argument stay.
#[verifier::external_body]
fn with_argument<'h>(app: App<'h>, arg: Arg<'h>) -> (out: App<'h>)
    ensures
        app_arguments(out) == app_arguments(app).push(arg_contents(arg)),
        app_name(out) == app_name(app),
        app_version(out) == app_version(app),
        app_author(out) == app_author(app),
        app_about(out) == app_about(app),
        app_subcommands(out) == app_subcommands(app),
{
    app.arg(arg)
}

/// Calls `App::subcommand`, which puts the subcommand, unchanged, behind those that the
/// `App` has and leaves the rest as it was.
#[verifier::external_body]
fn with_subcommand<'h>(app: App<'h>, subcommand: App<'h>) -> (out: App<'h>)
    ensures
        app_subcommands(out) == app_subcommands(app).push(subcommand),
        app_name(out) == app_name(app),
        app_version(out) == app_version(app),
        app_author(out) == app_author(app),
        app_about(out) == app_about(app),
        app_arguments(out) == app_arguments(app),
{
    app.subcommand(subcommand)
}

/// Calls `Arg::with_name`. The new `Arg` has the name given, no help text, and is not required.
#[verifier::external_body]
fn named_argument<'h>(name: &'h str) -> (arg: Arg<'h>)
    ensures
        arg_name(arg) == name@,
        arg_help(arg) is None,
        !arg_required(arg),
{
    Arg::with_name(name)
}

/// Calls `Arg::help`, which sets the help text and leaves name and required flag as they were.
#[verifier::external_body]
fn with_help<'h>(arg: Arg<'h>, help: &'h str) -> (out: Arg<'h>)
    ensures
        arg_help(out) == Some(help@),
        arg_name(out) == arg_name(arg),
        arg_required(out) == arg_required(arg),
{
    arg.help(help)
}

/// Calls `Arg::required`, which sets the required flag and leaves name and help text as they were.
#[verifier::external_body]
fn with_required<'h>(arg: Arg<'h>, required: bool) -> (out: Arg<'h>)
    ensures
        arg_required(out) == required,
        arg_name(out) == arg_name(arg),
        arg_help(out) == arg_help(arg),
{
    arg.required(required)
}

/// What the parser is told of one compiled argument: its name, its description as
/// help text, and whether it is required.
pub open spec fn argument_entry(argument: CompiledArgumentModel) -> (
    Seq<char>,
    Option<Seq<char>>,
    bool,
) {
    (argument.name, Some(argument.description), argument.required)
}

/// What the parser is told of a list of compiled arguments, in order.
pub open spec fn argument_entries(arguments: Seq<CompiledArgumentModel>) -> Seq<
    (Seq<char>, Option<Seq<char>>, bool),
> {
    Seq::new(arguments.len(), |i: int| argument_entry(arguments[i]))
}

/// Whether an `App` holds one compiled command and all below it: the command's name,
/// its description, its arguments in order behind the two of clap's own, and for each
/// nested command, in order, a subcommand that holds it.
pub open spec fn mirrors_command(app: App, command: CompiledCommandModel) -> bool
    decreases command,
{
    &&& app_name(app) == command.name
    &&& app_version(app) is None
    &&& app_author(app) is None
    &&& app_about(app) == Some(command.description)
    &&& app_arguments(app) == own_arguments() + argument_entries(command.arguments)
    &&& app_subcommands(app).len() == command.subcommands.len()
    &&& forall|i: int|
        0 <= i < command.subcommands.len() ==> mirrors_command(
            app_subcommands(app)[i],
            #[trigger] command.subcommands[i],
        )
}

/// Whether an `App` holds a compiled tree: the tool's name, version and author, no
/// argument but the two of clap's own, and for each command, in order, a subcommand
/// that holds it.
pub open spec fn mirrors_tree(app: App, tree: TreeModel) -> bool {
    &&& app_name(app) == tree.name
    &&& app_version(app) == Some(tree.version)
    &&& app_author(app) == Some(tree.author)
    &&& app_about(app) is None
    &&& app_arguments(app) == own_arguments()
    &&& app_subcommands(app).len() == tree.commands.len()
    &&& forall|i: int|
        0 <= i < tree.commands.len() ==> mirrors_command(
            app_subcommands(app)[i],
            #[trigger] tree.commands[i],
        )
}

/// Builds the parser of one compiled command and of all below it.
pub fn generate_command<'h>(command: &'h CompiledCommand) -> (app: App<'h>)
    ensures
        mirrors_command(app, command@),
    decreases command,
{
    proof {
        lemma_compiled_command_model_unfold(*command);
    }
    let mut app = named_subcommand(command.name.as_str());
    app = with_about(app, command.description.as_str());
    let mut i: usize = 0;
    while i < command.arguments.len()
        invariant
            i <= command.arguments.len(),
            app_name(app) == command.name@,
            app_version(app) is None,
            app_author(app) is None,
            app_about(app) == Some(command.description@),
            app_subcommands(app).len() == 0,
            app_arguments(app) == own_arguments() + argument_entries(
                command@.arguments,
            ).subrange(0, i as int),
            command@.arguments.len() == command.arguments.len(),
            forall|j: int|
                0 <= j < command.arguments.len() ==> (#[trigger] command@.arguments[j])
                    == command.arguments[j]@,
        decreases command.arguments.len() - i,
    {
        let argument = &command.arguments[i];
        let mut arg = named_argument(argument.name.as_str());
        arg = with_help(arg, argument.description.as_str());
        arg = with_required(arg, argument.required);
        app = with_argument(app, arg);
        proof {
            assert(command@.arguments[i as int] == argument@);
            assert(own_arguments() + argument_entries(command@.arguments).subrange(0, i + 1)
                =~= (own_arguments() + argument_entries(command@.arguments).subrange(
                0,
                i as int,
            )).push(argument_entry(argument@)));
        }
        i = i + 1;
    }
    assert(argument_entries(command@.arguments).subrange(0, i as int) =~= argument_entries(
        command@.arguments,
    ));
    let mut k: usize = 0;
    while k < command.subcommands.len()
        invariant
            k <= command.subcommands.len(),
            app_name(app) == command.name@,
            app_version(app) is None,
            app_author(app) is None,
            app_about(app) == Some(command.description@),
            app_arguments(app) == own_arguments() + argument_entries(command@.arguments),
            app_subcommands(app).len() == k,
            command@.subcommands == compiled_command_models(command.subcommands@),
            forall|j: int|
                0 <= j < k ==> mirrors_command(
                    app_subcommands(app)[j],
                    #[trigger] command@.subcommands[j],
                ),
        decreases command.subcommands.len() - k,
    {
        let ghost before = app_subcommands(app);
        let nested = generate_command(&command.subcommands[k]);
        app = with_subcommand(app, nested);
        proof {
            assert(command@.subcommands[k as int] == command.subcommands[k as int]@);
            assert forall|j: int| 0 <= j < k + 1 implies mirrors_command(
                app_subcommands(app)[j],
                #[trigger] command@.subcommands[j],
            ) by {
                if j < k {
                    assert(app_subcommands(app)[j] == before[j]);
                }
            }
        }
        k = k + 1;
    }
    app
}

/// Builds the parser of a compiled tree: the tool with its name, version and author,
/// and one subcommand for each of its commands, in order.
pub fn generate_tool<'h>(tree: &'h CommandTree) -> (app: App<'h>)
    ensures
        mirrors_tree(app, tree@),
{
    let mut app = named_app(tree.name.as_str());
    app = with_version(app, tree.version.as_str());
    app = with_author(app, tree.author.as_str());
    let mut k: usize = 0;
    while k < tree.commands.len()
        invariant
            k <= tree.commands.len(),
            app_name(app) == tree.name@,
            app_version(app) == Some(tree.version@),
            app_author(app) == Some(tree.author@),
            app_about(app) is None,
            app_arguments(app) == own_arguments(),
            app_subcommands(app).len() == k,
            forall|j: int|
                0 <= j < k ==> mirrors_command(
                    app_subcommands(app)[j],
                    #[trigger] tree@.commands[j],
                ),
        decreases tree.commands.len() - k,
    {
        let ghost before = app_subcommands(app);
        let command = generate_command(&tree.commands[k]);
        app = with_subcommand(app, command);
        proof {
            assert(tree@.commands[k as int] == tree.commands[k as int]@);
            assert forall|j: int| 0 <= j < k + 1 implies mirrors_command(
                app_subcommands(app)[j],
                #[trigger] tree@.commands[j],
            ) by {
                if j < k {
                    assert(app_subcommands(app)[j] == before[j]);
                }
            }
        }
        k = k + 1;
    }
    app
}

} // verus!
