use crate::diagnostic::DiagnosticKind;
use crate::diagnostic::DiagnosticModel;
use crate::order::comes_before;
use crate::order::in_walk_order;
use crate::order::lemma_concat_order;
use crate::order::lemma_path_before_irreflexive;
use crate::order::lemma_prefixed_concat;
use crate::order::lemma_prefixed_order;
use crate::order::path_before;
use crate::order::prefixed;
use crate::order::step_index;
use crate::path::Step;
use crate::registry::resolve_spec;
use crate::schema::ArgumentModel;
use crate::schema::CommandModel;
use crate::schema::ToolModel;
use crate::validate::argument_diagnostics;
use crate::validate::argument_names;
use crate::validate::arguments_diagnostics;
use crate::validate::command_diagnostics;
use crate::validate::command_names;
use crate::validate::command_step;
use crate::validate::commands_diagnostics;
use crate::validate::description_finding;
use crate::validate::name_finding;
use crate::validate::name_refused;
use crate::validate::type_finding;
use vstd::prelude::*;

verus! {

/// Whether the argument with this index fails the check that `kind` stands for.
pub open spec fn argument_violates(
    arguments: Seq<ArgumentModel>,
    index: int,
    kind: DiagnosticKind,
) -> bool {
    let argument = arguments[index];
    match kind {
        DiagnosticKind::DuplicateArgument => name_refused(
            argument.name,
            argument_names(arguments, index),
        ),
        DiagnosticKind::EmptyDescription => argument.description.len() == 0,
        DiagnosticKind::UnknownType => resolve_spec(argument.type_tag) is None,
        _ => false,
    }
}

/// Whether the node that `rest` leads to from the command with this index among
/// `siblings` fails the check that `kind` stands for. A command's name is held against
/// the names of the siblings before it, an argument's against the arguments before it.
pub open spec fn command_violates(
    siblings: Seq<CommandModel>,
    index: int,
    rest: Seq<Step>,
    kind: DiagnosticKind,
) -> bool
    decreases rest.len(),
{
    let command = siblings[index];
    if rest.len() == 0 {
        match kind {
            DiagnosticKind::DuplicateCommand => name_refused(
                command.name,
                command_names(siblings, index),
            ),
            DiagnosticKind::EmptyDescription => command.description.len() == 0,
            _ => false,
        }
    } else {
        match rest[0] {
            Step::Arguments(a) => rest.len() == 1 && a < command.arguments.len()
                && argument_violates(command.arguments, a as int, kind),
            Step::Subcommands(s) => s < command.subcommands.len() && command_violates(
                command.subcommands,
                s as int,
                rest.drop_first(),
                kind,
            ),
            _ => false,
        }
    }
}

/// Whether the node of the tool declaration at `path` fails the check that `kind` stands for.
pub open spec fn tool_violates(tool: ToolModel, path: Seq<Step>, kind: DiagnosticKind) -> bool {
    if path.len() == 0 {
        false
    } else {
        match path[0] {
            Step::Name => path.len() == 1 && kind == DiagnosticKind::InvalidMetadata
                && tool.name.len() == 0,
            Step::Version => path.len() == 1 && kind == DiagnosticKind::InvalidMetadata
                && tool.version.len() == 0,
            Step::Author => path.len() == 1 && kind == DiagnosticKind::InvalidMetadata
                && tool.author.len() == 0,
            Step::Commands(i) => i < tool.commands.len() && command_violates(
                tool.commands,
                i as int,
                path.drop_first(),
                kind,
            ),
            _ => false,
        }
    }
}

/// Whether the list holds a diagnostic of `kind` at `path`.
pub open spec fn reported(items: Seq<DiagnosticModel>, path: Seq<Step>, kind: DiagnosticKind) -> bool {
    exists|k: int| 0 <= k < items.len() && (#[trigger] items[k]).path == path && items[k].kind == kind
}

proof fn lemma_reported_at(
    items: Seq<DiagnosticModel>,
    k: int,
    path: Seq<Step>,
    kind: DiagnosticKind,
)
    requires
        0 <= k < items.len(),
        items[k].path == path,
        items[k].kind == kind,
    ensures
        reported(items, path, kind),
{
}

proof fn lemma_reported_left(
    first: Seq<DiagnosticModel>,
    second: Seq<DiagnosticModel>,
    path: Seq<Step>,
    kind: DiagnosticKind,
)
    requires
        reported(first, path, kind),
    ensures
        reported(first + second, path, kind),
{
    let k = choose|k: int| 0 <= k < first.len() && (#[trigger] first[k]).path == path && first[k].kind == kind;
    lemma_reported_at(first + second, k, path, kind);
}

proof fn lemma_reported_right(
    first: Seq<DiagnosticModel>,
    second: Seq<DiagnosticModel>,
    path: Seq<Step>,
    kind: DiagnosticKind,
)
    requires
        reported(second, path, kind),
    ensures
        reported(first + second, path, kind),
{
    let k = choose|k: int| 0 <= k < second.len() && (#[trigger] second[k]).path == path && second[k].kind == kind;
    lemma_reported_at(first + second, first.len() + k, path, kind);
}

proof fn lemma_reported_prefixed(
    prefix: Seq<Step>,
    items: Seq<DiagnosticModel>,
    path: Seq<Step>,
    kind: DiagnosticKind,
)
    requires
        reported(items, path, kind),
    ensures
        reported(prefixed(prefix, items), prefix + path, kind),
{
    let k = choose|k: int| 0 <= k < items.len() && (#[trigger] items[k]).path == path && items[k].kind == kind;
    lemma_reported_at(prefixed(prefix, items), k, prefix + path, kind);
}

/// What the checks of one argument bring, seen one diagnostic at a time.
proof fn lemma_argument_findings(arguments: Seq<ArgumentModel>, index: int, path: Seq<Step>)
    requires
        0 <= index < arguments.len(),
    ensures
        ({
            let own = argument_diagnostics(
                arguments[index],
                argument_names(arguments, index),
                path,
            );
            &&& forall|k: int|
                0 <= k < own.len() ==> (#[trigger] own[k]).path == path && argument_violates(
                    arguments,
                    index,
                    own[k].kind,
                )
            &&& forall|kind: DiagnosticKind|
                argument_violates(arguments, index, kind) ==> #[trigger] reported(own, path, kind)
            &&& in_walk_order(own)
        }),
{
    let argument = arguments[index];
    let taken = argument_names(arguments, index);
    let of_name = name_finding(argument.name, taken, path, DiagnosticKind::DuplicateArgument);
    let of_description = description_finding(argument.description, path);
    let of_type = type_finding(argument.type_tag, path);
    let own = argument_diagnostics(argument, taken, path);
    assert(own == of_name + of_description + of_type);
    assert forall|kind: DiagnosticKind| argument_violates(arguments, index, kind) implies #[trigger] reported(
        own,
        path,
        kind,
    ) by {
        if kind == DiagnosticKind::DuplicateArgument {
            lemma_reported_at(own, 0, path, kind);
        } else if kind == DiagnosticKind::EmptyDescription {
            lemma_reported_at(own, of_name.len() as int, path, kind);
        } else {
            lemma_reported_at(own, (of_name.len() + of_description.len()) as int, path, kind);
        }
    }
    lemma_path_before_irreflexive(path);
}

/// What the checks of a command's own name and description bring, seen one diagnostic at a time.
proof fn lemma_command_findings(siblings: Seq<CommandModel>, index: int, path: Seq<Step>)
    requires
        0 <= index < siblings.len(),
    ensures
        ({
            let command = siblings[index];
            let own = name_finding(
                command.name,
                command_names(siblings, index),
                path,
                DiagnosticKind::DuplicateCommand,
            ) + description_finding(command.description, path);
            &&& forall|k: int|
                0 <= k < own.len() ==> (#[trigger] own[k]).path == path && command_violates(
                    siblings,
                    index,
                    Seq::empty(),
                    own[k].kind,
                )
            &&& forall|kind: DiagnosticKind|
                command_violates(siblings, index, Seq::empty(), kind) ==> #[trigger] reported(
                    own,
                    path,
                    kind,
                )
            &&& in_walk_order(own)
        }),
{
    let command = siblings[index];
    let of_name = name_finding(
        command.name,
        command_names(siblings, index),
        path,
        DiagnosticKind::DuplicateCommand,
    );
    let of_description = description_finding(command.description, path);
    let own = of_name + of_description;
    assert forall|kind: DiagnosticKind|
        command_violates(siblings, index, Seq::empty(), kind) implies #[trigger] reported(
        own,
        path,
        kind,
    ) by {
        if kind == DiagnosticKind::DuplicateCommand {
            lemma_reported_at(own, 0, path, kind);
        } else {
            lemma_reported_at(own, of_name.len() as int, path, kind);
        }
    }
    lemma_path_before_irreflexive(path);
}

/// The diagnostics of arguments below `outer + inner` are those below `inner`, with
/// `outer` put before each path.
pub proof fn lemma_shift_arguments(
    arguments: Seq<ArgumentModel>,
    outer: Seq<Step>,
    inner: Seq<Step>,
    upto: nat,
)
    ensures
        arguments_diagnostics(arguments, outer + inner, upto) == prefixed(
            outer,
            arguments_diagnostics(arguments, inner, upto),
        ),
    decreases upto,
{
    if upto == 0 || upto > arguments.len() {
        assert(arguments_diagnostics(arguments, outer + inner, upto) =~= prefixed(
            outer,
            arguments_diagnostics(arguments, inner, upto),
        ));
    } else {
        let last = (upto - 1) as nat;
        let step = Step::Arguments(last);
        lemma_shift_arguments(arguments, outer, inner, last);
        assert((outer + inner).push(step) =~= outer + inner.push(step));
        let taken = argument_names(arguments, upto - 1);
        let own = argument_diagnostics(arguments[upto - 1], taken, inner.push(step));
        assert(argument_diagnostics(arguments[upto - 1], taken, outer + inner.push(step))
            =~= prefixed(outer, own));
        lemma_prefixed_concat(outer, arguments_diagnostics(arguments, inner, last), own);
    }
}

/// The diagnostics of a command at `outer + inner` are those of the command at `inner`,
/// with `outer` put before each path.
pub proof fn lemma_shift_command(
    command: CommandModel,
    taken: Set<Seq<char>>,
    outer: Seq<Step>,
    inner: Seq<Step>,
)
    ensures
        command_diagnostics(command, taken, outer + inner) == prefixed(
            outer,
            command_diagnostics(command, taken, inner),
        ),
    decreases command, 0nat,
{
    lemma_shift_arguments(command.arguments, outer, inner, command.arguments.len());
    lemma_shift_commands(command.subcommands, outer, inner, true, command.subcommands.len());
    let own = name_finding(command.name, taken, inner, DiagnosticKind::DuplicateCommand)
        + description_finding(command.description, inner);
    let own_shifted = name_finding(
        command.name,
        taken,
        outer + inner,
        DiagnosticKind::DuplicateCommand,
    ) + description_finding(command.description, outer + inner);
    assert(own_shifted =~= prefixed(outer, own));
    let of_arguments = arguments_diagnostics(command.arguments, inner, command.arguments.len());
    let of_nested = commands_diagnostics(
        command.subcommands,
        inner,
        true,
        command.subcommands.len(),
    );
    lemma_prefixed_concat(outer, own, of_arguments);
    lemma_prefixed_concat(outer, own + of_arguments, of_nested);
}

/// The diagnostics of commands below `outer + inner` are those below `inner`, with
/// `outer` put before each path.
pub proof fn lemma_shift_commands(
    commands: Seq<CommandModel>,
    outer: Seq<Step>,
    inner: Seq<Step>,
    nested: bool,
    upto: nat,
)
    ensures
        commands_diagnostics(commands, outer + inner, nested, upto) == prefixed(
            outer,
            commands_diagnostics(commands, inner, nested, upto),
        ),
    decreases commands, upto,
{
    if upto == 0 || upto > commands.len() {
        assert(commands_diagnostics(commands, outer + inner, nested, upto) =~= prefixed(
            outer,
            commands_diagnostics(commands, inner, nested, upto),
        ));
    } else {
        let last = (upto - 1) as nat;
        let step = command_step(nested, last);
        lemma_shift_commands(commands, outer, inner, nested, last);
        assert((outer + inner).push(step) =~= outer + inner.push(step));
        let taken = command_names(commands, upto - 1);
        lemma_shift_command(commands[upto - 1], taken, outer, inner.push(step));
        lemma_prefixed_concat(
            outer,
            commands_diagnostics(commands, inner, nested, last),
            command_diagnostics(commands[upto - 1], taken, inner.push(step)),
        );
    }
}

/// Each of the diagnostics `items` of the first `upto` arguments of a command, with
/// paths that start at the command, stands at one of these arguments for a check that it fails.
pub open spec fn arguments_sound(
    arguments: Seq<ArgumentModel>,
    upto: nat,
    items: Seq<DiagnosticModel>,
) -> bool {
    forall|k: int|
        0 <= k < items.len() ==> {
            let path = (#[trigger] items[k]).path;
            &&& path.len() == 1
            &&& path[0] == Step::Arguments(step_index(path[0]))
            &&& step_index(path[0]) < upto
            &&& argument_violates(arguments, step_index(path[0]) as int, items[k].kind)
        }
}

/// Each check that one of the first `upto` arguments of a command fails is in `items`.
pub open spec fn arguments_complete(
    arguments: Seq<ArgumentModel>,
    upto: nat,
    items: Seq<DiagnosticModel>,
) -> bool {
    forall|a: int, kind: DiagnosticKind|
        0 <= a < upto && #[trigger] argument_violates(arguments, a, kind) ==> reported(
            items,
            seq![Step::Arguments(a as nat)],
            kind,
        )
}

/// What holds of the diagnostics `items` of the first `upto` arguments of a command,
/// with paths that start at the command.
pub open spec fn arguments_walked(
    arguments: Seq<ArgumentModel>,
    upto: nat,
    items: Seq<DiagnosticModel>,
) -> bool {
    &&& arguments_sound(arguments, upto, items)
    &&& arguments_complete(arguments, upto, items)
    &&& in_walk_order(items)
}

/// Each of the diagnostics `items` of one command and all below it, with paths that
/// start at the command, stands for a check that fails at its place.
pub open spec fn command_sound(
    siblings: Seq<CommandModel>,
    index: int,
    items: Seq<DiagnosticModel>,
) -> bool {
    forall|k: int|
        0 <= k < items.len() ==> command_violates(
            siblings,
            index,
            (#[trigger] items[k]).path,
            items[k].kind,
        )
}

/// Each check that fails at a command or below it is in `items`.
pub open spec fn command_complete(
    siblings: Seq<CommandModel>,
    index: int,
    items: Seq<DiagnosticModel>,
) -> bool {
    forall|rest: Seq<Step>, kind: DiagnosticKind| #[trigger]
        command_violates(siblings, index, rest, kind) ==> reported(items, rest, kind)
}

/// What holds of the diagnostics `items` of one command and all below it, with paths
/// that start at the command.
pub open spec fn command_walked(
    siblings: Seq<CommandModel>,
    index: int,
    items: Seq<DiagnosticModel>,
) -> bool {
    &&& command_sound(siblings, index, items)
    &&& command_complete(siblings, index, items)
    &&& in_walk_order(items)
}

/// Each of the diagnostics `items` of the first `upto` commands of a node, with paths
/// that start at the node, stands below one of these commands for a check that fails there.
pub open spec fn commands_sound(
    commands: Seq<CommandModel>,
    nested: bool,
    upto: nat,
    items: Seq<DiagnosticModel>,
) -> bool {
    forall|k: int|
        0 <= k < items.len() ==> {
            let path = (#[trigger] items[k]).path;
            &&& path.len() >= 1
            &&& path[0] == command_step(nested, step_index(path[0]))
            &&& step_index(path[0]) < upto
            &&& command_violates(
                commands,
                step_index(path[0]) as int,
                path.drop_first(),
                items[k].kind,
            )
        }
}

/// Each check that fails below one of the first `upto` commands of a node is in `items`.
pub open spec fn commands_complete(
    commands: Seq<CommandModel>,
    nested: bool,
    upto: nat,
    items: Seq<DiagnosticModel>,
) -> bool {
    forall|i: int, rest: Seq<Step>, kind: DiagnosticKind|
        0 <= i < upto && #[trigger] command_violates(commands, i, rest, kind) ==> reported(
            items,
            seq![command_step(nested, i as nat)] + rest,
            kind,
        )
}

/// What holds of the diagnostics `items` of the first `upto` commands of a node, with
/// paths that start at the node.
pub open spec fn commands_walked(
    commands: Seq<CommandModel>,
    nested: bool,
    upto: nat,
    items: Seq<DiagnosticModel>,
) -> bool {
    &&& commands_sound(commands, nested, upto, items)
    &&& commands_complete(commands, nested, upto, items)
    &&& in_walk_order(items)
}

proof fn lemma_commands_sound_step(
    commands: Seq<CommandModel>,
    nested: bool,
    last: nat,
    before: Seq<DiagnosticModel>,
    inner: Seq<DiagnosticModel>,
)
    requires
        last < commands.len(),
        commands_sound(commands, nested, last, before),
        command_sound(commands, last as int, inner),
    ensures
        commands_sound(
            commands,
            nested,
            last + 1,
            before + prefixed(seq![command_step(nested, last)], inner),
        ),
{
    let step = command_step(nested, last);
    let own = prefixed(seq![step], inner);
    let all = before + own;
    assert forall|k: int| 0 <= k < all.len() implies {
        let path = (#[trigger] all[k]).path;
        &&& path.len() >= 1
        &&& path[0] == command_step(nested, step_index(path[0]))
        &&& step_index(path[0]) < last + 1
        &&& command_violates(commands, step_index(path[0]) as int, path.drop_first(), all[k].kind)
    } by {
        if k < before.len() {
            assert(all[k] == before[k]);
        } else {
            let at = k - before.len();
            assert(all[k] == own[at]);
            assert(own[at].path == seq![step] + inner[at].path);
            assert(own[at].path.drop_first() =~= inner[at].path);
            assert(command_violates(commands, last as int, inner[at].path, inner[at].kind));
        }
    }
}

proof fn lemma_commands_complete_step(
    commands: Seq<CommandModel>,
    nested: bool,
    last: nat,
    before: Seq<DiagnosticModel>,
    inner: Seq<DiagnosticModel>,
)
    requires
        last < commands.len(),
        commands_complete(commands, nested, last, before),
        command_complete(commands, last as int, inner),
    ensures
        commands_complete(
            commands,
            nested,
            last + 1,
            before + prefixed(seq![command_step(nested, last)], inner),
        ),
{
    let step = command_step(nested, last);
    let own = prefixed(seq![step], inner);
    let all = before + own;
    assert forall|i: int, rest: Seq<Step>, kind: DiagnosticKind|
        0 <= i < last + 1 && #[trigger] command_violates(commands, i, rest, kind) implies reported(
        all,
        seq![command_step(nested, i as nat)] + rest,
        kind,
    ) by {
        if i < last {
            lemma_reported_left(before, own, seq![command_step(nested, i as nat)] + rest, kind);
        } else {
            assert(reported(inner, rest, kind));
            lemma_reported_prefixed(seq![step], inner, rest, kind);
            lemma_reported_right(before, own, seq![step] + rest, kind);
        }
    }
}

proof fn lemma_commands_order_step(
    nested: bool,
    last: nat,
    before: Seq<DiagnosticModel>,
    inner: Seq<DiagnosticModel>,
)
    requires
        forall|k: int|
            0 <= k < before.len() ==> {
                let path = (#[trigger] before[k]).path;
                &&& path.len() >= 1
                &&& path[0] == command_step(nested, step_index(path[0]))
                &&& step_index(path[0]) < last
            },
        in_walk_order(before),
        in_walk_order(inner),
    ensures
        in_walk_order(before + prefixed(seq![command_step(nested, last)], inner)),
{
    let step = command_step(nested, last);
    let own = prefixed(seq![step], inner);
    lemma_prefixed_order(seq![step], inner);
    assert forall|k: int, l: int| 0 <= k < before.len() && 0 <= l < own.len() implies comes_before(
        #[trigger] before[k],
        #[trigger] own[l],
    ) by {
        let source = before[k].path;
        let target = own[l].path;
        assert(target == seq![step] + inner[l].path);
        assert(target[0] == step);
        assert(source[0] != target[0]);
        assert(path_before(source, target));
    }
    lemma_concat_order(before, own);
}

proof fn lemma_arguments_sound_step(
    arguments: Seq<ArgumentModel>,
    last: nat,
    before: Seq<DiagnosticModel>,
    own: Seq<DiagnosticModel>,
)
    requires
        last < arguments.len(),
        arguments_sound(arguments, last, before),
        forall|k: int|
            0 <= k < own.len() ==> (#[trigger] own[k]).path == seq![Step::Arguments(last)]
                && argument_violates(arguments, last as int, own[k].kind),
    ensures
        arguments_sound(arguments, last + 1, before + own),
{
    let all = before + own;
    assert forall|k: int| 0 <= k < all.len() implies {
        let path = (#[trigger] all[k]).path;
        &&& path.len() == 1
        &&& path[0] == Step::Arguments(step_index(path[0]))
        &&& step_index(path[0]) < last + 1
        &&& argument_violates(arguments, step_index(path[0]) as int, all[k].kind)
    } by {
        if k < before.len() {
            assert(all[k] == before[k]);
        } else {
            assert(all[k] == own[k - before.len()]);
        }
    }
}

proof fn lemma_arguments_complete_step(
    arguments: Seq<ArgumentModel>,
    last: nat,
    before: Seq<DiagnosticModel>,
    own: Seq<DiagnosticModel>,
)
    requires
        last < arguments.len(),
        arguments_complete(arguments, last, before),
        forall|kind: DiagnosticKind|
            argument_violates(arguments, last as int, kind) ==> #[trigger] reported(
                own,
                seq![Step::Arguments(last)],
                kind,
            ),
    ensures
        arguments_complete(arguments, last + 1, before + own),
{
    let all = before + own;
    assert forall|a: int, kind: DiagnosticKind|
        0 <= a < last + 1 && #[trigger] argument_violates(arguments, a, kind) implies reported(
        all,
        seq![Step::Arguments(a as nat)],
        kind,
    ) by {
        if a < last {
            lemma_reported_left(before, own, seq![Step::Arguments(a as nat)], kind);
        } else {
            assert(reported(own, seq![Step::Arguments(last)], kind));
            lemma_reported_right(before, own, seq![Step::Arguments(last)], kind);
        }
    }
}

proof fn lemma_arguments_order_step(
    last: nat,
    before: Seq<DiagnosticModel>,
    own: Seq<DiagnosticModel>,
)
    requires
        forall|k: int|
            0 <= k < before.len() ==> {
                let path = (#[trigger] before[k]).path;
                &&& path.len() == 1
                &&& path[0] == Step::Arguments(step_index(path[0]))
                &&& step_index(path[0]) < last
            },
        forall|k: int| 0 <= k < own.len() ==> (#[trigger] own[k]).path == seq![Step::Arguments(last)],
        in_walk_order(before),
        in_walk_order(own),
    ensures
        in_walk_order(before + own),
{
    let place = seq![Step::Arguments(last)];
    assert forall|k: int, l: int| 0 <= k < before.len() && 0 <= l < own.len() implies comes_before(
        #[trigger] before[k],
        #[trigger] own[l],
    ) by {
        let path = before[k].path;
        assert(own[l].path == place);
        assert(path[0] != place[0]);
        assert(path_before(path, place));
    }
    lemma_concat_order(before, own);
}

/// The diagnostics of the first `upto` arguments of a command are the checks that these
/// arguments fail, each once, in the order of the walk.
pub proof fn lemma_arguments_walk(arguments: Seq<ArgumentModel>, upto: nat)
    requires
        upto <= arguments.len(),
    ensures
        arguments_walked(
            arguments,
            upto,
            arguments_diagnostics(arguments, Seq::empty(), upto),
        ),
    decreases upto,
{
    let empty = Seq::<Step>::empty();
    if upto > 0 {
        let last = (upto - 1) as nat;
        let step = Step::Arguments(last);
        let place = empty.push(step);
        let before = arguments_diagnostics(arguments, empty, last);
        let own = argument_diagnostics(
            arguments[last as int],
            argument_names(arguments, last as int),
            place,
        );
        lemma_arguments_walk(arguments, last);
        lemma_argument_findings(arguments, last as int, place);
        assert(place =~= seq![step]);
        lemma_arguments_sound_step(arguments, last, before, own);
        lemma_arguments_complete_step(arguments, last, before, own);
        lemma_arguments_order_step(last, before, own);
    }
}

proof fn lemma_command_sound_join(
    siblings: Seq<CommandModel>,
    index: int,
    own: Seq<DiagnosticModel>,
    of_arguments: Seq<DiagnosticModel>,
    of_nested: Seq<DiagnosticModel>,
)
    requires
        0 <= index < siblings.len(),
        forall|k: int|
            0 <= k < own.len() ==> (#[trigger] own[k]).path == Seq::<Step>::empty()
                && command_violates(siblings, index, Seq::empty(), own[k].kind),
        arguments_sound(
            siblings[index].arguments,
            siblings[index].arguments.len(),
            of_arguments,
        ),
        commands_sound(
            siblings[index].subcommands,
            true,
            siblings[index].subcommands.len(),
            of_nested,
        ),
    ensures
        command_sound(siblings, index, own + of_arguments + of_nested),
{
    let all = own + of_arguments + of_nested;
    assert forall|k: int| 0 <= k < all.len() implies command_violates(
        siblings,
        index,
        (#[trigger] all[k]).path,
        all[k].kind,
    ) by {
        if k < own.len() {
            assert(all[k] == own[k]);
        } else if k < own.len() + of_arguments.len() {
            assert(all[k] == of_arguments[k - own.len()]);
        } else {
            assert(all[k] == of_nested[k - own.len() - of_arguments.len()]);
        }
    }
}

proof fn lemma_command_complete_join(
    siblings: Seq<CommandModel>,
    index: int,
    own: Seq<DiagnosticModel>,
    of_arguments: Seq<DiagnosticModel>,
    of_nested: Seq<DiagnosticModel>,
)
    requires
        0 <= index < siblings.len(),
        forall|kind: DiagnosticKind|
            command_violates(siblings, index, Seq::empty(), kind) ==> #[trigger] reported(
                own,
                Seq::empty(),
                kind,
            ),
        arguments_complete(
            siblings[index].arguments,
            siblings[index].arguments.len(),
            of_arguments,
        ),
        commands_complete(
            siblings[index].subcommands,
            true,
            siblings[index].subcommands.len(),
            of_nested,
        ),
    ensures
        command_complete(siblings, index, own + of_arguments + of_nested),
{
    let empty = Seq::<Step>::empty();
    let command = siblings[index];
    let all = own + of_arguments + of_nested;
    assert forall|rest: Seq<Step>, kind: DiagnosticKind| #[trigger]
        command_violates(siblings, index, rest, kind) implies reported(all, rest, kind) by {
        if rest.len() == 0 {
            assert(rest =~= empty);
            assert(reported(own, empty, kind));
            lemma_reported_left(own, of_arguments, rest, kind);
            lemma_reported_left(own + of_arguments, of_nested, rest, kind);
        } else {
            match rest[0] {
                Step::Arguments(a) => {
                    assert(rest =~= seq![Step::Arguments(a)]);
                    assert(argument_violates(command.arguments, a as int, kind));
                    assert(reported(of_arguments, seq![Step::Arguments((a as int) as nat)], kind));
                    lemma_reported_right(own, of_arguments, rest, kind);
                    lemma_reported_left(own + of_arguments, of_nested, rest, kind);
                },
                Step::Subcommands(s) => {
                    assert(command_violates(command.subcommands, s as int, rest.drop_first(), kind));
                    assert(seq![command_step(true, (s as int) as nat)] + rest.drop_first() =~= rest);
                    assert(reported(of_nested, rest, kind));
                    lemma_reported_right(own + of_arguments, of_nested, rest, kind);
                },
                _ => {},
            }
        }
    }
}

proof fn lemma_command_order_join(
    own: Seq<DiagnosticModel>,
    of_arguments: Seq<DiagnosticModel>,
    of_nested: Seq<DiagnosticModel>,
)
    requires
        forall|k: int| 0 <= k < own.len() ==> (#[trigger] own[k]).path == Seq::<Step>::empty(),
        forall|k: int|
            0 <= k < of_arguments.len() ==> {
                let path = (#[trigger] of_arguments[k]).path;
                &&& path.len() == 1
                &&& path[0] == Step::Arguments(step_index(path[0]))
            },
        forall|k: int|
            0 <= k < of_nested.len() ==> {
                let path = (#[trigger] of_nested[k]).path;
                &&& path.len() >= 1
                &&& path[0] == Step::Subcommands(step_index(path[0]))
            },
        in_walk_order(own),
        in_walk_order(of_arguments),
        in_walk_order(of_nested),
    ensures
        in_walk_order(own + of_arguments + of_nested),
{
    let empty = Seq::<Step>::empty();
    assert forall|k: int, l: int| 0 <= k < own.len() && 0 <= l < of_arguments.len() implies comes_before(
        #[trigger] own[k],
        #[trigger] of_arguments[l],
    ) by {
        assert(path_before(empty, of_arguments[l].path));
    }
    lemma_concat_order(own, of_arguments);
    let upper = own + of_arguments;
    assert forall|k: int, l: int| 0 <= k < upper.len() && 0 <= l < of_nested.len() implies comes_before(
        #[trigger] upper[k],
        #[trigger] of_nested[l],
    ) by {
        let target = of_nested[l].path;
        if k < own.len() {
            assert(upper[k] == own[k]);
            assert(path_before(empty, target));
        } else {
            let source = of_arguments[k - own.len()].path;
            assert(upper[k] == of_arguments[k - own.len()]);
            assert(source[0] != target[0]);
            assert(path_before(source, target));
        }
    }
    lemma_concat_order(upper, of_nested);
}

/// The diagnostics of a command and all below it are the checks that fail there, each
/// once, in the order of the walk.
pub proof fn lemma_command_walk(siblings: Seq<CommandModel>, index: int)
    requires
        0 <= index < siblings.len(),
    ensures
        command_walked(
            siblings,
            index,
            command_diagnostics(siblings[index], command_names(siblings, index), Seq::empty()),
        ),
    decreases siblings, 0nat, 0nat,
{
    let empty = Seq::<Step>::empty();
    let command = siblings[index];
    let taken = command_names(siblings, index);
    let own = name_finding(command.name, taken, empty, DiagnosticKind::DuplicateCommand)
        + description_finding(command.description, empty);
    let of_arguments = arguments_diagnostics(command.arguments, empty, command.arguments.len());
    let of_nested = commands_diagnostics(
        command.subcommands,
        empty,
        true,
        command.subcommands.len(),
    );
    lemma_command_findings(siblings, index, empty);
    lemma_arguments_walk(command.arguments, command.arguments.len());
    lemma_commands_walk(command.subcommands, true, command.subcommands.len());
    lemma_command_sound_join(siblings, index, own, of_arguments, of_nested);
    lemma_command_complete_join(siblings, index, own, of_arguments, of_nested);
    lemma_command_order_join(own, of_arguments, of_nested);
}

/// The diagnostics of the first `upto` commands of a node are the checks that fail at
/// these commands or below them, each once, in the order of the walk.
pub proof fn lemma_commands_walk(commands: Seq<CommandModel>, nested: bool, upto: nat)
    requires
        upto <= commands.len(),
    ensures
        commands_walked(
            commands,
            nested,
            upto,
            commands_diagnostics(commands, Seq::empty(), nested, upto),
        ),
    decreases commands, 1nat, upto,
{
    let empty = Seq::<Step>::empty();
    if upto > 0 {
        let last = (upto - 1) as nat;
        let step = command_step(nested, last);
        let before = commands_diagnostics(commands, empty, nested, last);
        let taken = command_names(commands, last as int);
        let inner = command_diagnostics(commands[last as int], taken, empty);
        lemma_commands_walk(commands, nested, last);
        lemma_command_walk(commands, last as int);
        assert(empty.push(step) =~= seq![step] + empty);
        lemma_shift_command(commands[last as int], taken, seq![step], empty);
        lemma_commands_sound_step(commands, nested, last, before, inner);
        lemma_commands_complete_step(commands, nested, last, before, inner);
        lemma_commands_order_step(nested, last, before, inner);
    }
}

} // verus!
