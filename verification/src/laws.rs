use crate::compiler::compiles_to;
use crate::compiler::lemma_tool_clean;
use crate::compiler::metadata_finding;
use crate::compiler::tool_diagnostics;
use crate::compiler::CompilationFailed;
use crate::diagnostic::DiagnosticKind;
use crate::order::comes_before;
use crate::order::in_walk_order;
use crate::order::lemma_concat_order;
use crate::order::lemma_path_before_irreflexive;
use crate::order::path_before;
use crate::order::step_index;
use crate::path::Step;
use crate::schema::CommandModel;
use crate::schema::ToolModel;
use crate::schema::ToolSpec;
use crate::tree::valid_tool;
use crate::tree::CommandTree;
use crate::validate::command_names;
use crate::validate::command_step;
use crate::validate::commands_diagnostics;
use crate::validate::name_refused;
use crate::walk::command_violates;
use crate::walk::lemma_commands_walk;
use crate::walk::reported;
use crate::walk::tool_violates;
use vstd::prelude::*;

verus! {

proof fn lemma_tool_sound(tool: ToolModel)
    ensures
        forall|k: int|
            0 <= k < tool_diagnostics(tool).len() ==> tool_violates(
                tool,
                (#[trigger] tool_diagnostics(tool)[k]).path,
                tool_diagnostics(tool)[k].kind,
            ),
{
    let of_name = metadata_finding(tool.name, Step::Name);
    let of_version = metadata_finding(tool.version, Step::Version);
    let of_author = metadata_finding(tool.author, Step::Author);
    let of_commands = commands_diagnostics(
        tool.commands,
        Seq::empty(),
        false,
        tool.commands.len(),
    );
    let all = tool_diagnostics(tool);
    assert(all == of_name + of_version + of_author + of_commands);
    lemma_commands_walk(tool.commands, false, tool.commands.len());
    assert forall|k: int| 0 <= k < all.len() implies tool_violates(
        tool,
        (#[trigger] all[k]).path,
        all[k].kind,
    ) by {
        let head = of_name.len() + of_version.len() + of_author.len();
        if k < of_name.len() {
            assert(all[k] == of_name[k]);
        } else if k < of_name.len() + of_version.len() {
            assert(all[k] == of_version[k - of_name.len()]);
        } else if k < head {
            assert(all[k] == of_author[k - of_name.len() - of_version.len()]);
        } else {
            assert(all[k] == of_commands[k - head]);
        }
    }
}

proof fn lemma_tool_complete(tool: ToolModel, path: Seq<Step>, kind: DiagnosticKind)
    requires
        tool_violates(tool, path, kind),
    ensures
        reported(tool_diagnostics(tool), path, kind),
{
    let of_name = metadata_finding(tool.name, Step::Name);
    let of_version = metadata_finding(tool.version, Step::Version);
    let of_author = metadata_finding(tool.author, Step::Author);
    let of_commands = commands_diagnostics(
        tool.commands,
        Seq::empty(),
        false,
        tool.commands.len(),
    );
    let all = tool_diagnostics(tool);
    assert(all == of_name + of_version + of_author + of_commands);
    lemma_commands_walk(tool.commands, false, tool.commands.len());
    match path[0] {
        Step::Name => {
            assert(path =~= seq![Step::Name]);
            assert(all[0] == of_name[0]);
            assert(all[0].path == path && all[0].kind == kind);
        },
        Step::Version => {
            assert(path =~= seq![Step::Version]);
            let at = of_name.len() as int;
            assert(all[at] == of_version[0]);
            assert(all[at].path == path && all[at].kind == kind);
        },
        Step::Author => {
            assert(path =~= seq![Step::Author]);
            let at = (of_name.len() + of_version.len()) as int;
            assert(all[at] == of_author[0]);
            assert(all[at].path == path && all[at].kind == kind);
        },
        Step::Commands(i) => {
            assert(command_violates(tool.commands, i as int, path.drop_first(), kind));
            assert(seq![command_step(false, (i as int) as nat)] + path.drop_first() =~= path);
            assert(reported(of_commands, path, kind));
            let k = choose|k: int|
                0 <= k < of_commands.len() && (#[trigger] of_commands[k]).path == path
                    && of_commands[k].kind == kind;
            let at = of_name.len() + of_version.len() + of_author.len() + k;
            assert(all[at] == of_commands[k]);
            assert(all[at].path == path && all[at].kind == kind);
        },
        _ => {},
    }
}

proof fn lemma_tool_order(tool: ToolModel)
    ensures
        in_walk_order(tool_diagnostics(tool)),
{
    let of_name = metadata_finding(tool.name, Step::Name);
    let of_version = metadata_finding(tool.version, Step::Version);
    let of_author = metadata_finding(tool.author, Step::Author);
    let of_commands = commands_diagnostics(
        tool.commands,
        Seq::empty(),
        false,
        tool.commands.len(),
    );
    lemma_commands_walk(tool.commands, false, tool.commands.len());
    assert forall|k: int, l: int| 0 <= k < of_name.len() && 0 <= l < of_version.len() implies comes_before(
        #[trigger] of_name[k],
        #[trigger] of_version[l],
    ) by {
        assert(path_before(seq![Step::Name], seq![Step::Version]));
    }
    lemma_concat_order(of_name, of_version);
    let two = of_name + of_version;
    assert forall|k: int, l: int| 0 <= k < two.len() && 0 <= l < of_author.len() implies comes_before(
        #[trigger] two[k],
        #[trigger] of_author[l],
    ) by {
        assert(path_before(seq![Step::Name], seq![Step::Author]));
        assert(path_before(seq![Step::Version], seq![Step::Author]));
    }
    lemma_concat_order(two, of_author);
    let three = two + of_author;
    assert forall|k: int, l: int| 0 <= k < three.len() && 0 <= l < of_commands.len() implies comes_before(
        #[trigger] three[k],
        #[trigger] of_commands[l],
    ) by {
        let source = three[k].path;
        let target = of_commands[l].path;
        assert(source.len() == 1);
        assert(source[0] != target[0]);
        assert(path_before(source, target));
    }
    lemma_concat_order(three, of_commands);
}

/// Compiling is a function of the declaration: whatever two compilations of one
/// declaration return, both succeed or both fail, two trees agree in every field, and
/// two failures carry the same diagnostics in the same order.
pub proof fn law_compilation_is_repeatable(
    spec: ToolSpec,
    first: Result<CommandTree, CompilationFailed>,
    second: Result<CommandTree, CompilationFailed>,
)
    requires
        compiles_to(spec@, first),
        compiles_to(spec@, second),
    ensures
        match (first, second) {
            (Ok(one), Ok(other)) => one@ == other@,
            (Err(one), Err(other)) => one@ == other@,
            _ => false,
        },
{
}

/// Two compilations of one valid declaration yield trees that agree in every field.
pub proof fn law_valid_declaration_compiles_to_one_tree(
    spec: ToolSpec,
    first: Result<CommandTree, CompilationFailed>,
    second: Result<CommandTree, CompilationFailed>,
)
    requires
        valid_tool(spec@),
        compiles_to(spec@, first),
        compiles_to(spec@, second),
    ensures
        first is Ok,
        second is Ok,
        first->Ok_0@ == second->Ok_0@,
{
    lemma_tool_clean(spec@);
}

/// Nothing is reported that is not wrong: each diagnostic of a declaration stands at
/// a node for a check that the node fails.
pub proof fn law_every_diagnostic_is_a_failed_check(tool: ToolModel, k: int)
    requires
        0 <= k < tool_diagnostics(tool).len(),
    ensures
        tool_violates(tool, tool_diagnostics(tool)[k].path, tool_diagnostics(tool)[k].kind),
{
    lemma_tool_sound(tool);
}

/// Nothing wrong is passed over: each check that a node of a declaration fails has a
/// diagnostic of its kind at the node's path.
pub proof fn law_every_failed_check_is_reported(
    tool: ToolModel,
    path: Seq<Step>,
    kind: DiagnosticKind,
)
    requires
        tool_violates(tool, path, kind),
    ensures
        reported(tool_diagnostics(tool), path, kind),
{
    lemma_tool_complete(tool, path, kind);
}

/// The diagnostics of a declaration stand in the order of a walk that visits a node
/// before its parts: of two of them, the earlier belongs to the check that the walk makes first.
pub proof fn law_diagnostics_follow_the_walk(tool: ToolModel, k: int, l: int)
    requires
        0 <= k < l < tool_diagnostics(tool).len(),
    ensures
        comes_before(tool_diagnostics(tool)[k], tool_diagnostics(tool)[l]),
{
    lemma_tool_order(tool);
}

/// No failed check is reported twice: two diagnostics of a declaration differ in
/// their path or in their kind.
pub proof fn law_no_check_is_reported_twice(tool: ToolModel, k: int, l: int)
    requires
        0 <= k < tool_diagnostics(tool).len(),
        0 <= l < tool_diagnostics(tool).len(),
        k != l,
    ensures
        tool_diagnostics(tool)[k].path != tool_diagnostics(tool)[l].path || tool_diagnostics(
            tool,
        )[k].kind != tool_diagnostics(tool)[l].kind,
{
    lemma_tool_order(tool);
    let all = tool_diagnostics(tool);
    lemma_path_before_irreflexive(all[k].path);
    if k < l {
        assert(comes_before(all[k], all[l]));
    } else {
        assert(comes_before(all[l], all[k]));
    }
}

/// The commands among which the command at `path` stands, and its index among them;
/// nothing where `path` leads to no command.
pub open spec fn command_place(
    commands: Seq<CommandModel>,
    nested: bool,
    path: Seq<Step>,
) -> Option<(Seq<CommandModel>, int)>
    decreases path.len(),
{
    if path.len() == 0 {
        None
    } else {
        let index = step_index(path[0]);
        if path[0] != command_step(nested, index) || index >= commands.len() {
            None
        } else if path.len() == 1 {
            Some((commands, index as int))
        } else {
            command_place(commands[index as int].subcommands, true, path.drop_first())
        }
    }
}

proof fn lemma_name_check_at_place(commands: Seq<CommandModel>, nested: bool, path: Seq<Step>)
    requires
        command_place(commands, nested, path) is Some,
    ensures
        ({
            let (siblings, index) = command_place(commands, nested, path)->Some_0;
            &&& 0 <= index < siblings.len()
            &&& command_violates(
                commands,
                step_index(path[0]) as int,
                path.drop_first(),
                DiagnosticKind::DuplicateCommand,
            ) <==> name_refused(siblings[index].name, command_names(siblings, index))
        }),
    decreases path.len(),
{
    let index = step_index(path[0]);
    if path.len() > 1 {
        let rest = path.drop_first();
        lemma_name_check_at_place(commands[index as int].subcommands, true, rest);
        assert(rest[0] == Step::Subcommands(step_index(rest[0])));
    } else {
        assert(path.drop_first().len() == 0);
    }
}

/// Names are held against siblings only: a command has a diagnostic for its name
/// exactly when the name is empty or is the name of a sibling before it. What commands
/// elsewhere in the declaration are called, above or below or under another parent, plays no part.
pub proof fn law_names_clash_among_siblings_only(tool: ToolModel, path: Seq<Step>)
    requires
        command_place(tool.commands, false, path) is Some,
    ensures
        ({
            let (siblings, index) = command_place(tool.commands, false, path)->Some_0;
            &&& 0 <= index < siblings.len()
            &&& reported(tool_diagnostics(tool), path, DiagnosticKind::DuplicateCommand) <==> (
            siblings[index].name.len() == 0 || exists|j: int|
                0 <= j < index && (#[trigger] siblings[j]).name == siblings[index].name)
        }),
{
    let (siblings, index) = command_place(tool.commands, false, path)->Some_0;
    let all = tool_diagnostics(tool);
    let kind = DiagnosticKind::DuplicateCommand;
    lemma_name_check_at_place(tool.commands, false, path);
    lemma_tool_sound(tool);
    if tool_violates(tool, path, kind) {
        lemma_tool_complete(tool, path, kind);
    }
    if reported(all, path, kind) {
        let k = choose|k: int| 0 <= k < all.len() && (#[trigger] all[k]).path == path && all[k].kind == kind;
        assert(tool_violates(tool, all[k].path, all[k].kind));
    }
    let taken = command_names(siblings, index);
    if taken.contains(siblings[index].name) {
        let j = choose|j: int|
            0 <= j < index && j < siblings.len() && siblings[j].name == siblings[index].name;
        assert(siblings[j].name == siblings[index].name);
    }
}

/// The checks that the nodes of a declaration fail, each as the node's path and the
/// kind of the check.
pub open spec fn failed_checks(tool: ToolModel) -> Set<(Seq<Step>, DiagnosticKind)> {
    Set::new(|check: (Seq<Step>, DiagnosticKind)| tool_violates(tool, check.0, check.1))
}

/// A declaration has as many diagnostics as its nodes fail checks: one for each, no
/// fewer and no more.
pub proof fn law_one_diagnostic_for_each_failed_check(tool: ToolModel)
    ensures
        failed_checks(tool).finite(),
        failed_checks(tool).len() == tool_diagnostics(tool).len(),
{
    let all = tool_diagnostics(tool);
    let marks = Seq::new(all.len(), |k: int| (all[k].path, all[k].kind));
    assert forall|i: int, j: int|
        0 <= i < marks.len() && 0 <= j < marks.len() && i != j implies marks[i] != marks[j] by {
        law_no_check_is_reported_twice(tool, i, j);
    }
    marks.unique_seq_to_set();
    vstd::seq_lib::seq_to_set_is_finite(marks);
    lemma_tool_sound(tool);
    assert forall|check: (Seq<Step>, DiagnosticKind)|
        marks.to_set().contains(check) <==> failed_checks(tool).contains(check) by {
        if marks.contains(check) {
            let k = choose|k: int| 0 <= k < marks.len() && marks[k] == check;
            assert(tool_violates(tool, all[k].path, all[k].kind));
        }
        if tool_violates(tool, check.0, check.1) {
            lemma_tool_complete(tool, check.0, check.1);
            let k = choose|k: int|
                0 <= k < all.len() && (#[trigger] all[k]).path == check.0 && all[k].kind == check.1;
            assert(marks[k] == check);
        }
    }
    assert(marks.to_set() =~= failed_checks(tool));
}

} // verus!
