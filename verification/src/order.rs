use crate::diagnostic::DiagnosticKind;
use crate::diagnostic::DiagnosticModel;
use crate::path::Step;
use vstd::prelude::*;

verus! {

/// The place of a kind of step among the parts of a node: name, version and author come
/// before the commands of a tool, the arguments of a command before its nested commands.
pub open spec fn step_rank(step: Step) -> int {
    match step {
        Step::Name => 0,
        Step::Version => 1,
        Step::Author => 2,
        Step::Commands(_) => 3,
        Step::Arguments(_) => 4,
        Step::Subcommands(_) => 5,
    }
}

/// The index that a step carries; 0 for the steps to name, version and author.
pub open spec fn step_index(step: Step) -> nat {
    match step {
        Step::Commands(i) => i,
        Step::Arguments(i) => i,
        Step::Subcommands(i) => i,
        _ => 0,
    }
}

/// Whether a walk takes the step `first` before the step `second` from the same node.
pub open spec fn step_before(first: Step, second: Step) -> bool {
    step_rank(first) < step_rank(second) || (step_rank(first) == step_rank(second) && step_index(
        first,
    ) < step_index(second))
}

/// Whether a walk that visits a node before its parts reaches `first` before `second`.
pub open spec fn path_before(first: Seq<Step>, second: Seq<Step>) -> bool
    decreases first.len(),
{
    if first.len() == 0 {
        second.len() > 0
    } else if second.len() == 0 {
        false
    } else if first[0] == second[0] {
        path_before(first.drop_first(), second.drop_first())
    } else {
        step_before(first[0], second[0])
    }
}

/// The place of a kind of diagnostic among the checks of one node: the name or the
/// metadata first, then the description, then the type tag.
pub open spec fn kind_rank(kind: DiagnosticKind) -> int {
    match kind {
        DiagnosticKind::InvalidMetadata => 0,
        DiagnosticKind::DuplicateCommand => 0,
        DiagnosticKind::DuplicateArgument => 0,
        DiagnosticKind::EmptyDescription => 1,
        DiagnosticKind::UnknownType => 2,
    }
}

/// Whether the walk makes the check behind `first` before the check behind `second`.
pub open spec fn comes_before(first: DiagnosticModel, second: DiagnosticModel) -> bool {
    path_before(first.path, second.path) || (first.path == second.path && kind_rank(first.kind)
        < kind_rank(second.kind))
}

/// Each diagnostic of the list comes before those behind it.
pub open spec fn in_walk_order(items: Seq<DiagnosticModel>) -> bool {
    forall|k: int, l: int| 0 <= k < l < items.len() ==> comes_before(items[k], items[l])
}

/// The diagnostics `items`, each with `prefix` put before its path.
pub open spec fn prefixed(prefix: Seq<Step>, items: Seq<DiagnosticModel>) -> Seq<DiagnosticModel> {
    Seq::new(
        items.len(),
        |k: int|
            DiagnosticModel {
                path: prefix + items[k].path,
                kind: items[k].kind,
                message: items[k].message,
            },
    )
}

/// No location comes before itself.
pub proof fn lemma_path_before_irreflexive(path: Seq<Step>)
    ensures
        !path_before(path, path),
    decreases path.len(),
{
    if path.len() > 0 {
        lemma_path_before_irreflexive(path.drop_first());
    }
}

/// A common start changes nothing in the order of two locations.
pub proof fn lemma_path_before_prefix(prefix: Seq<Step>, first: Seq<Step>, second: Seq<Step>)
    ensures
        path_before(prefix + first, prefix + second) == path_before(first, second),
    decreases prefix.len(),
{
    if prefix.len() == 0 {
        assert(prefix + first =~= first);
        assert(prefix + second =~= second);
    } else {
        assert((prefix + first).drop_first() =~= prefix.drop_first() + first);
        assert((prefix + second).drop_first() =~= prefix.drop_first() + second);
        lemma_path_before_prefix(prefix.drop_first(), first, second);
    }
}

/// The order of a walk is kept when every path gets the same start.
pub proof fn lemma_prefixed_order(prefix: Seq<Step>, items: Seq<DiagnosticModel>)
    requires
        in_walk_order(items),
    ensures
        in_walk_order(prefixed(prefix, items)),
{
    let shifted = prefixed(prefix, items);
    assert forall|k: int, l: int| 0 <= k < l < shifted.len() implies comes_before(
        shifted[k],
        shifted[l],
    ) by {
        lemma_path_before_prefix(prefix, items[k].path, items[l].path);
        assert(comes_before(items[k], items[l]));
        if items[k].path == items[l].path {
            assert(shifted[k].path == shifted[l].path);
        }
    }
}

/// Putting a start before every path goes through concatenation.
pub proof fn lemma_prefixed_concat(
    prefix: Seq<Step>,
    first: Seq<DiagnosticModel>,
    second: Seq<DiagnosticModel>,
)
    ensures
        prefixed(prefix, first + second) == prefixed(prefix, first) + prefixed(prefix, second),
{
    assert(prefixed(prefix, first + second) =~= prefixed(prefix, first) + prefixed(prefix, second));
}

/// Two lists in the order of the walk, the first wholly before the second, make one
/// list in that order.
pub proof fn lemma_concat_order(first: Seq<DiagnosticModel>, second: Seq<DiagnosticModel>)
    requires
        in_walk_order(first),
        in_walk_order(second),
        forall|k: int, l: int|
            0 <= k < first.len() && 0 <= l < second.len() ==> comes_before(
                #[trigger] first[k],
                #[trigger] second[l],
            ),
    ensures
        in_walk_order(first + second),
{
    let all = first + second;
    assert forall|k: int, l: int| 0 <= k < l < all.len() implies comes_before(all[k], all[l]) by {
        if l < first.len() {
            assert(comes_before(first[k], first[l]));
        } else if k < first.len() {
            assert(comes_before(first[k], second[l - first.len()]));
        } else {
            assert(comes_before(second[k - first.len()], second[l - first.len()]));
        }
    }
}

} // verus!
