use crate::path::decimal;
use crate::path::digit_char;
use crate::path::path_text;
use crate::path::step_text;
use crate::path::Step;
use crate::rules::digit_value;
use crate::rules::digits_value;
use vstd::prelude::*;

verus! {

/// Whether the text holds no dot.
pub open spec fn has_no_dot(text: Seq<char>) -> bool {
    forall|i: int| 0 <= i < text.len() ==> text[i] != '.'
}

/// What a dotted path holds before the text of its last step: nothing for a single
/// step, else the steps before the last, and a dot.
pub open spec fn path_head(path: Seq<Step>) -> Seq<char> {
    if path.len() <= 1 {
        Seq::empty()
    } else {
        path_text(path.drop_last()) + "."@
    }
}

/// A number in decimal notation holds digits only, at least one, and stands for the number.
pub proof fn lemma_decimal_reads_back(n: nat)
    ensures
        decimal(n).len() > 0,
        digits_value(decimal(n)) == n,
        forall|i: int| 0 <= i < decimal(n).len() ==> digit_value(#[trigger] decimal(n)[i]) >= 0,
    decreases n,
{
    assert(digits_value(Seq::<char>::empty()) == 0);
    let last = digit_char((n % 10) as int);
    assert(digit_value(last) == n % 10);
    if n < 10 {
        assert(decimal(n).drop_last() =~= Seq::<char>::empty());
    } else {
        lemma_decimal_reads_back(n / 10);
        assert(decimal(n).drop_last() =~= decimal(n / 10));
    }
}

/// Different numbers are written differently.
pub proof fn lemma_decimal_injective(n: nat, m: nat)
    requires
        decimal(n) == decimal(m),
    ensures
        n == m,
{
    lemma_decimal_reads_back(n);
    lemma_decimal_reads_back(m);
}

proof fn lemma_between_cancels(
    before: Seq<char>,
    first: Seq<char>,
    second: Seq<char>,
    after: Seq<char>,
)
    requires
        before + first + after == before + second + after,
    ensures
        first == second,
{
    let one = before + first + after;
    let other = before + second + after;
    assert(one.len() == other.len());
    assert forall|k: int| 0 <= k < first.len() implies first[k] == second[k] by {
        assert(one[before.len() + k] == first[k]);
        assert(other[before.len() + k] == second[k]);
    }
    assert(first =~= second);
}

/// The text of a step is not empty and holds no dot.
pub proof fn lemma_step_text_shape(step: Step)
    ensures
        step_text(step).len() >= 2,
        has_no_dot(step_text(step)),
{
    reveal_strlit("name");
    reveal_strlit("version");
    reveal_strlit("author");
    reveal_strlit("commands[");
    reveal_strlit("arguments[");
    reveal_strlit("subcommands[");
    reveal_strlit("]");
    let text = step_text(step);
    match step {
        Step::Commands(i) => {
            lemma_decimal_reads_back(i);
            lemma_indexed_has_no_dot("commands["@, i);
        },
        Step::Arguments(i) => {
            lemma_decimal_reads_back(i);
            lemma_indexed_has_no_dot("arguments["@, i);
        },
        Step::Subcommands(i) => {
            lemma_decimal_reads_back(i);
            lemma_indexed_has_no_dot("subcommands["@, i);
        },
        _ => {},
    }
}

proof fn lemma_indexed_has_no_dot(keyword: Seq<char>, index: nat)
    requires
        has_no_dot(keyword),
    ensures
        has_no_dot(keyword + decimal(index) + "]"@),
{
    reveal_strlit("]");
    lemma_decimal_reads_back(index);
    let number = decimal(index);
    let text = keyword + number + "]"@;
    assert forall|i: int| 0 <= i < text.len() implies text[i] != '.' by {
        if i < keyword.len() {
            assert(text[i] == keyword[i]);
        } else if i < keyword.len() + number.len() {
            assert(text[i] == number[i - keyword.len()]);
            assert(digit_value(number[i - keyword.len()]) >= 0);
        } else {
            assert(text[i] == "]"@[i - keyword.len() - number.len()]);
        }
    }
}

/// Different steps are written differently.
pub proof fn lemma_step_text_injective(first: Step, second: Step)
    requires
        step_text(first) == step_text(second),
    ensures
        first == second,
{
    reveal_strlit("name");
    reveal_strlit("version");
    reveal_strlit("author");
    reveal_strlit("commands[");
    reveal_strlit("arguments[");
    reveal_strlit("subcommands[");
    reveal_strlit("]");
    let one = step_text(first);
    let other = step_text(second);
    assert(one[0] == other[0]);
    assert(one[1] == other[1]);
    lemma_step_text_starts(first);
    lemma_step_text_starts(second);
    match (first, second) {
        (Step::Commands(i), Step::Commands(j)) => {
            lemma_between_cancels("commands["@, decimal(i), decimal(j), "]"@);
            lemma_decimal_injective(i, j);
        },
        (Step::Arguments(i), Step::Arguments(j)) => {
            lemma_between_cancels("arguments["@, decimal(i), decimal(j), "]"@);
            lemma_decimal_injective(i, j);
        },
        (Step::Subcommands(i), Step::Subcommands(j)) => {
            lemma_between_cancels("subcommands["@, decimal(i), decimal(j), "]"@);
            lemma_decimal_injective(i, j);
        },
        _ => {},
    }
}

proof fn lemma_step_text_starts(step: Step)
    ensures
        step_text(step).len() >= 2,
        match step {
            Step::Name => step_text(step)[0] == 'n',
            Step::Version => step_text(step)[0] == 'v',
            Step::Author => step_text(step)[0] == 'a' && step_text(step)[1] == 'u',
            Step::Commands(_) => step_text(step)[0] == 'c',
            Step::Arguments(_) => step_text(step)[0] == 'a' && step_text(step)[1] == 'r',
            Step::Subcommands(_) => step_text(step)[0] == 's',
        },
{
    reveal_strlit("name");
    reveal_strlit("version");
    reveal_strlit("author");
    reveal_strlit("commands[");
    reveal_strlit("arguments[");
    reveal_strlit("subcommands[");
    reveal_strlit("]");
    match step {
        Step::Commands(i) => {
            let text = "commands["@ + decimal(i) + "]"@;
            assert(text[0] == "commands["@[0]);
        },
        Step::Arguments(i) => {
            let text = "arguments["@ + decimal(i) + "]"@;
            assert(text[0] == "arguments["@[0]);
            assert(text[1] == "arguments["@[1]);
        },
        Step::Subcommands(i) => {
            let text = "subcommands["@ + decimal(i) + "]"@;
            assert(text[0] == "subcommands["@[0]);
        },
        _ => {},
    }
}

/// A dotted path is its head and, behind it, the text of its last step.
pub proof fn lemma_path_text_split(path: Seq<Step>)
    requires
        path.len() >= 1,
    ensures
        path_text(path) == path_head(path) + step_text(path.last()),
        path.len() >= 2 ==> path_head(path).len() >= 1 && path_head(path).last() == '.',
{
    reveal_strlit(".");
    if path.len() == 1 {
        assert(path_text(path) =~= path_head(path) + step_text(path.last()));
    } else {
        assert(path_text(path) =~= path_head(path) + step_text(path.last()));
    }
}

/// Different locations are written differently: a dotted path names one location only.
pub proof fn law_dotted_path_names_one_location(first: Seq<Step>, second: Seq<Step>)
    requires
        path_text(first) == path_text(second),
    ensures
        first == second,
    decreases first.len(),
{
    reveal_strlit(".");
    if first.len() == 0 || second.len() == 0 {
        if first.len() > 0 {
            lemma_path_text_split(first);
            lemma_step_text_shape(first.last());
        }
        if second.len() > 0 {
            lemma_path_text_split(second);
            lemma_step_text_shape(second.last());
        }
        assert(first =~= second);
    } else {
        let text = path_text(first);
        let head_one = path_head(first);
        let head_other = path_head(second);
        let last_one = step_text(first.last());
        let last_other = step_text(second.last());
        lemma_path_text_split(first);
        lemma_path_text_split(second);
        lemma_step_text_shape(first.last());
        lemma_step_text_shape(second.last());
        assert(text == head_one + last_one);
        assert(text == head_other + last_other);
        assert(head_one.len() + last_one.len() == head_other.len() + last_other.len());
        if last_one.len() < last_other.len() {
            let at = head_one.len() - 1;
            assert(text[at] == head_one[at]);
            assert(text[at] == last_other[at - head_other.len()]);
            assert(false);
        }
        if last_other.len() < last_one.len() {
            let at = head_other.len() - 1;
            assert(text[at] == head_other[at]);
            assert(text[at] == last_one[at - head_one.len()]);
            assert(false);
        }
        assert forall|k: int| 0 <= k < last_one.len() implies last_one[k] == last_other[k] by {
            assert(text[head_one.len() + k] == last_one[k]);
            assert(text[head_other.len() + k] == last_other[k]);
        }
        assert(last_one =~= last_other);
        lemma_step_text_injective(first.last(), second.last());
        if first.len() >= 2 {
            let shorter_one = path_text(first.drop_last());
            let shorter_other = path_text(second.drop_last());
            assert(second.len() >= 2);
            assert forall|k: int| 0 <= k < shorter_one.len() implies shorter_one[k]
                == shorter_other[k] by {
                assert(text[k] == head_one[k]);
                assert(text[k] == head_other[k]);
            }
            assert(shorter_one =~= shorter_other);
            law_dotted_path_names_one_location(first.drop_last(), second.drop_last());
            assert(first =~= first.drop_last().push(first.last()));
            assert(second =~= second.drop_last().push(second.last()));
        } else {
            assert(second.len() == 1);
            assert(first =~= second);
        }
    }
}

} // verus!
