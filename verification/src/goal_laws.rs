//! What the commands of goal mode mean.
use crate::goal::{last_budget, objective_words};
use crate::text::parsed_unsigned;
use vstd::prelude::*;

verus! {

/// Words none of which announces a budget.
pub open spec fn name_no_budget(ws: Seq<Seq<char>>) -> bool {
    forall|i: int| 0 <= i < ws.len() ==> #[trigger] ws[i] != "--budget"@
}

/// The objective is made of all words but those of the budget, in their order.
pub proof fn lemma_objective_keeps_its_words(
    before: Seq<Seq<char>>,
    budget: Seq<char>,
    after: Seq<Seq<char>>,
)
    requires
        name_no_budget(before),
    ensures
        objective_words(before) == before,
        objective_words(before + seq!["--budget"@, budget] + after) == before + objective_words(
            after,
        ),
    decreases before.len(),
{
    let all = before + seq!["--budget"@, budget] + after;
    if before.len() == 0 {
        assert(all.skip(2) =~= after);
        assert(before + objective_words(after) =~= objective_words(after));
        assert(before =~= Seq::empty());
    } else {
        let rest = before.skip(1);
        assert(before[0] != "--budget"@);
        assert forall|i: int| 0 <= i < rest.len() implies #[trigger] rest[i] != "--budget"@ by {
            assert(rest[i] == before[i + 1]);
        }
        lemma_objective_keeps_its_words(rest, budget, after);
        assert(all.skip(1) =~= rest + seq!["--budget"@, budget] + after);
        assert(seq![before[0]] + rest =~= before);
        assert(seq![before[0]] + (rest + objective_words(after)) =~= before + objective_words(
            after,
        ));
    }
}

/// The budget is the last number that is announced as one; where none is, there is no budget.
pub proof fn lemma_last_budget_counts(
    before: Seq<Seq<char>>,
    budget: Seq<char>,
    after: Seq<Seq<char>>,
    found: Option<nat>,
)
    requires
        name_no_budget(before),
    ensures
        last_budget(before, found) == found,
        last_budget(before + seq!["--budget"@, budget] + after, found) == last_budget(
            after,
            match parsed_unsigned(budget, u64::MAX as nat) {
                Some(n) => Some(n),
                None => found,
            },
        ),
    decreases before.len(),
{
    let all = before + seq!["--budget"@, budget] + after;
    if before.len() == 0 {
        assert(all.skip(2) =~= after);
    } else {
        let rest = before.skip(1);
        assert(before[0] != "--budget"@);
        assert forall|i: int| 0 <= i < rest.len() implies #[trigger] rest[i] != "--budget"@ by {
            assert(rest[i] == before[i + 1]);
        }
        lemma_last_budget_counts(rest, budget, after, found);
        assert(all.skip(1) =~= rest + seq!["--budget"@, budget] + after);
    }
}

} // verus!
