//! What a journal keeps of a note, and what a prompt is told of it.
use crate::project_memory::{
    all_memory_parts, batch_facts, content_lines, extracted_facts, fact_key, has_key,
    injection_tail, is_fact, journal_facts, kept_facts, memory_parts, memory_roots,
    normalized_words, prepared, split_summary, tail, Worktree, WorktreeMemory,
    JOURNAL_FACT_BATCH_MAX, JOURNAL_FACT_DEDUP_WINDOW, JOURNAL_INJECTION_MAX_LINES,
};
use crate::selection::{
    are_the_first, are_the_last, are_the_wanted, lemma_first_of_the_wanted,
    lemma_last_of_the_wanted, lemma_none_of_none, lemma_one_more,
};
use crate::spine_laws::{
    lemma_fact_line, lemma_journal_facts_are_its_fact_lines, states_a_fact, without_blanks,
};
use crate::text::{join, lines, trim};
use crate::text_laws::lemma_char_behind;
use vstd::prelude::*;

verus! {

/// Lines of text that are no headings.
pub open spec fn says_something() -> spec_fn(Seq<char>) -> bool {
    |line: Seq<char>| trim(line).len() > 0 && trim(line)[0] != '#'
}

/// Whether a prompt is told the last of these lines of a journal, 25 at most and the oldest first.
pub open spec fn tells_the_last(
    told: Seq<char>,
    journal: Seq<char>,
    wanted: spec_fn(Seq<char>) -> bool,
) -> bool {
    exists|some: Seq<Seq<char>>| #[trigger]
        are_the_last(some, lines(journal), wanted, without_blanks(), 25) && some.len() > 0 && told
            == join(some, "\n"@)
}

/// A prompt is told the latest facts of a journal; where it has none, its latest lines of text; and
/// nothing only where it holds nothing but headings.
pub proof fn lemma_prompt_is_told_the_latest(journal: Seq<char>)
    ensures
        match injection_tail(journal) {
            Some(told) => if exists|i: int|
                0 <= i < lines(journal).len() && #[trigger] states_a_fact()(lines(journal)[i]) {
                tells_the_last(told, journal, states_a_fact())
            } else {
                tells_the_last(told, journal, says_something())
            },
            None => forall|i: int|
                0 <= i < lines(journal).len() ==> !#[trigger] says_something()(lines(journal)[i]),
        },
{
    let ls = lines(journal);
    let facts = journal_facts(journal);
    let content = content_lines(ls);
    let n = JOURNAL_INJECTION_MAX_LINES as nat;
    lemma_journal_facts_are_its_fact_lines(journal);
    lemma_content_lines(ls);
    lemma_last_of_the_wanted(facts, ls, states_a_fact(), without_blanks(), n);
    lemma_last_of_the_wanted(content, ls, says_something(), without_blanks(), n);
    crate::selection::lemma_some_are_wanted(facts, ls, states_a_fact(), without_blanks());
    crate::selection::lemma_some_are_wanted(content, ls, says_something(), without_blanks());
    if facts.len() > 0 {
        let some = tail(facts, n);
        assert(are_the_last(some, ls, states_a_fact(), without_blanks(), n));
    } else if content.len() > 0 {
        let some = tail(content, n);
        assert(are_the_last(some, ls, says_something(), without_blanks(), n));
    }
}

proof fn lemma_content_lines(ls: Seq<Seq<char>>)
    ensures
        are_the_wanted(content_lines(ls), ls, says_something(), without_blanks()),
    decreases ls.len(),
{
    if ls.len() == 0 {
        lemma_none_of_none(says_something(), without_blanks());
        assert(ls =~= Seq::empty());
    } else {
        let before = ls.drop_last();
        lemma_content_lines(before);
        lemma_one_more(
            content_lines(before),
            before,
            says_something(),
            without_blanks(),
            ls.last(),
        );
        assert(before.push(ls.last()) =~= ls);
    }
}

/// The places of the lines, from front to back.
pub open spec fn places(ls: Seq<Seq<char>>) -> Seq<int> {
    Seq::new(ls.len(), |i: int| i)
}

/// Whether a line states a fact that no line in front of it states.
pub open spec fn is_first_of_its_kind(ls: Seq<Seq<char>>, i: int) -> bool {
    &&& states_a_fact()(ls[i])
    &&& forall|j: int|
        0 <= j < i && #[trigger] states_a_fact()(ls[j]) ==> fact_key(trim(ls[j])) != fact_key(
            trim(ls[i]),
        )
}

pub open spec fn new_at(ls: Seq<Seq<char>>) -> spec_fn(int) -> bool {
    |i: int| is_first_of_its_kind(ls, i)
}

pub open spec fn line_at(ls: Seq<Seq<char>>) -> spec_fn(int) -> Seq<char> {
    |i: int| trim(ls[i])
}

/// A batch holds the first eight different facts of a note, in their order: none is lost before the
/// batch is full, and of those that say the same it is the first that stays.
pub proof fn lemma_batch_holds_the_first_facts(ls: Seq<Seq<char>>)
    ensures
        are_the_first(batch_facts(ls), places(ls), new_at(ls), line_at(ls), 8),
{
    lemma_distinct_facts(ls, ls.len() as int);
    lemma_batch_is_the_first(ls);
    let all = distinct_facts(ls);
    assert(ls.take(ls.len() as int) =~= ls);
    assert(places(ls) =~= places(ls.take(ls.len() as int)));
    lemma_first_of_the_wanted(all, places(ls), new_at(ls), line_at(ls), 8);
}

spec fn distinct_facts(ls: Seq<Seq<char>>) -> Seq<Seq<char>>
    decreases ls.len(),
{
    if ls.len() == 0 {
        Seq::empty()
    } else {
        let before = distinct_facts(ls.drop_last());
        let line = trim(ls.last());
        if is_fact(line) && !has_key(before, fact_key(line)) {
            before.push(line)
        } else {
            before
        }
    }
}

proof fn lemma_batch_is_the_first(ls: Seq<Seq<char>>)
    ensures
        batch_facts(ls) == if distinct_facts(ls).len() <= JOURNAL_FACT_BATCH_MAX {
            distinct_facts(ls)
        } else {
            distinct_facts(ls).take(JOURNAL_FACT_BATCH_MAX as int)
        },
    decreases ls.len(),
{
    if ls.len() > 0 {
        lemma_batch_is_the_first(ls.drop_last());
        let n = JOURNAL_FACT_BATCH_MAX as int;
        let before = distinct_facts(ls.drop_last());
        let all = distinct_facts(ls);
        if before.len() >= n {
            assert(all.take(n) =~= before.take(n));
            assert(before.len() == n ==> before.take(n) =~= before);
        }
    }
}

proof fn lemma_distinct_facts(ls: Seq<Seq<char>>, n: int)
    requires
        0 <= n <= ls.len(),
    ensures
        are_the_wanted(
            distinct_facts(ls.take(n)),
            places(ls.take(n)),
            new_at(ls),
            line_at(ls),
        ),
        forall|key: Seq<char>|
            #[trigger] has_key(distinct_facts(ls.take(n)), key) <==> exists|j: int|
                0 <= j < n && #[trigger] states_a_fact()(ls[j]) && fact_key(trim(ls[j])) == key,
    decreases n,
{
    let some = ls.take(n);
    if n == 0 {
        lemma_none_of_none(new_at(ls), line_at(ls));
        assert(places(some) =~= Seq::empty());
        assert(distinct_facts(some) =~= Seq::empty());
    } else {
        let before = ls.take(n - 1);
        let old = distinct_facts(before);
        let line = trim(ls[n - 1]);
        lemma_distinct_facts(ls, n - 1);
        assert(some.drop_last() =~= before);
        assert(places(before).push(n - 1) =~= places(some));
        lemma_fact_line(ls[n - 1]);
        lemma_one_more(old, places(before), new_at(ls), line_at(ls), n - 1);
        assert(has_key(old, fact_key(line)) <==> exists|j: int|
            0 <= j < n - 1 && #[trigger] states_a_fact()(ls[j]) && fact_key(trim(ls[j]))
                == fact_key(line));
        assert forall|key: Seq<char>|
            #[trigger] has_key(distinct_facts(some), key) <==> exists|j: int|
                0 <= j < n && #[trigger] states_a_fact()(ls[j]) && fact_key(trim(ls[j]))
                    == key by {
            let new = distinct_facts(some);
            if has_key(old, key) {
                let k = choose|k: int| 0 <= k < old.len() && fact_key(#[trigger] old[k]) == key;
                assert(fact_key(new[k]) == key);
            }
            if states_a_fact()(ls[n - 1]) && fact_key(line) == key {
                if !has_key(old, key) {
                    assert(fact_key(new[old.len() as int]) == key);
                }
            }
            if has_key(new, key) && !has_key(old, key) {
                let k = choose|k: int| 0 <= k < new.len() && fact_key(#[trigger] new[k]) == key;
                if k < old.len() {
                    assert(old[k] == new[k]);
                }
                assert(states_a_fact()(ls[n - 1]) && fact_key(trim(ls[n - 1])) == key);
            }
        }
    }
}

/// Facts that none of these says.
pub open spec fn unknown_to(recent: Seq<Seq<char>>) -> spec_fn(Seq<char>) -> bool {
    |fact: Seq<char>|
        forall|i: int| 0 <= i < recent.len() ==> fact_key(#[trigger] recent[i]) != fact_key(fact)
}

pub open spec fn as_it_is() -> spec_fn(Seq<char>) -> Seq<char> {
    |fact: Seq<char>| fact
}

/// Of the facts of a note those are written that none of the last twenty facts of the journal says:
/// all of them, in their order, and no other.
pub proof fn lemma_only_new_facts_are_written(note: Seq<char>, journal: Seq<char>)
    requires
        batch_facts(lines(trim(note))).len() > 0,
    ensures
        prepared(note, journal) matches Some(p) && p.is_facts && exists|kept: Seq<Seq<char>>|
            #[trigger] are_the_wanted(
                kept,
                batch_facts(lines(trim(note))),
                unknown_to(tail(journal_facts(journal), 20)),
                as_it_is(),
            ) && p.body == join(kept, "\n"@) && p.lines_written == kept.len()
                && p.duplicates_skipped == batch_facts(lines(trim(note))).len() - kept.len(),
{
    let facts = batch_facts(lines(trim(note)));
    let recent = tail(journal_facts(journal), JOURNAL_FACT_DEDUP_WINDOW as nat);
    crate::project_memory::lemma_batch_is_capped_and_distinct(lines(trim(note)));
    lemma_kept_facts(facts, recent);
    let kept = kept_facts(facts, recent);
    assert(are_the_wanted(kept, facts, unknown_to(recent), as_it_is()));
    if trim(note).len() == 0 {
        assert(trim(note) =~= Seq::empty());
    }
}

proof fn lemma_kept_facts(new: Seq<Seq<char>>, recent: Seq<Seq<char>>)
    requires
        forall|i: int, j: int|
            0 <= i < j < new.len() ==> fact_key(#[trigger] new[i]) != fact_key(#[trigger] new[j]),
    ensures
        are_the_wanted(kept_facts(new, recent), new, unknown_to(recent), as_it_is()),
        kept_facts(new, recent).len() <= new.len(),
        forall|k: int|
            0 <= k < kept_facts(new, recent).len() ==> new.contains(
                #[trigger] kept_facts(new, recent)[k],
            ),
    decreases new.len(),
{
    if new.len() == 0 {
        lemma_none_of_none(unknown_to(recent), as_it_is());
        assert(new =~= Seq::empty());
    } else {
        let before = new.drop_last();
        let old = kept_facts(before, recent);
        let fact = new.last();
        assert forall|i: int, j: int| 0 <= i < j < before.len() implies fact_key(
            #[trigger] before[i],
        ) != fact_key(#[trigger] before[j]) by {
            assert(before[i] == new[i] && before[j] == new[j]);
        }
        lemma_kept_facts(before, recent);
        lemma_one_more(old, before, unknown_to(recent), as_it_is(), fact);
        assert(before.push(fact) =~= new);
        assert(!has_key(old, fact_key(fact))) by {
            if has_key(old, fact_key(fact)) {
                let k = choose|k: int|
                    0 <= k < old.len() && fact_key(#[trigger] old[k]) == fact_key(fact);
                assert(before.contains(old[k]));
                let i = choose|i: int| 0 <= i < before.len() && before[i] == old[k];
                assert(new[i] == before[i]);
                assert(fact_key(new[i]) != fact_key(new[new.len() - 1]));
            }
        }
        assert forall|k: int| 0 <= k < kept_facts(new, recent).len() implies new.contains(
            #[trigger] kept_facts(new, recent)[k],
        ) by {
            if k < old.len() {
                assert(before.contains(old[k]));
                let i = choose|i: int| 0 <= i < before.len() && before[i] == old[k];
                assert(new[i] == old[k]);
            } else {
                assert(new[new.len() - 1] == fact);
            }
        }
    }
}

/// Two facts say the same if tag and claim hold the same words, whatever their case, the blanks
/// between them, and the evidence behind the claim.
pub proof fn lemma_evidence_makes_no_difference(
    tag: Seq<char>,
    claim: Seq<char>,
    evidence: Seq<char>,
)
    requires
        !tag.contains('|'),
        !claim.contains('|'),
    ensures
        fact_key(tag + seq!['|'] + claim) == fact_key(
            tag + seq!['|'] + claim + seq!['|'] + evidence,
        ),
        fact_key(tag + seq!['|'] + claim) == normalized_words(tag) + "|"@ + normalized_words(claim),
{
    let short = tag + seq!['|'] + claim;
    let rest = claim + seq!['|'] + evidence;
    let long = tag + seq!['|'] + rest;
    assert(long =~= tag + seq!['|'] + claim + seq!['|'] + evidence);
    lemma_char_behind(tag, '|', claim);
    lemma_char_behind(tag, '|', rest);
    lemma_char_behind(claim, '|', evidence);
    crate::text::lemma_find_char_absent(claim, '|', 0);
    let k = tag.len() as int;
    assert(short.take(k) =~= tag && long.take(k) =~= tag);
    assert(short.skip(k + 1) =~= claim && long.skip(k + 1) =~= rest);
    assert(rest.take(claim.len() as int) =~= claim);
}

/// Worktrees that can hold memory files: local directories.
pub open spec fn holds_memory() -> spec_fn(Worktree) -> bool {
    |w: Worktree| w.is_local && w.is_directory && !w.is_single_file
}

pub open spec fn path_of() -> spec_fn(Worktree) -> Seq<char> {
    |w: Worktree| w.path@
}

/// Memory is kept in every local directory that is open, and nowhere else.
pub proof fn lemma_memory_is_kept_in_directories(worktrees: Seq<Worktree>)
    ensures
        are_the_wanted(memory_roots(worktrees), worktrees, holds_memory(), path_of()),
    decreases worktrees.len(),
{
    if worktrees.len() == 0 {
        lemma_none_of_none(holds_memory(), path_of());
        assert(worktrees =~= Seq::empty());
    } else {
        let before = worktrees.drop_last();
        lemma_memory_is_kept_in_directories(before);
        lemma_one_more(memory_roots(before), before, holds_memory(), path_of(), worktrees.last());
        assert(before.push(worktrees.last()) =~= worktrees);
    }
}

/// Whether `part` is one of the parts.
pub open spec fn is_told(parts: Seq<Seq<char>>, part: Seq<char>) -> bool {
    parts.contains(part)
}

/// A prompt is told of every worktree: its summary, where there is one, and what
/// its journal says last.
pub proof fn lemma_prompt_is_told_of_every_worktree(memories: Seq<WorktreeMemory>, i: int)
    requires
        0 <= i < memories.len(),
    ensures
        memories[i].summary_text().len() > 0 ==> is_told(
            all_memory_parts(memories),
            "Project summary for `"@ + memories[i].root@ + "` (from a previous session):\n"@
                + memories[i].summary_text(),
        ),
        injection_tail(memories[i].journal_text()) matches Some(facts) ==> is_told(
            all_memory_parts(memories),
            "Recent project journal facts for `"@ + memories[i].root@
                + "` (use `read_journal` for the full log):\n"@ + facts,
        ),
    decreases memories.len(),
{
    let before = memories.drop_last();
    let old = all_memory_parts(before);
    let new = memory_parts(memories.last());
    let all = all_memory_parts(memories);
    assert(all == old + new);
    if i < before.len() {
        lemma_prompt_is_told_of_every_worktree(before, i);
        assert forall|part: Seq<char>| is_told(old, part) implies #[trigger] is_told(all, part) by {
            let k = choose|k: int| 0 <= k < old.len() && old[k] == part;
            assert(all[k] == part);
        }
    } else {
        assert forall|part: Seq<char>| is_told(new, part) implies #[trigger] is_told(all, part) by {
            let k = choose|k: int| 0 <= k < new.len() && new[k] == part;
            assert(all[old.len() + k] == part);
        }
        let m = memories.last();
        if m.summary_text().len() > 0 {
            assert(new[0] == crate::project_memory::summary_part(m.root@, m.summary_text()));
            assert(is_told(new, new[0]));
        }
        if let Some(facts) = injection_tail(m.journal_text()) {
            assert(new.last() == crate::project_memory::journal_part(m.root@, facts));
            assert(is_told(new, new.last()));
        }
    }
}

/// Whether a line announces facts.
pub open spec fn announces_facts(line: Seq<char>) -> bool {
    crate::text::ascii_lower(trim(line)) == crate::text::ascii_lower("facts"@)
        || crate::text::ascii_lower(trim(line)) == crate::text::ascii_lower("facts:"@)
}

/// A hand-over parts at the last line that announces facts: what precedes it is the summary, and
/// the facts are those of the lines behind it. Where one of the two is missing, all of it is summary.
pub proof fn lemma_hand_over_parts_at_the_last_header(text: Seq<char>, at: int)
    requires
        0 <= at < lines(text).len(),
        announces_facts(lines(text)[at]),
        forall|j: int| at < j < lines(text).len() ==> !announces_facts(#[trigger] lines(text)[j]),
    ensures
        ({
            let before = trim(join(lines(text).take(at), "\n"@));
            let facts = extracted_facts(join(lines(text).skip(at + 1), "\n"@));
            split_summary(text) == if before.len() > 0 && facts is Some {
                (before, facts)
            } else {
                (trim(text), None)
            }
        }),
{
    lemma_last_header(lines(text), at);
}

/// Without such a line all of a hand-over is summary.
pub proof fn lemma_hand_over_without_header(text: Seq<char>)
    requires
        forall|j: int| 0 <= j < lines(text).len() ==> !announces_facts(#[trigger] lines(text)[j]),
    ensures
        split_summary(text) == (trim(text), None::<Seq<char>>),
{
    lemma_no_header(lines(text));
}

proof fn lemma_last_header(ls: Seq<Seq<char>>, at: int)
    requires
        0 <= at < ls.len(),
        announces_facts(ls[at]),
        forall|j: int| at < j < ls.len() ==> !announces_facts(#[trigger] ls[j]),
    ensures
        crate::project_memory::last_facts_header(ls) == Some(at),
    decreases ls.len(),
{
    if at < ls.len() - 1 {
        assert(!announces_facts(ls[ls.len() - 1]));
        let before = ls.drop_last();
        assert forall|j: int| at < j < before.len() implies !announces_facts(
            #[trigger] before[j],
        ) by {
            assert(before[j] == ls[j]);
        }
        lemma_last_header(before, at);
    }
}

proof fn lemma_no_header(ls: Seq<Seq<char>>)
    requires
        forall|j: int| 0 <= j < ls.len() ==> !announces_facts(#[trigger] ls[j]),
    ensures
        crate::project_memory::last_facts_header(ls) is None,
    decreases ls.len(),
{
    if ls.len() > 0 {
        assert(!announces_facts(ls[ls.len() - 1]));
        let before = ls.drop_last();
        assert forall|j: int| 0 <= j < before.len() implies !announces_facts(
            #[trigger] before[j],
        ) by {
            assert(before[j] == ls[j]);
        }
        lemma_no_header(before);
    }
}

/// The facts of an answer are the batch of its text; the word that announces them and its colon say
/// nothing.
pub proof fn lemma_answer_gives_its_facts(answer: Seq<char>)
    requires
        trim(answer) == answer,
        answer.len() > 0,
        answer[0] != ':',
        !crate::text::starts_with(answer, "FACTS"@),
        !crate::text::eq_ignore_case(answer, "none"@),
    ensures
        ({
            let facts = batch_facts(lines(answer));
            let expected = if facts.len() > 0 {
                Some(join(facts, "\n"@))
            } else {
                None
            };
            &&& extracted_facts(answer) == expected
            &&& extracted_facts("FACTS"@ + seq![':', '\n'] + answer) == expected
        }),
{
    reveal_strlit("FACTS");
    reveal_strlit("none");
    let head = "FACTS"@ + seq![':', '\n'];
    let text = head + answer;
    crate::text::lemma_trim_start_first(answer);
    crate::text::lemma_trim_end_last(answer);
    let rest = seq![':', '\n'] + answer;
    assert(text =~= "FACTS"@ + rest);
    lemma_solid_ends(answer);
    assert(text[0] == 'F');
    assert(text.last() == answer.last());
    lemma_solid_is_trimmed(text);
    assert(text.take(5) =~= "FACTS"@);
    assert(text.skip(5) =~= rest);
    assert(rest.skip(1) =~= seq!['\n'] + answer);
    assert(rest.skip(1)[0] == '\n');
    let fed = seq!['\n'] + answer;
    assert(crate::project_memory::without_leading_colons(rest) == fed) by {
        reveal_with_fuel(crate::project_memory::without_leading_colons, 3);
        assert(rest[0] == ':');
    }
    assert(crate::text::trim_start(fed) == crate::text::trim_start(answer)) by {
        assert(fed.skip(1) =~= answer);
    }
    assert(trim(fed) == answer);
    assert(text.len() != 4);
    assert(crate::text::ascii_lower(text).len() == text.len());
    assert(crate::text::ascii_lower("none"@).len() == 4);
}

pub proof fn lemma_solid_ends(s: Seq<char>)
    requires
        s.len() > 0,
        trim(s) == s,
    ensures
        !crate::text::is_ws(s[0]),
        !crate::text::is_ws(s.last()),
{
    let t = crate::text::trim_start(s);
    crate::text::lemma_trim_start_first(s);
    crate::text::lemma_trim_end_last(t);
    crate::text::lemma_trim_end_prefix(t);
    assert(t.len() >= s.len());
    assert(s[0] == t[0]);
}

pub proof fn lemma_solid_is_trimmed(s: Seq<char>)
    requires
        s.len() > 0,
        !crate::text::is_ws(s[0]),
        !crate::text::is_ws(s.last()),
    ensures
        trim(s) == s,
{
}

} // verus!
