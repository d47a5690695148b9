//! What a summary says under its managed headings is what the journal says last.
use crate::journal_laws::{lemma_facts_are_read_back, new_facts};
use crate::project_memory::{
    appended_journal, bodies, display_body, fact_key, fact_lines, field_of, file_text, flushed,
    has_content, is_fact, is_of_kind, journal_facts, latest, merged, parse_lines, prepared,
    rendered_freeform, rendered_sections, spine_fields, synced_summary, FactKind,
};
use crate::selection::{
    are_the_last, are_the_wanted, lemma_last_of_the_wanted, lemma_last_wanted_is_picked,
    lemma_none_of_none, lemma_one_more,
};
use crate::summary_laws::{lemma_parse_has_all_fields, lemma_sections_are_written, section};
use crate::text::{
    ascii_lower, find_char, is_ws, join, lemma_trim_end_last, lemma_trim_end_prefix,
    lemma_trim_idempotent, lemma_trim_start_first, lines, trim, trim_end, trim_start, utf8_len,
};
use vstd::prelude::*;

verus! {

/// Whether a fact has one of the tags in front of its first bar, whatever the case of its letters.
pub open spec fn is_tagged(fact: Seq<char>, tags: Seq<Seq<char>>) -> bool {
    find_char(fact, '|') matches Some(k) && exists|i: int|
        0 <= i < tags.len() && ascii_lower(trim(fact.take(k))) == ascii_lower(#[trigger] tags[i])
}

pub open spec fn tagged(tags: Seq<Seq<char>>) -> spec_fn(Seq<char>) -> bool {
    |fact: Seq<char>| is_tagged(fact, tags)
}

/// What a fact says behind its first bar.
pub open spec fn claim(fact: Seq<char>) -> Seq<char> {
    match find_char(fact, '|') {
        Some(k) => trim(fact.skip(k + 1)),
        None => trim(fact),
    }
}

pub open spec fn claim_of() -> spec_fn(Seq<char>) -> Seq<char> {
    |fact: Seq<char>| claim(fact)
}

/// Whether a field holds what the last of these facts say, one a line and the oldest first, `max`
/// at most; where there are none, it is empty.
pub open spec fn says_the_last(
    field: Option<Seq<char>>,
    facts: Seq<Seq<char>>,
    wanted: spec_fn(Seq<char>) -> bool,
    max: nat,
) -> bool {
    exists|claims: Seq<Seq<char>>| #[trigger]
        are_the_last(claims, facts, wanted, claim_of(), max) && field == if claims.len() == 0 {
            None
        } else {
            Some(join(claims, "\n"@))
        }
}

pub open spec fn goal_tags() -> Seq<Seq<char>> {
    seq!["GOAL"@]
}

pub open spec fn outcome_tags() -> Seq<Seq<char>> {
    seq!["FIX"@, "FAIL"@, "BLOCK"@]
}

pub open spec fn decision_tags() -> Seq<Seq<char>> {
    seq!["DEC"@]
}

pub open spec fn next_tags() -> Seq<Seq<char>> {
    seq!["NEXT"@]
}

pub open spec fn trouble_tags() -> Seq<Seq<char>> {
    seq!["FAIL"@, "BLOCK"@]
}

/// Whether a fact is the last of a journal that has one of the tags.
pub open spec fn is_last_tagged(facts: Seq<Seq<char>>, tags: Seq<Seq<char>>, i: int) -> bool {
    &&& 0 <= i < facts.len()
    &&& is_tagged(facts[i], tags)
    &&& forall|j: int| i < j < facts.len() ==> !is_tagged(#[trigger] facts[j], tags)
}

/// Troubles, but for the one that the state is about.
pub open spec fn other_trouble(facts: Seq<Seq<char>>) -> spec_fn(Seq<char>) -> bool {
    |fact: Seq<char>|
        is_tagged(fact, trouble_tags()) && forall|i: int| #[trigger]
            is_last_tagged(facts, outcome_tags(), i) ==> fact_key(facts[i]) != fact_key(fact)
}

spec fn tags_of(kind: FactKind) -> Seq<Seq<char>> {
    match kind {
        FactKind::Goal => goal_tags(),
        FactKind::Outcome => outcome_tags(),
        FactKind::Decision => decision_tags(),
        FactKind::Next => next_tags(),
        FactKind::Trouble => trouble_tags(),
    }
}

proof fn lemma_kinds(fact: Seq<char>, kind: FactKind)
    ensures
        is_of_kind(fact, kind) == is_tagged(fact, tags_of(kind)),
        display_body(fact) == claim(fact),
{
    let tags = tags_of(kind);
    if let Some(k) = find_char(fact, '|') {
        let tag = ascii_lower(trim(fact.take(k)));
        if is_of_kind(fact, kind) {
            assert(exists|i: int| 0 <= i < tags.len() && tag == ascii_lower(#[trigger] tags[i])) by {
                if tag == ascii_lower(tags[0]) {
                } else if tag == ascii_lower(tags[1]) {
                } else {
                    assert(tag == ascii_lower(tags[2]));
                }
            }
        }
    }
}

spec fn wanted_of(kind: FactKind, except: Option<Seq<char>>) -> spec_fn(Seq<char>) -> bool {
    |fact: Seq<char>| is_tagged(fact, tags_of(kind)) && except != Some(fact_key(fact))
}

spec fn every(facts: Seq<Seq<char>>, kind: FactKind, except: Option<Seq<char>>) -> Seq<Seq<char>>
    decreases facts.len(),
{
    if facts.len() == 0 {
        Seq::empty()
    } else if is_of_kind(facts.last(), kind) && except != Some(fact_key(facts.last())) {
        every(facts.drop_last(), kind, except).push(facts.last())
    } else {
        every(facts.drop_last(), kind, except)
    }
}

proof fn lemma_every(facts: Seq<Seq<char>>, kind: FactKind, except: Option<Seq<char>>)
    ensures
        are_the_wanted(
            bodies(every(facts, kind, except)),
            facts,
            wanted_of(kind, except),
            claim_of(),
        ),
    decreases facts.len(),
{
    let wanted = wanted_of(kind, except);
    let all = every(facts, kind, except);
    if facts.len() == 0 {
        lemma_none_of_none(wanted, claim_of());
        assert(facts =~= Seq::empty());
        assert(bodies(all) =~= Seq::empty());
    } else {
        let before = facts.drop_last();
        let fact = facts.last();
        lemma_every(before, kind, except);
        lemma_kinds(fact, kind);
        lemma_one_more(bodies(every(before, kind, except)), before, wanted, claim_of(), fact);
        assert(before.push(fact) =~= facts);
        if wanted(fact) {
            assert(bodies(all) =~= bodies(every(before, kind, except)).push(claim(fact)));
        }
    }
}

proof fn lemma_latest_are_the_tail(
    facts: Seq<Seq<char>>,
    kind: FactKind,
    except: Option<Seq<char>>,
    n: nat,
)
    ensures
        ({
            let all = every(facts, kind, except);
            latest(facts, kind, except, n) == if all.len() <= n {
                all
            } else {
                all.skip(all.len() - n)
            }
        }),
    decreases facts.len(),
{
    let all = every(facts, kind, except);
    if facts.len() > 0 {
        let before = facts.drop_last();
        if n > 0 {
            if is_of_kind(facts.last(), kind) && except != Some(fact_key(facts.last())) {
                let earlier = every(before, kind, except);
                lemma_latest_are_the_tail(before, kind, except, (n - 1) as nat);
                if all.len() > n {
                    assert(earlier.skip(earlier.len() - (n - 1)).push(facts.last()) =~= all.skip(
                        all.len() - n,
                    ));
                }
            } else {
                lemma_latest_are_the_tail(before, kind, except, n);
            }
        } else {
            assert(all.skip(all.len() as int) =~= Seq::empty());
            assert(all.len() == 0 ==> all =~= Seq::empty());
        }
    }
}

proof fn lemma_field(facts: Seq<Seq<char>>, kind: FactKind, except: Option<Seq<char>>, n: nat)
    ensures
        says_the_last(
            field_of(latest(facts, kind, except, n)),
            facts,
            wanted_of(kind, except),
            n,
        ),
        are_the_last(
            bodies(latest(facts, kind, except, n)),
            facts,
            wanted_of(kind, except),
            claim_of(),
            n,
        ),
{
    let all = every(facts, kind, except);
    let some = latest(facts, kind, except, n);
    lemma_every(facts, kind, except);
    lemma_latest_are_the_tail(facts, kind, except, n);
    lemma_last_of_the_wanted(bodies(all), facts, wanted_of(kind, except), claim_of(), n);
    if all.len() > n {
        assert(bodies(some) =~= bodies(all).skip(bodies(all).len() - n));
    }
    let claims = bodies(some);
    assert(are_the_last(claims, facts, wanted_of(kind, except), claim_of(), n));
}

proof fn lemma_no_exception(kind: FactKind)
    ensures
        wanted_of(kind, None) == tagged(tags_of(kind)),
{
    assert(wanted_of(kind, None) =~= tagged(tags_of(kind)));
}

/// Under each heading stands what the facts with its tags say last: one goal, one outcome, five
/// decisions, one next step, and three troubles other than that outcome, the oldest first.
pub proof fn lemma_headings_say_the_last(facts: Seq<Seq<char>>)
    ensures
        spine_fields(facts).len() == 5,
        says_the_last(spine_fields(facts)[0], facts, tagged(goal_tags()), 1),
        says_the_last(spine_fields(facts)[1], facts, tagged(outcome_tags()), 1),
        says_the_last(spine_fields(facts)[2], facts, tagged(decision_tags()), 5),
        says_the_last(spine_fields(facts)[3], facts, tagged(next_tags()), 1),
        says_the_last(spine_fields(facts)[4], facts, other_trouble(facts), 3),
{
    lemma_no_exception(FactKind::Goal);
    lemma_no_exception(FactKind::Outcome);
    lemma_no_exception(FactKind::Decision);
    lemma_no_exception(FactKind::Next);
    lemma_field(facts, FactKind::Goal, None, 1);
    lemma_field(facts, FactKind::Outcome, None, 1);
    lemma_field(facts, FactKind::Decision, None, 5);
    lemma_field(facts, FactKind::Next, None, 1);
    let state = latest(facts, FactKind::Outcome, None, 1);
    let key = if state.len() == 0 {
        None
    } else {
        Some(fact_key(state.last()))
    };
    lemma_field(facts, FactKind::Trouble, key, 3);
    lemma_state(facts, facts.len() as int);
    assert(wanted_of(FactKind::Trouble, key) =~= other_trouble(facts)) by {
        assert forall|fact: Seq<char>| #[trigger]
            wanted_of(FactKind::Trouble, key)(fact) == other_trouble(facts)(fact) by {
            if state.len() > 0 {
                let i = choose|i: int|
                    #[trigger] is_last_tagged(facts, outcome_tags(), i) && state == seq![facts[i]];
                assert forall|j: int| #[trigger]
                    is_last_tagged(facts, outcome_tags(), j) implies j == i by {
                    if j < i {
                        assert(!is_tagged(facts[i], outcome_tags()));
                    } else if i < j {
                        assert(!is_tagged(facts[j], outcome_tags()));
                    }
                }
                assert(state.last() == facts[i]);
            }
        }
    }
}

/// The outcome that the state is about.
proof fn lemma_state(facts: Seq<Seq<char>>, n: int)
    requires
        n == facts.len(),
    ensures
        ({
            let state = latest(facts, FactKind::Outcome, None, 1);
            &&& state.len() == 0 ==> forall|i: int|
                !#[trigger] is_last_tagged(facts, outcome_tags(), i)
            &&& state.len() > 0 ==> exists|i: int|
                #[trigger] is_last_tagged(facts, outcome_tags(), i) && state == seq![facts[i]]
        }),
    decreases facts.len(),
{
    let state = latest(facts, FactKind::Outcome, None, 1);
    if facts.len() > 0 {
        let before = facts.drop_last();
        lemma_kinds(facts.last(), FactKind::Outcome);
        if is_of_kind(facts.last(), FactKind::Outcome) {
            assert(latest(before, FactKind::Outcome, None, 0) =~= Seq::empty());
            assert(is_last_tagged(facts, outcome_tags(), n - 1));
            assert(state =~= seq![facts[n - 1]]);
        } else {
            lemma_state(before, n - 1);
            assert forall|i: int| is_last_tagged(facts, outcome_tags(), i) implies #[trigger]
                is_last_tagged(before, outcome_tags(), i) by {
                assert(i < n - 1);
                assert forall|j: int| i < j < before.len() implies !is_tagged(
                    #[trigger] before[j],
                    outcome_tags(),
                ) by {
                    assert(before[j] == facts[j]);
                }
            }
            if state.len() > 0 {
                let i = choose|i: int| #[trigger]
                    is_last_tagged(before, outcome_tags(), i) && state == seq![before[i]];
                assert forall|j: int| i < j < facts.len() implies !is_tagged(
                    #[trigger] facts[j],
                    outcome_tags(),
                ) by {
                    if j < n - 1 {
                        assert(before[j] == facts[j]);
                    }
                }
                assert(is_last_tagged(facts, outcome_tags(), i));
            } else {
                assert forall|i: int| !#[trigger] is_last_tagged(facts, outcome_tags(), i) by {
                    assert(!is_last_tagged(before, outcome_tags(), i));
                }
            }
        }
    }
}

/// The goal of a journal is what its last fact with that tag says, whatever goals stand in front
/// of it; and so it is with the state and the next step.
pub proof fn lemma_last_fact_decides(facts: Seq<Seq<char>>, i: int)
    ensures
        is_last_tagged(facts, goal_tags(), i) ==> spine_fields(facts)[0] == Some(claim(facts[i])),
        is_last_tagged(facts, outcome_tags(), i) ==> spine_fields(facts)[1] == Some(
            claim(facts[i]),
        ),
        is_last_tagged(facts, next_tags(), i) ==> spine_fields(facts)[3] == Some(claim(facts[i])),
{
    lemma_headings_say_the_last(facts);
    if is_last_tagged(facts, goal_tags(), i) {
        lemma_one_claim(spine_fields(facts)[0], facts, goal_tags(), i);
    }
    if is_last_tagged(facts, outcome_tags(), i) {
        lemma_one_claim(spine_fields(facts)[1], facts, outcome_tags(), i);
    }
    if is_last_tagged(facts, next_tags(), i) {
        lemma_one_claim(spine_fields(facts)[3], facts, next_tags(), i);
    }
}

proof fn lemma_one_claim(
    field: Option<Seq<char>>,
    facts: Seq<Seq<char>>,
    tags: Seq<Seq<char>>,
    i: int,
)
    requires
        says_the_last(field, facts, tagged(tags), 1),
        is_last_tagged(facts, tags, i),
    ensures
        field == Some(claim(facts[i])),
{
    let claims = choose|claims: Seq<Seq<char>>| #[trigger]
        are_the_last(claims, facts, tagged(tags), claim_of(), 1) && field == if claims.len() == 0 {
            None
        } else {
            Some(join(claims, "\n"@))
        };
    assert forall|j: int| i < j < facts.len() implies !tagged(tags)(#[trigger] facts[j]) by {
        assert(!is_tagged(facts[j], tags));
    }
    lemma_last_wanted_is_picked(claims, facts, tagged(tags), claim_of(), 1, i);
    assert(claims.len() == 1);
    assert(join(claims, "\n"@) == claims[0]);
}

/// The managed headings.
pub open spec fn headings() -> Seq<Seq<char>> {
    seq!["Goal"@, "State"@, "Decisions"@, "Next"@, "Pitfalls"@]
}

/// The summary once it is brought up to date with the journal.
pub open spec fn summary_after(journal: Seq<char>, existing: Seq<char>) -> Seq<char> {
    match synced_summary(journal, existing) {
        Some(text) => text,
        None => trim(existing),
    }
}

/// Whether a summary holds a heading with this text right below it.
pub open spec fn holds_section(summary: Seq<char>, heading: Seq<char>, body: Seq<char>) -> bool {
    exists|k: int| #[trigger]
        crate::text::occurs_at(summary, "## "@ + heading + "\n"@ + body, k)
}

/// What begins and ends with something is not touched by trimming.
proof fn lemma_trim_keeps_inside(s: Seq<char>, k: int, n: int)
    requires
        0 <= k,
        0 < n,
        k + n <= s.len(),
        !is_ws(s[k]),
        !is_ws(s[k + n - 1]),
    ensures
        exists|j: int|
            0 <= j && j + n <= trim(s).len() && #[trigger] trim(s).subrange(j, j + n)
                == s.subrange(k, k + n),
{
    lemma_start_keeps(s, k);
    let t = trim_start(s);
    let d = s.len() - t.len();
    lemma_trim_start_first(s);
    assert(t[k - d] == s[k]);
    assert(t[k - d + n - 1] == s[k + n - 1]);
    lemma_end_keeps(t, k - d + n - 1);
    lemma_trim_end_prefix(t);
    let j = k - d;
    assert(trim(s).subrange(j, j + n) =~= s.subrange(k, k + n));
}

proof fn lemma_start_keeps(s: Seq<char>, k: int)
    requires
        0 <= k < s.len(),
        !is_ws(s[k]),
    ensures
        s.len() - trim_start(s).len() <= k,
    decreases s.len(),
{
    if is_ws(s[0]) {
        assert(s.skip(1)[k - 1] == s[k]);
        lemma_start_keeps(s.skip(1), k - 1);
    }
}

proof fn lemma_end_keeps(s: Seq<char>, k: int)
    requires
        0 <= k < s.len(),
        !is_ws(s[k]),
    ensures
        k < trim_end(s).len(),
    decreases s.len(),
{
    if is_ws(s.last()) {
        assert(s.drop_last()[k] == s[k]);
        lemma_end_keeps(s.drop_last(), k);
    }
}

/// What the facts of a journal say under a heading stands under that heading of the summary, once
/// it is brought up to date.
pub proof fn lemma_headings_are_in_the_summary(journal: Seq<char>, existing: Seq<char>, i: int)
    requires
        0 <= i < 5,
        spine_fields(journal_facts(journal))[i] matches Some(v) && trim(v).len() > 0,
    ensures
        holds_section(
            summary_after(journal, existing),
            headings()[i],
            trim(spine_fields(journal_facts(journal))[i]->0),
        ),
{
    reveal_strlit("## ");
    let facts = journal_facts(journal);
    let derived = spine_fields(facts);
    let v = derived[i]->0;
    let parsed = parse_lines(lines(existing));
    let managed = merged(flushed(parsed), derived);
    lemma_parse_has_all_fields(lines(existing));
    assert(v.len() > 0) by {
        if v.len() == 0 {
            assert(trim(v) =~= v);
        }
    }
    assert(managed[i] == Some(v));
    lemma_sections_are_written(managed, 5, i);
    let written = section(i, v);
    let body = trim(v);
    assert(written == "## "@ + headings()[i] + "\n"@ + body);
    let sections = rendered_sections(managed, 5);
    let k = choose|k: int|
        0 <= k && k + written.len() <= sections.len() && #[trigger] sections.subrange(
            k,
            k + written.len(),
        ) == written;
    let all = sections + rendered_freeform(trim(parsed.freeform));
    let n = written.len() as int;
    assert(all.subrange(k, k + n) =~= written);
    assert(all[k] == all.subrange(k, k + n)[0]);
    assert(all[k] == '#');
    lemma_trim_start_first(v);
    lemma_trim_end_last(trim_start(v));
    assert(all[k + n - 1] == all.subrange(k, k + n)[n - 1]);
    assert(all[k + n - 1] == body.last());
    lemma_trim_keeps_inside(all, k, n);
    let out = trim(all);
    let j = choose|j: int|
        0 <= j && j + n <= out.len() && #[trigger] out.subrange(j, j + n) == all.subrange(k, k + n);
    assert(crate::text::occurs_at(out, written, j));
    assert(derived[i] matches Some(v) && v.len() > 0);
    assert(has_content(derived));
    assert(facts.len() > 0) by {
        if facts.len() == 0 {
            lemma_headings_say_the_last(facts);
            lemma_no_facts_say_nothing(facts);
        }
    }
}

proof fn lemma_no_facts_say_nothing(facts: Seq<Seq<char>>)
    requires
        facts.len() == 0,
    ensures
        forall|i: int| 0 <= i < 5 ==> (#[trigger] spine_fields(facts)[i]) is None,
{
    let s = spine_fields(facts);
    assert(s[0] is None && s[1] is None && s[2] is None && s[3] is None && s[4] is None);
}

/// After the summary is brought up to date, it says under Goal what the last fact of the journal
/// with the tag GOAL says; and so it is with the state and the next step.
pub proof fn lemma_summary_says_the_last(journal: Seq<char>, existing: Seq<char>, i: int)
    requires
        0 <= i < journal_facts(journal).len(),
        claim(journal_facts(journal)[i]).len() > 0,
    ensures
        ({
            let facts = journal_facts(journal);
            let summary = summary_after(journal, existing);
            &&& is_last_tagged(facts, goal_tags(), i) ==> holds_section(
                summary,
                "Goal"@,
                claim(facts[i]),
            )
            &&& is_last_tagged(facts, outcome_tags(), i) ==> holds_section(
                summary,
                "State"@,
                claim(facts[i]),
            )
            &&& is_last_tagged(facts, next_tags(), i) ==> holds_section(
                summary,
                "Next"@,
                claim(facts[i]),
            )
        }),
{
    let facts = journal_facts(journal);
    let said = claim(facts[i]);
    assert(trim(said) == said) by {
        match find_char(facts[i], '|') {
            Some(k) => lemma_trim_idempotent(facts[i].skip(k + 1)),
            None => lemma_trim_idempotent(facts[i]),
        }
    }
    lemma_last_fact_decides(facts, i);
    if is_last_tagged(facts, goal_tags(), i) {
        lemma_headings_are_in_the_summary(journal, existing, 0);
    }
    if is_last_tagged(facts, outcome_tags(), i) {
        lemma_headings_are_in_the_summary(journal, existing, 1);
    }
    if is_last_tagged(facts, next_tags(), i) {
        lemma_headings_are_in_the_summary(journal, existing, 3);
    }
}

/// A goal that is appended replaces the one before: the summary that follows says the goal of the
/// note, whatever the journal said until then.
pub proof fn lemma_new_goal_replaces_the_old(
    journal: Option<Seq<char>>,
    note: Seq<char>,
    stamp: Seq<char>,
    existing: Seq<char>,
    i: int,
)
    requires
        !stamp.contains('\n'),
        prepared(note, file_text(journal)) matches Some(p) && p.is_facts && p.lines_written > 0,
        is_last_tagged(new_facts(note, file_text(journal)), goal_tags(), i),
        claim(new_facts(note, file_text(journal))[i]).len() > 0,
    ensures
        holds_section(
            summary_after(
                appended_journal(journal, stamp, prepared(note, file_text(journal))->0.body),
                existing,
            ),
            "Goal"@,
            claim(new_facts(note, file_text(journal))[i]),
        ),
{
    lemma_facts_are_read_back(journal, note, stamp);
    let old = journal_facts(file_text(journal));
    let new = new_facts(note, file_text(journal));
    let after = appended_journal(journal, stamp, prepared(note, file_text(journal))->0.body);
    let facts = journal_facts(after);
    let k = old.len() + i;
    assert(facts[k] == new[i]);
    assert forall|j: int| k < j < facts.len() implies !is_tagged(
        #[trigger] facts[j],
        goal_tags(),
    ) by {
        assert(facts[j] == new[j - old.len()]);
    }
    assert(is_last_tagged(facts, goal_tags(), k));
    lemma_summary_says_the_last(after, existing, k);
}

/// Whether a line is a fact: a tag of capitals and underscores that takes sixteen bytes at most, a
/// bar, and a claim.
pub open spec fn states_a_fact() -> spec_fn(Seq<char>) -> bool {
    |line: Seq<char>|
        {
            &&& find_char(trim(line), '|') matches Some(k)
            &&& 0 < utf8_len(trim(trim(line).take(k))) <= 16
            &&& trim(trim(line).skip(k + 1)).len() > 0
            &&& forall|i: int|
                0 <= i < trim(trim(line).take(k)).len() ==> ({
                    let c = #[trigger] trim(trim(line).take(k))[i];
                    ('A' <= c <= 'Z') || c == '_'
                })
        }
}

pub open spec fn without_blanks() -> spec_fn(Seq<char>) -> Seq<char> {
    |line: Seq<char>| trim(line)
}

/// The facts of a journal are all its lines that state one, in their order.
pub proof fn lemma_journal_facts_are_its_fact_lines(journal: Seq<char>)
    ensures
        are_the_wanted(
            journal_facts(journal),
            lines(journal),
            states_a_fact(),
            without_blanks(),
        ),
{
    lemma_fact_lines(lines(journal));
}

proof fn lemma_fact_lines(ls: Seq<Seq<char>>)
    ensures
        are_the_wanted(fact_lines(ls), ls, states_a_fact(), without_blanks()),
    decreases ls.len(),
{
    if ls.len() == 0 {
        lemma_none_of_none(states_a_fact(), without_blanks());
        assert(ls =~= Seq::empty());
    } else {
        let before = ls.drop_last();
        lemma_fact_lines(before);
        lemma_one_more(fact_lines(before), before, states_a_fact(), without_blanks(), ls.last());
        assert(before.push(ls.last()) =~= ls);
        lemma_fact_line(ls.last());
    }
}

pub proof fn lemma_fact_line(line: Seq<char>)
    ensures
        is_fact(trim(line)) == states_a_fact()(line),
{
}

} // verus!
