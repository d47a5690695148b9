//! What holds of the journal and the summary over several writes.
use crate::project_memory::{
    appended_journal, batch_facts, fact_key, fact_lines, file_text, has_key, is_fact, is_tag_char,
    journal_facts, kept_facts, merged, prepared, tail, lemma_batch_is_capped_and_distinct,
    JOURNAL_FACT_DEDUP_WINDOW,
};
use crate::text::{
    find_char, join, lemma_find_char_absent, lemma_find_char_bounds,
    lemma_find_char_in_front, lemma_trim_end_keeps, lemma_trim_end_prefix, lemma_trim_idempotent,
    lemma_trim_start_first, lemma_trim_without_last, lines, starts_with, trim, trim_start,
    without_cr,
};
use vstd::prelude::*;

verus! {

proof fn lemma_fact_lines_add(a: Seq<Seq<char>>, b: Seq<Seq<char>>)
    ensures
        fact_lines(a + b) == fact_lines(a) + fact_lines(b),
    decreases b.len(),
{
    if b.len() == 0 {
        assert(a + b =~= a);
        assert(fact_lines(a) + fact_lines(b) =~= fact_lines(a));
    } else {
        lemma_fact_lines_add(a, b.drop_last());
        assert((a + b).drop_last() =~= a + b.drop_last());
        assert((a + b).last() == b.last());
        assert(fact_lines(a + b) =~= fact_lines(a) + fact_lines(b));
    }
}

/// The facts in one line.
spec fn facts_in(line: Seq<char>) -> Seq<Seq<char>> {
    if is_fact(trim(line)) {
        seq![trim(line)]
    } else {
        Seq::empty()
    }
}

proof fn lemma_facts_in(line: Seq<char>)
    ensures
        fact_lines(seq![line]) == facts_in(line),
{
    assert(seq![line].drop_last() =~= Seq::<Seq<char>>::empty());
    assert(seq![line].last() == line);
    assert(fact_lines(seq![line].drop_last()) =~= Seq::<Seq<char>>::empty());
    assert(fact_lines(seq![line]) =~= facts_in(line));
}

proof fn lemma_nothing_is_no_fact()
    ensures
        facts_in(Seq::<char>::empty()) == Seq::<Seq<char>>::empty(),
{
    let e = Seq::<char>::empty();
    assert(trim(e) =~= e);
}

/// A line feed parts the facts before it from those behind it.
proof fn lemma_facts_part(a: Seq<char>, b: Seq<char>)
    ensures
        journal_facts(a + seq!['\n'] + b) == journal_facts(a) + journal_facts(b),
    decreases a.len(),
{
    let s = a + seq!['\n'] + b;
    assert(s =~= a + (seq!['\n'] + b));
    lemma_find_char_in_front(a, seq!['\n'] + b, '\n', 0);
    lemma_find_char_bounds(a, '\n', 0);
    assert(s[a.len() as int] == '\n');
    match find_char(a, '\n') {
        Some(k) => {
            let rest = a.skip(k + 1);
            lemma_facts_part(rest, b);
            assert(s.take(k) =~= a.take(k));
            assert(s.skip(k + 1) =~= rest + seq!['\n'] + b);
            let x = without_cr(a.take(k));
            assert(lines(s) == seq![x] + lines(rest + seq!['\n'] + b));
            assert(lines(a) == seq![x] + lines(rest));
            lemma_fact_lines_add(seq![x], lines(rest + seq!['\n'] + b));
            lemma_fact_lines_add(seq![x], lines(rest));
            assert(journal_facts(s) =~= journal_facts(a) + journal_facts(b));
        },
        None => {
            assert(find_char(s, '\n') == Some(a.len() as int));
            assert(s.take(a.len() as int) =~= a);
            assert(s.skip(a.len() as int + 1) =~= b);
            let x = without_cr(a);
            assert(lines(s) == seq![x] + lines(b));
            lemma_fact_lines_add(seq![x], lines(b));
            lemma_facts_in(x);
            lemma_facts_in(a);
            lemma_nothing_is_no_fact();
            if a.len() == 0 {
                assert(a =~= Seq::<char>::empty());
            } else {
                assert(lines(a) == seq![a]);
                if a.last() == '\r' {
                    lemma_trim_without_last(a);
                }
            }
            assert(journal_facts(a) == facts_in(x));
        },
    }
}

proof fn lemma_single_line(s: Seq<char>)
    requires
        s.len() > 0,
        !s.contains('\n'),
    ensures
        journal_facts(s) == facts_in(s),
{
    lemma_find_char_absent(s, '\n', 0);
    lemma_facts_in(s);
}

proof fn lemma_heading_is_no_fact(s: Seq<char>)
    requires
        s.len() > 0,
        s[0] == '#',
    ensures
        facts_in(s) == Seq::<Seq<char>>::empty(),
{
    assert(trim_start(s) == s);
    lemma_trim_end_keeps(s, 0);
    lemma_trim_end_prefix(s);
    let t = trim(s);
    assert(t[0] == '#');
    lemma_find_char_bounds(t, '|', 0);
    if let Some(k) = find_char(t, '|') {
        let tag = t.take(k);
        assert(tag[0] == '#');
        assert(trim_start(tag) == tag);
        lemma_trim_end_keeps(tag, 0);
        lemma_trim_end_prefix(tag);
        assert(trim(tag)[0] == '#');
        assert(!is_tag_char(trim(tag)[0]));
    }
}

/// A fact as a journal holds it: trimmed, and on a line of its own.
spec fn is_clean_fact(f: Seq<char>) -> bool {
    is_fact(f) && trim(f) == f && !f.contains('\n')
}

proof fn lemma_facts_of_joined(facts: Seq<Seq<char>>)
    requires
        forall|i: int| 0 <= i < facts.len() ==> is_clean_fact(#[trigger] facts[i]),
    ensures
        journal_facts(join(facts, "\n"@)) == facts,
    decreases facts.len(),
{
    reveal_strlit("\n");
    assert("\n"@ =~= seq!['\n']);
    if facts.len() == 0 {
        assert(journal_facts(join(facts, "\n"@)) =~= facts);
    } else {
        let rest = facts.drop_last();
        assert forall|i: int| 0 <= i < rest.len() implies is_clean_fact(#[trigger] rest[i]) by {
            assert(is_clean_fact(facts[i]));
        }
        lemma_facts_of_joined(rest);
        let last = facts.last();
        assert(is_clean_fact(facts[facts.len() - 1]));
        if last.len() == 0 {
            assert(last =~= Seq::<char>::empty());
            lemma_nothing_is_no_fact();
            assert(facts_in(last) =~= seq![last]);
            assert(seq![last].len() == 1);
        }
        lemma_single_line(last);
        if rest.len() == 0 {
            assert(facts =~= seq![last]);
        } else {
            lemma_facts_part(join(rest, "\n"@), last);
            assert(rest + seq![last] =~= facts);
        }
    }
}

proof fn lemma_lines_hold_no_feed(s: Seq<char>)
    ensures
        forall|i: int| 0 <= i < lines(s).len() ==> !(#[trigger] lines(s)[i]).contains('\n'),
    decreases s.len(),
{
    if s.len() > 0 {
        lemma_find_char_bounds(s, '\n', 0);
        match find_char(s, '\n') {
            Some(k) => {
                lemma_lines_hold_no_feed(s.skip(k + 1));
                let x = without_cr(s.take(k));
                assert forall|i: int| 0 <= i < lines(s).len() implies !(
                #[trigger] lines(s)[i]).contains('\n') by {
                    if i > 0 {
                        assert(lines(s)[i] == lines(s.skip(k + 1))[i - 1]);
                    } else {
                        assert(lines(s)[0] == x);
                        if x.contains('\n') {
                            let j = choose|j: int| 0 <= j < x.len() && x[j] == '\n';
                            assert(s[j] == '\n');
                        }
                    }
                }
            },
            None => {},
        }
    }
}

proof fn lemma_trim_holds_no_feed(s: Seq<char>)
    requires
        !s.contains('\n'),
    ensures
        !trim(s).contains('\n'),
{
    let start = trim_start(s);
    lemma_trim_start_first(s);
    lemma_trim_end_prefix(start);
    let t = trim(s);
    if t.contains('\n') {
        let j = choose|j: int| 0 <= j < t.len() && t[j] == '\n';
        assert(s[s.len() - start.len() + j] == '\n');
    }
}

proof fn lemma_batch_is_clean(ls: Seq<Seq<char>>)
    requires
        forall|i: int| 0 <= i < ls.len() ==> !(#[trigger] ls[i]).contains('\n'),
    ensures
        forall|i: int| 0 <= i < batch_facts(ls).len() ==> is_clean_fact(
            #[trigger] batch_facts(ls)[i],
        ),
    decreases ls.len(),
{
    if ls.len() > 0 {
        let rest = ls.drop_last();
        assert forall|i: int| 0 <= i < rest.len() implies !(#[trigger] rest[i]).contains('\n') by {
            assert(!ls[i].contains('\n'));
        }
        lemma_batch_is_clean(rest);
        assert(!ls[ls.len() - 1].contains('\n'));
        lemma_trim_holds_no_feed(ls.last());
        lemma_trim_idempotent(ls.last());
        let before = batch_facts(rest);
        let after = batch_facts(ls);
        assert forall|i: int| 0 <= i < after.len() implies is_clean_fact(#[trigger] after[i]) by {
            if i < before.len() {
                assert(after[i] == before[i]);
            }
        }
    }
}

proof fn lemma_kept_are_clean(new: Seq<Seq<char>>, recent: Seq<Seq<char>>)
    requires
        forall|i: int| 0 <= i < new.len() ==> is_clean_fact(#[trigger] new[i]),
    ensures
        forall|i: int| 0 <= i < kept_facts(new, recent).len() ==> is_clean_fact(
            #[trigger] kept_facts(new, recent)[i],
        ),
    decreases new.len(),
{
    if new.len() > 0 {
        let rest = new.drop_last();
        assert forall|i: int| 0 <= i < rest.len() implies is_clean_fact(#[trigger] rest[i]) by {
            assert(is_clean_fact(new[i]));
        }
        lemma_kept_are_clean(rest, recent);
        assert(is_clean_fact(new[new.len() - 1]));
        let before = kept_facts(rest, recent);
        let after = kept_facts(new, recent);
        assert forall|i: int| 0 <= i < after.len() implies is_clean_fact(#[trigger] after[i]) by {
            if i < before.len() {
                assert(after[i] == before[i]);
            }
        }
    }
}

/// The facts of a note that a journal does not hold among its latest ones.
pub open spec fn new_facts(note: Seq<char>, journal: Seq<char>) -> Seq<Seq<char>> {
    kept_facts(
        batch_facts(lines(trim(note))),
        tail(journal_facts(journal), JOURNAL_FACT_DEDUP_WINDOW as nat),
    )
}

/// An append adds a section and changes nothing of what was written before.
pub proof fn lemma_journal_only_grows(journal: Seq<char>, stamp: Seq<char>, body: Seq<char>)
    ensures
        starts_with(appended_journal(Some(journal), stamp, body), journal),
{
    let after = appended_journal(Some(journal), stamp, body);
    assert(after.take(journal.len() as int) =~= journal);
}

/// What is written of a note is read back: behind the facts that the journal held, it holds the new
/// ones of the note, in their order. The stamp is one line.
pub proof fn lemma_facts_are_read_back(
    journal: Option<Seq<char>>,
    note: Seq<char>,
    stamp: Seq<char>,
)
    requires
        !stamp.contains('\n'),
        prepared(note, file_text(journal)) matches Some(p) && p.is_facts && p.lines_written > 0,
    ensures
        journal_facts(
            appended_journal(journal, stamp, prepared(note, file_text(journal))->0.body),
        ) == journal_facts(file_text(journal)) + new_facts(note, file_text(journal)),
{
    reveal_strlit("\n");
    reveal_strlit("\n## ");
    reveal_strlit("# Project Journal\n");
    let kept = new_facts(note, file_text(journal));
    let ls = lines(trim(note));
    lemma_lines_hold_no_feed(trim(note));
    lemma_batch_is_clean(ls);
    lemma_kept_are_clean(
        batch_facts(ls),
        tail(journal_facts(file_text(journal)), JOURNAL_FACT_DEDUP_WINDOW as nat),
    );
    let body = join(kept, "\n"@);
    lemma_facts_of_joined(kept);
    let title = seq!['#', ' ', 'P', 'r', 'o', 'j', 'e', 'c', 't', ' ', 'J', 'o', 'u', 'r', 'n', 'a', 'l'];
    let base = match journal {
        Some(text) => text,
        None => "# Project Journal\n"@,
    };
    let empty = Seq::<char>::empty();
    let none = Seq::<Seq<char>>::empty();
    assert(journal_facts(empty) =~= none);
    if journal is None {
        assert(base =~= title + seq!['\n'] + empty);
        lemma_facts_part(title, empty);
        lemma_single_line(title);
        lemma_heading_is_no_fact(title);
        assert(journal_facts(base) =~= none);
    }
    let heading = seq!['#', '#', ' '] + stamp;
    if heading.contains('\n') {
        let j = choose|j: int| 0 <= j < heading.len() && heading[j] == '\n';
        assert(j >= 3 && stamp[j - 3] == '\n');
    }
    lemma_single_line(heading);
    lemma_heading_is_no_fact(heading);
    let after = appended_journal(journal, stamp, body);
    let behind = body + seq!['\n'] + empty;
    assert(after =~= base + seq!['\n'] + (heading + seq!['\n'] + behind));
    lemma_facts_part(base, heading + seq!['\n'] + behind);
    lemma_facts_part(heading, behind);
    lemma_facts_part(body, empty);
    assert(journal_facts(behind) =~= kept);
    assert(journal_facts(heading + seq!['\n'] + behind) =~= kept);
}

proof fn lemma_known_facts_are_dropped(new: Seq<Seq<char>>, recent: Seq<Seq<char>>)
    requires
        forall|i: int| 0 <= i < new.len() ==> has_key(recent, fact_key(#[trigger] new[i])),
    ensures
        kept_facts(new, recent) == Seq::<Seq<char>>::empty(),
    decreases new.len(),
{
    if new.len() > 0 {
        let rest = new.drop_last();
        assert forall|i: int| 0 <= i < rest.len() implies has_key(
            recent,
            fact_key(#[trigger] rest[i]),
        ) by {
            assert(has_key(recent, fact_key(new[i])));
        }
        lemma_known_facts_are_dropped(rest, recent);
        assert(has_key(recent, fact_key(new[new.len() - 1])));
    }
}

/// The facts of a note that was written are not written a second time. Of those that were not
/// written because the journal held them, none has moved out of the facts that are looked at.
pub proof fn lemma_written_facts_are_not_repeated(
    journal: Option<Seq<char>>,
    note: Seq<char>,
    stamp: Seq<char>,
)
    requires
        !stamp.contains('\n'),
        prepared(note, file_text(journal)) matches Some(p) && p.is_facts && p.lines_written > 0,
        forall|i: int|
            0 <= i < batch_facts(lines(trim(note))).len() ==> has_key(
                tail(
                    journal_facts(file_text(journal)) + new_facts(note, file_text(journal)),
                    JOURNAL_FACT_DEDUP_WINDOW as nat,
                ),
                fact_key(#[trigger] batch_facts(lines(trim(note)))[i]),
            ),
    ensures
        prepared(
            note,
            appended_journal(journal, stamp, prepared(note, file_text(journal))->0.body),
        ) matches Some(again) && again.lines_written == 0,
{
    let before = file_text(journal);
    let facts = batch_facts(lines(trim(note)));
    lemma_facts_are_read_back(journal, note, stamp);
    let after = appended_journal(journal, stamp, prepared(note, before)->0.body);
    let recent = tail(journal_facts(after), JOURNAL_FACT_DEDUP_WINDOW as nat);
    lemma_known_facts_are_dropped(facts, recent);
}

proof fn lemma_new_facts_are_looked_at(journal: Seq<char>, note: Seq<char>, i: int)
    requires
        0 <= i < new_facts(note, journal).len(),
    ensures
        has_key(
            tail(
                journal_facts(journal) + new_facts(note, journal),
                JOURNAL_FACT_DEDUP_WINDOW as nat,
            ),
            fact_key(new_facts(note, journal)[i]),
        ),
{
    let new = new_facts(note, journal);
    let all = journal_facts(journal) + new;
    let recent = tail(all, JOURNAL_FACT_DEDUP_WINDOW as nat);
    lemma_batch_is_capped_and_distinct(lines(trim(note)));
    lemma_kept_is_part(
        batch_facts(lines(trim(note))),
        tail(journal_facts(journal), JOURNAL_FACT_DEDUP_WINDOW as nat),
    );
    assert(recent[recent.len() - new.len() + i] == new[i]);
}

/// A note that held nothing but new facts is not written a second time.
pub proof fn lemma_new_notes_are_not_repeated(
    journal: Option<Seq<char>>,
    note: Seq<char>,
    stamp: Seq<char>,
)
    requires
        !stamp.contains('\n'),
        prepared(note, file_text(journal)) matches Some(p) && p.is_facts && p.lines_written > 0
            && p.duplicates_skipped == 0,
    ensures
        prepared(
            note,
            appended_journal(journal, stamp, prepared(note, file_text(journal))->0.body),
        ) matches Some(again) && again.lines_written == 0,
{
    let before = file_text(journal);
    let facts = batch_facts(lines(trim(note)));
    lemma_kept_is_part(facts, tail(journal_facts(before), JOURNAL_FACT_DEDUP_WINDOW as nat));
    assert(new_facts(note, before) == facts);
    assert forall|i: int| 0 <= i < facts.len() implies has_key(
        tail(journal_facts(before) + new_facts(note, before), JOURNAL_FACT_DEDUP_WINDOW as nat),
        fact_key(#[trigger] facts[i]),
    ) by {
        lemma_new_facts_are_looked_at(before, note, i);
    }
    lemma_written_facts_are_not_repeated(journal, note, stamp);
}

/// Facts are left out, but none is added or moved.
proof fn lemma_kept_is_part(new: Seq<Seq<char>>, recent: Seq<Seq<char>>)
    ensures
        kept_facts(new, recent).len() <= new.len(),
        kept_facts(new, recent).len() == new.len() ==> kept_facts(new, recent) == new,
    decreases new.len(),
{
    if new.len() > 0 {
        lemma_kept_is_part(new.drop_last(), recent);
        assert(new.drop_last().push(new.last()) =~= new);
    } else {
        assert(kept_facts(new, recent) =~= new);
    }
}

/// Bringing a summary up to date never clears a heading, and changes one only for something that
/// the journal says.
pub proof fn lemma_sync_never_clears(
    managed: Seq<Option<Seq<char>>>,
    derived: Seq<Option<Seq<char>>>,
    i: int,
)
    requires
        0 <= i < managed.len(),
        managed.len() == derived.len(),
    ensures
        managed[i] is Some ==> merged(managed, derived)[i] is Some,
        merged(managed, derived)[i] != managed[i] ==> merged(managed, derived)[i] == derived[i]
            && derived[i]->0.len() > 0,
{
}

} // verus!
