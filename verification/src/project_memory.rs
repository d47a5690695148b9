//! What an agent remembers of a project between sessions: an append-only journal of facts and a
//! summary with managed headings, both kept in a directory of the worktree.
use crate::paths::{join_path, joined};
use crate::text::{
    ascii_lower, ascii_lower_str, bytes_exceed, eq_ignore_case, eq_ignore_case_str, find_char,
    find_char_in, from_chars, join, join_strs, lines, lines_str, opt_text, starts_with,
    str_eq, strip_prefix_str, to_chars, trim, trim_str, utf8_len, views, words, words_str,
};
use vstd::prelude::*;

verus! {

pub const STATE_DIR_NAME: &'static str = ".local_agent";

pub const JOURNAL_FILENAME: &'static str = "JOURNAL.md";

pub const PROJECT_SUMMARY_FILENAME: &'static str = "project_summary.md";

/// How many journal lines are injected into a prompt.
pub const JOURNAL_INJECTION_MAX_LINES: usize = 25;

/// How many facts one append may hold.
pub const JOURNAL_FACT_BATCH_MAX: usize = 8;

/// How many of the latest facts a new fact must differ from.
pub const JOURNAL_FACT_DEDUP_WINDOW: usize = 20;

pub fn state_dir_for_worktree(worktree_root: &str) -> (r: String)
    ensures
        r@ == joined(worktree_root@, STATE_DIR_NAME@),
{
    join_path(worktree_root, STATE_DIR_NAME)
}

pub fn journal_path(worktree_root: &str) -> (r: String)
    ensures
        r@ == joined(joined(worktree_root@, STATE_DIR_NAME@), JOURNAL_FILENAME@),
{
    join_path(state_dir_for_worktree(worktree_root).as_str(), JOURNAL_FILENAME)
}

pub fn project_summary_path(worktree_root: &str) -> (r: String)
    ensures
        r@ == joined(joined(worktree_root@, STATE_DIR_NAME@), PROJECT_SUMMARY_FILENAME@),
{
    join_path(state_dir_for_worktree(worktree_root).as_str(), PROJECT_SUMMARY_FILENAME)
}

// ---------------------------------------------------------------------------
// Facts
// ---------------------------------------------------------------------------

/// What stands before the first bar, and what stands behind it.
pub open spec fn split_bar(line: Seq<char>) -> Option<(Seq<char>, Seq<char>)> {
    match find_char(line, '|') {
        Some(k) => Some((line.take(k), line.skip(k + 1))),
        None => None,
    }
}

fn split_bar_str(line: &str) -> (r: Option<(String, String)>)
    ensures
        match r {
            Some(p) => split_bar(line@) == Some((p.0@, p.1@)),
            None => split_bar(line@) is None,
        },
{
    let v = to_chars(line);
    match find_char_in(&v, '|', 0) {
        Some(k) => {
            let left = from_chars(&v, 0, k);
            let right = from_chars(&v, k + 1, v.len());
            assert(left@ =~= line@.take(k as int));
            assert(right@ =~= line@.skip(k + 1));
            Some((left, right))
        },
        None => None,
    }
}

pub open spec fn is_tag_char(c: char) -> bool {
    ('A' <= c <= 'Z') || c == '_'
}

pub open spec fn all_tag_chars(s: Seq<char>) -> bool {
    forall|i: int| 0 <= i < s.len() ==> is_tag_char(#[trigger] s[i])
}

/// A fact: a short upper-case tag, a bar, and a claim.
pub open spec fn is_fact(line: Seq<char>) -> bool {
    match split_bar(line) {
        Some((tag, rest)) => {
            &&& trim(tag).len() > 0
            &&& trim(rest).len() > 0
            &&& utf8_len(trim(tag)) <= 16
            &&& all_tag_chars(trim(tag))
        },
        None => false,
    }
}

fn only_tag_chars(tag: &str) -> (r: bool)
    ensures
        r == all_tag_chars(tag@),
{
    let v = to_chars(tag);
    let mut i: usize = 0;
    while i < v.len()
        invariant
            i <= v@.len(),
            v@ == tag@,
            forall|j: int| 0 <= j < i ==> is_tag_char(#[trigger] v@[j]),
        decreases v@.len() - i,
    {
        let c = v[i];
        if !(('A' <= c && c <= 'Z') || c == '_') {
            assert(!is_tag_char(v@[i as int]));
            return false;
        }
        i = i + 1;
    }
    true
}

fn is_fact_line(line: &str) -> (r: bool)
    ensures
        r == is_fact(line@),
{
    match split_bar_str(line) {
        Some((tag, rest)) => {
            let tag = trim_str(tag.as_str());
            let rest = trim_str(rest.as_str());
            if tag.as_str().is_empty() || rest.as_str().is_empty() || bytes_exceed(tag.as_str(), 16) {
                return false;
            }
            only_tag_chars(tag.as_str())
        },
        None => false,
    }
}

/// The words in lower case, one blank between them.
pub open spec fn normalized_words(s: Seq<char>) -> Seq<char> {
    ascii_lower(join(words(s), " "@))
}

fn normalize_ws_lower(value: &str) -> (r: String)
    ensures
        r@ == normalized_words(value@),
{
    ascii_lower_str(join_strs(&words_str(value), " ").as_str())
}

/// By what two facts are the same: tag and claim, but not the evidence behind a second bar.
pub open spec fn fact_key(line: Seq<char>) -> Seq<char> {
    match split_bar(line) {
        Some((tag, rest)) => {
            let claim = match split_bar(rest) {
                Some((claim, _)) => claim,
                None => rest,
            };
            normalized_words(tag) + "|"@ + normalized_words(claim)
        },
        None => normalized_words(line),
    }
}

fn fact_dedupe_key(line: &str) -> (r: String)
    ensures
        r@ == fact_key(line@),
{
    match split_bar_str(line) {
        Some((tag, rest)) => {
            let claim = match split_bar_str(rest.as_str()) {
                Some((claim, _evidence)) => claim,
                None => rest,
            };
            let mut r = normalize_ws_lower(tag.as_str());
            r.append("|");
            r.append(normalize_ws_lower(claim.as_str()).as_str());
            r
        },
        None => normalize_ws_lower(line),
    }
}

/// The facts among the lines, trimmed.
pub open spec fn fact_lines(ls: Seq<Seq<char>>) -> Seq<Seq<char>>
    decreases ls.len(),
{
    if ls.len() == 0 {
        Seq::empty()
    } else {
        let before = fact_lines(ls.drop_last());
        if is_fact(trim(ls.last())) {
            before.push(trim(ls.last()))
        } else {
            before
        }
    }
}

/// The facts of a journal, oldest first.
pub open spec fn journal_facts(journal: Seq<char>) -> Seq<Seq<char>> {
    fact_lines(lines(journal))
}

fn extract_journal_fact_lines(journal: &str) -> (r: Vec<String>)
    ensures
        views(r@) == journal_facts(journal@),
{
    let ls = lines_str(journal);
    let mut out: Vec<String> = Vec::new();
    let mut i: usize = 0;
    assert(views(ls@).take(0) =~= Seq::<Seq<char>>::empty());
    assert(views(out@) =~= Seq::<Seq<char>>::empty());
    while i < ls.len()
        invariant
            i <= ls@.len(),
            views(out@) == fact_lines(views(ls@).take(i as int)),
        decreases ls@.len() - i,
    {
        let ghost before = views(out@);
        let trimmed = trim_str(ls[i].as_str());
        assert(views(ls@).take(i + 1).drop_last() =~= views(ls@).take(i as int));
        assert(views(ls@).take(i + 1).last() == ls@[i as int]@);
        if is_fact_line(trimmed.as_str()) {
            out.push(trimmed);
            assert(views(out@) =~= before.push(trim(ls@[i as int]@)));
        }
        i = i + 1;
    }
    assert(views(ls@).take(ls@.len() as int) =~= views(ls@));
    out
}

/// Whether a line holds text and is no heading.
pub open spec fn is_content(trimmed: Seq<char>) -> bool {
    trimmed.len() > 0 && trimmed[0] != '#'
}

/// The lines that hold text and are no headings, trimmed.
pub open spec fn content_lines(ls: Seq<Seq<char>>) -> Seq<Seq<char>>
    decreases ls.len(),
{
    if ls.len() == 0 {
        Seq::empty()
    } else {
        let before = content_lines(ls.drop_last());
        if is_content(trim(ls.last())) {
            before.push(trim(ls.last()))
        } else {
            before
        }
    }
}

fn extract_journal_content_lines(journal: &str) -> (r: Vec<String>)
    ensures
        views(r@) == content_lines(lines(journal@)),
{
    let ls = lines_str(journal);
    let mut out: Vec<String> = Vec::new();
    let mut i: usize = 0;
    assert(views(ls@).take(0) =~= Seq::<Seq<char>>::empty());
    assert(views(out@) =~= Seq::<Seq<char>>::empty());
    while i < ls.len()
        invariant
            i <= ls@.len(),
            views(out@) == content_lines(views(ls@).take(i as int)),
        decreases ls@.len() - i,
    {
        let ghost before = views(out@);
        let trimmed = trim_str(ls[i].as_str());
        assert(views(ls@).take(i + 1).drop_last() =~= views(ls@).take(i as int));
        assert(views(ls@).take(i + 1).last() == ls@[i as int]@);
        let v = to_chars(trimmed.as_str());
        if v.len() > 0 && v[0] != '#' {
            out.push(trimmed);
            assert(views(out@) =~= before.push(trim(ls@[i as int]@)));
        }
        i = i + 1;
    }
    assert(views(ls@).take(ls@.len() as int) =~= views(ls@));
    out
}

/// The last `n` items, or all of them.
pub open spec fn tail<T>(s: Seq<T>, n: nat) -> Seq<T> {
    if s.len() <= n {
        s
    } else {
        s.skip(s.len() - n)
    }
}

fn tail_strs(v: &Vec<String>, n: usize) -> (r: Vec<String>)
    ensures
        views(r@) == tail(views(v@), n as nat),
{
    let start: usize = if v.len() <= n {
        0
    } else {
        v.len() - n
    };
    let mut r: Vec<String> = Vec::new();
    let mut i: usize = start;
    assert(views(r@) =~= views(v@).subrange(start as int, start as int));
    while i < v.len()
        invariant
            start <= i <= v@.len(),
            views(r@) == views(v@).subrange(start as int, i as int),
        decreases v@.len() - i,
    {
        let ghost before = views(r@);
        r.push(v[i].clone());
        assert(views(r@) =~= before.push(v@[i as int]@));
        assert(views(v@).subrange(start as int, i + 1) =~= views(v@).subrange(
            start as int,
            i as int,
        ).push(views(v@)[i as int]));
        i = i + 1;
    }
    assert(views(r@) =~= tail(views(v@), n as nat));
    r
}

/// The lines that a prompt is given of a journal: the latest facts, or where there is none the
/// latest lines of text.
pub open spec fn injection_tail(journal: Seq<char>) -> Option<Seq<char>> {
    let facts = journal_facts(journal);
    let content = content_lines(lines(journal));
    let n = JOURNAL_INJECTION_MAX_LINES as nat;
    if facts.len() > 0 {
        Some(join(tail(facts, n), "\n"@))
    } else if content.len() > 0 {
        Some(join(tail(content, n), "\n"@))
    } else {
        None
    }
}

pub fn journal_injection_tail(journal: &str) -> (r: Option<String>)
    ensures
        match r {
            Some(t) => injection_tail(journal@) == Some(t@),
            None => injection_tail(journal@) is None,
        },
{
    let facts = extract_journal_fact_lines(journal);
    assert(views(facts@).len() == facts@.len());
    let selected = if facts.len() > 0 {
        tail_strs(&facts, JOURNAL_INJECTION_MAX_LINES)
    } else {
        let content = extract_journal_content_lines(journal);
        assert(views(content@).len() == content@.len());
        if content.len() == 0 {
            return None;
        }
        tail_strs(&content, JOURNAL_INJECTION_MAX_LINES)
    };
    Some(join_strs(&selected, "\n"))
}

// ---------------------------------------------------------------------------
// Batches
// ---------------------------------------------------------------------------

/// Whether one of the facts has the key.
pub open spec fn has_key(facts: Seq<Seq<char>>, key: Seq<char>) -> bool {
    exists|i: int| 0 <= i < facts.len() && fact_key(#[trigger] facts[i]) == key
}

fn any_has_key(facts: &Vec<String>, key: &str) -> (r: bool)
    ensures
        r == has_key(views(facts@), key@),
{
    let mut i: usize = 0;
    while i < facts.len()
        invariant
            i <= facts@.len(),
            forall|j: int| 0 <= j < i ==> fact_key(#[trigger] views(facts@)[j]) != key@,
        decreases facts@.len() - i,
    {
        if str_eq(fact_dedupe_key(facts[i].as_str()).as_str(), key) {
            assert(fact_key(views(facts@)[i as int]) == key@);
            return true;
        }
        i = i + 1;
    }
    false
}

/// The facts among the lines, each once, until the batch is full.
pub open spec fn batch_facts(ls: Seq<Seq<char>>) -> Seq<Seq<char>>
    decreases ls.len(),
{
    if ls.len() == 0 {
        Seq::empty()
    } else {
        let before = batch_facts(ls.drop_last());
        let line = trim(ls.last());
        if before.len() < JOURNAL_FACT_BATCH_MAX && is_fact(line) && !has_key(
            before,
            fact_key(line),
        ) {
            before.push(line)
        } else {
            before
        }
    }
}

pub struct NormalizedJournalBatch {
    pub lines: Vec<String>,
    pub is_facts: bool,
}

impl NormalizedJournalBatch {
    /// The batch that a note is made into: its facts, or all of it as one piece of text.
    pub open spec fn is_of(&self, note: Seq<char>) -> bool {
        let facts = batch_facts(lines(trim(note)));
        if facts.len() > 0 {
            self.is_facts && views(self.lines@) == facts
        } else {
            !self.is_facts && views(self.lines@) == seq![trim(note)]
        }
    }
}

pub fn normalize_journal_batch(note: &str) -> (r: Option<NormalizedJournalBatch>)
    ensures
        r is None <==> trim(note@).len() == 0,
        r matches Some(batch) ==> batch.is_of(note@),
{
    let trimmed = trim_str(note);
    if trimmed.as_str().is_empty() {
        return None;
    }
    let ls = lines_str(trimmed.as_str());
    let mut facts: Vec<String> = Vec::new();
    let mut i: usize = 0;
    assert(views(ls@).take(0) =~= Seq::<Seq<char>>::empty());
    assert(views(facts@) =~= Seq::<Seq<char>>::empty());
    while i < ls.len()
        invariant
            i <= ls@.len(),
            views(facts@) == batch_facts(views(ls@).take(i as int)),
        decreases ls@.len() - i,
    {
        let ghost before = views(facts@);
        assert(before.len() == facts@.len());
        let line = trim_str(ls[i].as_str());
        assert(views(ls@).take(i + 1).drop_last() =~= views(ls@).take(i as int));
        assert(views(ls@).take(i + 1).last() == ls@[i as int]@);
        if facts.len() < JOURNAL_FACT_BATCH_MAX && is_fact_line(line.as_str()) && !any_has_key(
            &facts,
            fact_dedupe_key(line.as_str()).as_str(),
        ) {
            facts.push(line);
            assert(views(facts@) =~= before.push(trim(ls@[i as int]@)));
        }
        i = i + 1;
    }
    assert(views(ls@).take(ls@.len() as int) =~= views(ls@));
    assert(views(facts@).len() == facts@.len());
    if facts.len() > 0 {
        return Some(NormalizedJournalBatch { lines: facts, is_facts: true });
    }
    let mut whole: Vec<String> = Vec::new();
    whole.push(trimmed);
    assert(views(whole@) =~= seq![trim(note@)]);
    Some(NormalizedJournalBatch { lines: whole, is_facts: false })
}

/// A batch is never over-full, holds facts only, and no fact twice.
pub proof fn lemma_batch_is_capped_and_distinct(ls: Seq<Seq<char>>)
    ensures
        batch_facts(ls).len() <= JOURNAL_FACT_BATCH_MAX,
        forall|i: int| 0 <= i < batch_facts(ls).len() ==> is_fact(#[trigger] batch_facts(ls)[i]),
        forall|i: int, j: int|
            0 <= i < j < batch_facts(ls).len() ==> fact_key(#[trigger] batch_facts(ls)[i])
                != fact_key(#[trigger] batch_facts(ls)[j]),
    decreases ls.len(),
{
    if ls.len() > 0 {
        lemma_batch_is_capped_and_distinct(ls.drop_last());
        let before = batch_facts(ls.drop_last());
        let after = batch_facts(ls);
        if after.len() > before.len() {
            assert forall|i: int, j: int| 0 <= i < j < after.len() implies fact_key(
                #[trigger] after[i],
            ) != fact_key(#[trigger] after[j]) by {
                if j == before.len() {
                    assert(fact_key(before[i]) != fact_key(after[j]));
                } else {
                    assert(after[i] == before[i] && after[j] == before[j]);
                }
            }
        }
    }
}

/// The new facts that repeat neither a recent one nor one another.
pub open spec fn kept_facts(new: Seq<Seq<char>>, recent: Seq<Seq<char>>) -> Seq<Seq<char>>
    decreases new.len(),
{
    if new.len() == 0 {
        Seq::empty()
    } else {
        let before = kept_facts(new.drop_last(), recent);
        let key = fact_key(new.last());
        if has_key(recent, key) || has_key(before, key) {
            before
        } else {
            before.push(new.last())
        }
    }
}

/// A note, ready to be written.
pub struct PreparedJournalNote {
    pub body: String,
    pub lines_written: usize,
    pub duplicates_skipped: usize,
    pub is_facts: bool,
}

/// What becomes of a note that is appended to a journal.
pub struct PreparedNote {
    pub body: Seq<char>,
    pub lines_written: nat,
    pub duplicates_skipped: nat,
    pub is_facts: bool,
}

impl View for PreparedJournalNote {
    type V = PreparedNote;

    open spec fn view(&self) -> PreparedNote {
        PreparedNote {
            body: self.body@,
            lines_written: self.lines_written as nat,
            duplicates_skipped: self.duplicates_skipped as nat,
            is_facts: self.is_facts,
        }
    }
}

/// What is to be written of a note, beside what the journal holds already.
pub open spec fn prepared(note: Seq<char>, journal: Seq<char>) -> Option<PreparedNote> {
    let facts = batch_facts(lines(trim(note)));
    if trim(note).len() == 0 {
        None
    } else if facts.len() == 0 {
        Some(
            PreparedNote {
                body: trim(note),
                lines_written: lines(trim(note)).len(),
                duplicates_skipped: 0,
                is_facts: false,
            },
        )
    } else {
        let kept = kept_facts(
            facts,
            tail(journal_facts(journal), JOURNAL_FACT_DEDUP_WINDOW as nat),
        );
        Some(
            PreparedNote {
                body: join(kept, "\n"@),
                lines_written: kept.len(),
                duplicates_skipped: (facts.len() - kept.len()) as nat,
                is_facts: true,
            },
        )
    }
}

/// Prepares a note for a journal that holds `existing` so far.
pub fn prepare_journal_note(existing: &str, note: &str) -> (r: Option<PreparedJournalNote>)
    ensures
        match r {
            Some(p) => prepared(note@, existing@) == Some(p@),
            None => prepared(note@, existing@) is None,
        },
{
    let normalized = match normalize_journal_batch(note) {
        Some(normalized) => normalized,
        None => {
            return None;
        },
    };
    let new = normalized.lines;
    assert(views(new@).len() == new@.len());
    if !normalized.is_facts {
        assert(views(new@).drop_last() =~= Seq::<Seq<char>>::empty());
        let body = join_strs(&new, "\n");
        return Some(
            PreparedJournalNote {
                lines_written: lines_str(body.as_str()).len(),
                duplicates_skipped: 0,
                body,
                is_facts: false,
            },
        );
    }
    let recent = tail_strs(&extract_journal_fact_lines(existing), JOURNAL_FACT_DEDUP_WINDOW);
    let mut kept: Vec<String> = Vec::new();
    let mut duplicates_skipped: usize = 0;
    let mut i: usize = 0;
    assert(views(new@).take(0) =~= Seq::<Seq<char>>::empty());
    assert(views(kept@) =~= Seq::<Seq<char>>::empty());
    while i < new.len()
        invariant
            i <= new@.len(),
            views(kept@) == kept_facts(views(new@).take(i as int), views(recent@)),
            duplicates_skipped + kept@.len() == i,
        decreases new@.len() - i,
    {
        let ghost before = views(kept@);
        let key = fact_dedupe_key(new[i].as_str());
        assert(views(new@).take(i + 1).drop_last() =~= views(new@).take(i as int));
        assert(views(new@).take(i + 1).last() == new@[i as int]@);
        if any_has_key(&recent, key.as_str()) || any_has_key(&kept, key.as_str()) {
            duplicates_skipped = duplicates_skipped + 1;
        } else {
            kept.push(new[i].clone());
            assert(views(kept@) =~= before.push(new@[i as int]@));
        }
        i = i + 1;
    }
    assert(views(new@).take(new@.len() as int) =~= views(new@));
    assert(views(kept@).len() == kept@.len());
    Some(
        PreparedJournalNote {
            lines_written: kept.len(),
            duplicates_skipped,
            body: join_strs(&kept, "\n"),
            is_facts: true,
        },
    )
}

/// The batch in the answer of a model that was asked for facts.
pub open spec fn extracted_facts(text: Seq<char>) -> Option<Seq<char>> {
    let t = trim(text);
    let body = if starts_with(t, "FACTS"@) {
        trim(without_leading_colons(t.skip("FACTS"@.len() as int)))
    } else {
        t
    };
    let facts = batch_facts(lines(trim(body)));
    if t.len() == 0 || eq_ignore_case(t, "none"@) || facts.len() == 0 {
        None
    } else {
        Some(join(facts, "\n"@))
    }
}

pub open spec fn without_leading_colons(s: Seq<char>) -> Seq<char>
    decreases s.len(),
{
    if s.len() > 0 && s[0] == ':' {
        without_leading_colons(s.skip(1))
    } else {
        s
    }
}

fn trim_leading_colons(s: &str) -> (r: String)
    ensures
        r@ == without_leading_colons(s@),
{
    let v = to_chars(s);
    let mut i: usize = 0;
    assert(v@.skip(0) =~= s@);
    while i < v.len() && v[i] == ':'
        invariant
            i <= v@.len(),
            without_leading_colons(v@.skip(i as int)) == without_leading_colons(s@),
        decreases v@.len() - i,
    {
        assert(v@.skip(i as int).skip(1) =~= v@.skip(i + 1));
        assert(v@.skip(i as int)[0] == v@[i as int]);
        i = i + 1;
    }
    assert(i < v@.len() ==> v@.skip(i as int)[0] == v@[i as int]);
    assert(v@.subrange(i as int, v@.len() as int) =~= v@.skip(i as int));
    from_chars(&v, i, v.len())
}

proof fn lemma_no_facts_in_nothing()
    ensures
        batch_facts(lines(trim(Seq::<char>::empty()))) == Seq::<Seq<char>>::empty(),
{
}

pub fn parse_journal_fact_extract_response(text: &str) -> (r: Option<String>)
    ensures
        match r {
            Some(f) => extracted_facts(text@) == Some(f@),
            None => extracted_facts(text@) is None,
        },
{
    let trimmed = trim_str(text);
    if trimmed.as_str().is_empty() || eq_ignore_case_str(trimmed.as_str(), "none") {
        return None;
    }
    let body = match strip_prefix_str(trimmed.as_str(), "FACTS") {
        Some(rest) => trim_str(trim_leading_colons(rest.as_str()).as_str()),
        None => trimmed,
    };
    if body.as_str().is_empty() {
        assert(body@ =~= Seq::<char>::empty());
        proof {
            lemma_no_facts_in_nothing();
        }
        return None;
    }
    match normalize_journal_batch(body.as_str()) {
        Some(batch) => {
            assert(views(batch.lines@).len() == batch.lines@.len());
            if batch.is_facts {
                Some(join_strs(&batch.lines, "\n"))
            } else {
                None
            }
        },
        None => {
            assert(trim(body@) =~= Seq::<char>::empty());
            proof {
                lemma_no_facts_in_nothing();
            }
            None
        },
    }
}

/// Whether a line announces facts.
pub open spec fn is_facts_header(line: Seq<char>) -> bool {
    eq_ignore_case(trim(line), "facts"@) || eq_ignore_case(trim(line), "facts:"@)
}

/// Where the last line that announces facts stands.
pub open spec fn last_facts_header(ls: Seq<Seq<char>>) -> Option<int>
    decreases ls.len(),
{
    if ls.len() == 0 {
        None
    } else if is_facts_header(ls.last()) {
        Some(ls.len() - 1)
    } else {
        last_facts_header(ls.drop_last())
    }
}

/// The summary and the facts of a hand-over: they part at the last header, where facts follow
/// and a summary precedes it.
pub open spec fn split_summary(text: Seq<char>) -> (Seq<char>, Option<Seq<char>>) {
    let ls = lines(text);
    match last_facts_header(ls) {
        None => (trim(text), None),
        Some(at) => {
            let facts = extracted_facts(join(ls.skip(at + 1), "\n"@));
            let summary = trim(join(ls.take(at), "\n"@));
            if facts is None || summary.len() == 0 {
                (trim(text), None)
            } else {
                (summary, facts)
            }
        },
    }
}

proof fn lemma_last_facts_header_bounds(ls: Seq<Seq<char>>)
    ensures
        last_facts_header(ls) matches Some(k) ==> 0 <= k < ls.len(),
    decreases ls.len(),
{
    if ls.len() > 0 {
        lemma_last_facts_header_bounds(ls.drop_last());
    }
}

fn copy_range(v: &Vec<String>, from: usize, to: usize) -> (r: Vec<String>)
    requires
        from <= to <= v@.len(),
    ensures
        views(r@) == views(v@).subrange(from as int, to as int),
{
    let mut r: Vec<String> = Vec::new();
    let mut i: usize = from;
    assert(views(r@) =~= views(v@).subrange(from as int, from as int));
    while i < to
        invariant
            from <= i <= to <= v@.len(),
            views(r@) == views(v@).subrange(from as int, i as int),
        decreases to - i,
    {
        let ghost before = views(r@);
        r.push(v[i].clone());
        assert(views(r@) =~= before.push(v@[i as int]@));
        assert(views(v@).subrange(from as int, i + 1) =~= views(v@).subrange(
            from as int,
            i as int,
        ).push(views(v@)[i as int]));
        i = i + 1;
    }
    r
}

pub fn split_summary_and_journal_facts(text: &str) -> (r: (String, Option<String>))
    ensures
        r.0@ == split_summary(text@).0,
        match r.1 {
            Some(f) => split_summary(text@).1 == Some(f@),
            None => split_summary(text@).1 is None,
        },
{
    let ls = lines_str(text);
    let mut facts_at: Option<usize> = None;
    let mut i: usize = 0;
    assert(views(ls@).take(0) =~= Seq::<Seq<char>>::empty());
    while i < ls.len()
        invariant
            i <= ls@.len(),
            match facts_at {
                Some(k) => last_facts_header(views(ls@).take(i as int)) == Some(k as int),
                None => last_facts_header(views(ls@).take(i as int)) is None,
            },
        decreases ls@.len() - i,
    {
        assert(views(ls@).take(i + 1).drop_last() =~= views(ls@).take(i as int));
        assert(views(ls@).take(i + 1).last() == ls@[i as int]@);
        let trimmed = trim_str(ls[i].as_str());
        if eq_ignore_case_str(trimmed.as_str(), "facts") || eq_ignore_case_str(
            trimmed.as_str(),
            "facts:",
        ) {
            facts_at = Some(i);
        }
        i = i + 1;
    }
    assert(views(ls@).take(ls@.len() as int) =~= views(ls@));
    match facts_at {
        Some(at) => {
            proof {
                lemma_last_facts_header_bounds(views(ls@));
            }
            let below = copy_range(&ls, at + 1, ls.len());
            let above = copy_range(&ls, 0, at);
            assert(views(below@) =~= views(ls@).skip(at + 1));
            assert(views(above@) =~= views(ls@).take(at as int));
            let facts = parse_journal_fact_extract_response(join_strs(&below, "\n").as_str());
            let summary = trim_str(join_strs(&above, "\n").as_str());
            if facts.is_none() || summary.as_str().is_empty() {
                (trim_str(text), None)
            } else {
                (summary, facts)
            }
        },
        None => (trim_str(text), None),
    }
}

// ---------------------------------------------------------------------------
// The managed headings of the summary
// ---------------------------------------------------------------------------

pub const MANAGED_HEADING_COUNT: usize = 5;

/// The managed headings, in the order in which they are written.
pub open spec fn heading_name(i: int) -> Seq<char> {
    if i == 0 {
        "Goal"@
    } else if i == 1 {
        "State"@
    } else if i == 2 {
        "Decisions"@
    } else if i == 3 {
        "Next"@
    } else {
        "Pitfalls"@
    }
}

pub fn managed_heading(i: usize) -> (r: &'static str)
    ensures
        r@ == heading_name(i as int),
{
    if i == 0 {
        "Goal"
    } else if i == 1 {
        "State"
    } else if i == 2 {
        "Decisions"
    } else if i == 3 {
        "Next"
    } else {
        "Pitfalls"
    }
}

/// Which managed heading `name` is, looked for from the `i`-th on.
pub open spec fn heading_index_from(name: Seq<char>, i: int) -> Option<int>
    decreases MANAGED_HEADING_COUNT - i,
{
    if i >= MANAGED_HEADING_COUNT {
        None
    } else if heading_name(i) == name {
        Some(i)
    } else {
        heading_index_from(name, i + 1)
    }
}

pub open spec fn heading_index(name: Seq<char>) -> Option<int> {
    heading_index_from(name, 0)
}

fn find_heading(name: &str) -> (r: Option<usize>)
    ensures
        match r {
            Some(k) => k < MANAGED_HEADING_COUNT && heading_index(name@) == Some(k as int),
            None => heading_index(name@) is None,
        },
{
    let mut i: usize = 0;
    while i < MANAGED_HEADING_COUNT
        invariant
            i <= MANAGED_HEADING_COUNT,
            heading_index_from(name@, i as int) == heading_index(name@),
        decreases MANAGED_HEADING_COUNT - i,
    {
        if str_eq(managed_heading(i), name) {
            return Some(i);
        }
        i = i + 1;
    }
    None
}

/// The characters of each field.
pub open spec fn field_views(fields: Seq<Option<String>>) -> Seq<Option<Seq<char>>> {
    fields.map_values(
        |f: Option<String>|
            match f {
                Some(s) => Some(s@),
                None => None,
            },
    )
}

/// Whether a fact has the tag, whatever the case of its letters.
pub open spec fn has_tag(line: Seq<char>, tag: Seq<char>) -> bool {
    match split_bar(line) {
        Some((left, _)) => eq_ignore_case(trim(left), tag),
        None => false,
    }
}

fn fact_has_tag(line: &str, tag: &str) -> (r: bool)
    ensures
        r == has_tag(line@, tag@),
{
    match split_bar_str(line) {
        Some((left, _rest)) => eq_ignore_case_str(trim_str(left.as_str()).as_str(), tag),
        None => false,
    }
}

/// A fact without its tag.
pub open spec fn display_body(line: Seq<char>) -> Seq<char> {
    match split_bar(line) {
        Some((_, rest)) => trim(rest),
        None => trim(line),
    }
}

fn fact_display_body(line: &str) -> (r: String)
    ensures
        r@ == display_body(line@),
{
    match split_bar_str(line) {
        Some((_left, rest)) => trim_str(rest.as_str()),
        None => trim_str(line),
    }
}

/// Which facts are looked for.
#[derive(Clone, Copy)]
pub enum FactKind {
    Goal,
    Outcome,
    Decision,
    Next,
    Trouble,
}

pub open spec fn is_of_kind(line: Seq<char>, kind: FactKind) -> bool {
    match kind {
        FactKind::Goal => has_tag(line, "GOAL"@),
        FactKind::Outcome => has_tag(line, "FIX"@) || has_tag(line, "FAIL"@) || has_tag(
            line,
            "BLOCK"@,
        ),
        FactKind::Decision => has_tag(line, "DEC"@),
        FactKind::Next => has_tag(line, "NEXT"@),
        FactKind::Trouble => has_tag(line, "FAIL"@) || has_tag(line, "BLOCK"@),
    }
}

fn fact_is_of_kind(line: &str, kind: FactKind) -> (r: bool)
    ensures
        r == is_of_kind(line@, kind),
{
    match kind {
        FactKind::Goal => fact_has_tag(line, "GOAL"),
        FactKind::Outcome => fact_has_tag(line, "FIX") || fact_has_tag(line, "FAIL")
            || fact_has_tag(line, "BLOCK"),
        FactKind::Decision => fact_has_tag(line, "DEC"),
        FactKind::Next => fact_has_tag(line, "NEXT"),
        FactKind::Trouble => fact_has_tag(line, "FAIL") || fact_has_tag(line, "BLOCK"),
    }
}

/// The latest `n` facts of a kind, oldest first, but none with the key `except`.
pub open spec fn latest(
    facts: Seq<Seq<char>>,
    kind: FactKind,
    except: Option<Seq<char>>,
    n: nat,
) -> Seq<Seq<char>>
    decreases facts.len(),
{
    if n == 0 || facts.len() == 0 {
        Seq::empty()
    } else if is_of_kind(facts.last(), kind) && except != Some(fact_key(facts.last())) {
        latest(facts.drop_last(), kind, except, (n - 1) as nat).push(facts.last())
    } else {
        latest(facts.drop_last(), kind, except, n)
    }
}

fn latest_facts(
    facts: &Vec<String>,
    kind: FactKind,
    except: &Option<String>,
    n: usize,
    upto: usize,
) -> (r: Vec<String>)
    requires
        upto <= facts@.len(),
    ensures
        views(r@) == latest(
            views(facts@).take(upto as int),
            kind,
            match *except {
                Some(k) => Some(k@),
                None => None,
            },
            n as nat,
        ),
    decreases upto,
{
    let ghost seen = views(facts@).take(upto as int);
    if n == 0 || upto == 0 {
        let r: Vec<String> = Vec::new();
        assert(views(r@) =~= Seq::<Seq<char>>::empty());
        return r;
    }
    let line = &facts[upto - 1];
    assert(seen.last() == line@);
    assert(seen.drop_last() =~= views(facts@).take(upto - 1));
    let excepted = match except {
        Some(k) => str_eq(fact_dedupe_key(line.as_str()).as_str(), k.as_str()),
        None => false,
    };
    if fact_is_of_kind(line.as_str(), kind) && !excepted {
        let mut r = latest_facts(facts, kind, except, n - 1, upto - 1);
        let ghost before = views(r@);
        r.push(line.clone());
        assert(views(r@) =~= before.push(line@));
        r
    } else {
        latest_facts(facts, kind, except, n, upto - 1)
    }
}

/// Each fact without its tag.
pub open spec fn bodies(facts: Seq<Seq<char>>) -> Seq<Seq<char>> {
    facts.map_values(|f: Seq<char>| display_body(f))
}

fn joined_bodies(facts: &Vec<String>) -> (r: Option<String>)
    ensures
        r is None <==> facts@.len() == 0,
        r matches Some(t) ==> t@ == join(bodies(views(facts@)), "\n"@),
{
    if facts.len() == 0 {
        return None;
    }
    let mut out: Vec<String> = Vec::new();
    let mut i: usize = 0;
    while i < facts.len()
        invariant
            i <= facts@.len(),
            views(out@) == bodies(views(facts@)).take(i as int),
        decreases facts@.len() - i,
    {
        let ghost before = views(out@);
        out.push(fact_display_body(facts[i].as_str()));
        assert(views(out@) =~= before.push(display_body(facts@[i as int]@)));
        assert(bodies(views(facts@)).take(i + 1) =~= bodies(views(facts@)).take(i as int).push(
            bodies(views(facts@))[i as int],
        ));
        i = i + 1;
    }
    assert(bodies(views(facts@)).take(facts@.len() as int) =~= bodies(views(facts@)));
    Some(join_strs(&out, "\n"))
}

/// The bodies of the facts, one a line; nothing where there is no fact.
pub open spec fn field_of(facts: Seq<Seq<char>>) -> Option<Seq<char>> {
    if facts.len() == 0 {
        None
    } else {
        Some(join(bodies(facts), "\n"@))
    }
}

/// What the facts say under each managed heading: the latest goal, the latest outcome, up to
/// five decisions, the latest next step, and up to three troubles other than that outcome.
pub open spec fn spine_fields(facts: Seq<Seq<char>>) -> Seq<Option<Seq<char>>> {
    let state = latest(facts, FactKind::Outcome, None, 1);
    let state_key = if state.len() == 0 {
        None
    } else {
        Some(fact_key(state.last()))
    };
    seq![
        field_of(latest(facts, FactKind::Goal, None, 1)),
        field_of(state),
        field_of(latest(facts, FactKind::Decision, None, 5)),
        field_of(latest(facts, FactKind::Next, None, 1)),
        field_of(latest(facts, FactKind::Trouble, state_key, 3)),
    ]
}

fn derive_spine_fields(facts: &Vec<String>) -> (r: Vec<Option<String>>)
    ensures
        field_views(r@) == spine_fields(views(facts@)),
{
    let n: usize = facts.len();
    assert(views(facts@).take(n as int) =~= views(facts@));
    let no_key: Option<String> = None;
    let goal = latest_facts(facts, FactKind::Goal, &no_key, 1, n);
    let state = latest_facts(facts, FactKind::Outcome, &no_key, 1, n);
    assert(views(state@).len() == state@.len());
    let state_key = if state.len() == 0 {
        None
    } else {
        Some(fact_dedupe_key(state[state.len() - 1].as_str()))
    };
    let decisions = latest_facts(facts, FactKind::Decision, &no_key, 5, n);
    let next = latest_facts(facts, FactKind::Next, &no_key, 1, n);
    let pitfalls = latest_facts(facts, FactKind::Trouble, &state_key, 3, n);
    let mut r: Vec<Option<String>> = Vec::new();
    r.push(joined_bodies(&goal));
    r.push(joined_bodies(&state));
    r.push(joined_bodies(&decisions));
    r.push(joined_bodies(&next));
    r.push(joined_bodies(&pitfalls));
    assert(field_views(r@) =~= spine_fields(views(facts@)));
    r
}

/// `s` with one more line.
pub open spec fn with_line(s: Seq<char>, line: Seq<char>) -> Seq<char> {
    if s.len() == 0 {
        line
    } else {
        s + "\n"@ + line
    }
}

fn add_line(s: String, line: &str) -> (r: String)
    ensures
        r@ == with_line(s@, line@),
{
    if s.as_str().is_empty() {
        return line.to_string();
    }
    let mut r = s;
    r.append("\n");
    r.append(line);
    r
}

/// A summary, read up to some line: the managed sections so far, all other text, and the
/// managed section that is being read.
pub struct SummaryParse {
    pub managed: Seq<Option<Seq<char>>>,
    pub freeform: Seq<char>,
    pub current: Option<int>,
    pub body: Seq<char>,
}

pub open spec fn no_fields() -> Seq<Option<Seq<char>>> {
    seq![None, None, None, None, None]
}

/// The section that is being read is put where it belongs, unless it is empty.
pub open spec fn flushed(p: SummaryParse) -> Seq<Option<Seq<char>>> {
    match p.current {
        Some(k) if trim(p.body).len() > 0 => p.managed.update(k, Some(trim(p.body))),
        _ => p.managed,
    }
}

pub open spec fn parse_line(p: SummaryParse, line: Seq<char>) -> SummaryParse {
    if starts_with(line, "## "@) {
        match heading_index(trim(line.skip("## "@.len() as int))) {
            Some(k) => SummaryParse {
                managed: flushed(p),
                freeform: p.freeform,
                current: Some(k),
                body: Seq::empty(),
            },
            None => SummaryParse {
                managed: flushed(p),
                freeform: with_line(p.freeform, line),
                current: None,
                body: Seq::empty(),
            },
        }
    } else if p.current is Some {
        SummaryParse { body: with_line(p.body, line), ..p }
    } else {
        SummaryParse { freeform: with_line(p.freeform, line), ..p }
    }
}

pub open spec fn parse_lines(ls: Seq<Seq<char>>) -> SummaryParse
    decreases ls.len(),
{
    if ls.len() == 0 {
        SummaryParse {
            managed: no_fields(),
            freeform: Seq::empty(),
            current: None,
            body: Seq::empty(),
        }
    } else {
        parse_line(parse_lines(ls.drop_last()), ls.last())
    }
}

pub proof fn lemma_heading_index_bounds(name: Seq<char>, i: int)
    requires
        0 <= i,
    ensures
        heading_index_from(name, i) matches Some(k) ==> i <= k < MANAGED_HEADING_COUNT,
    decreases MANAGED_HEADING_COUNT - i,
{
    if i < MANAGED_HEADING_COUNT && heading_name(i) != name {
        lemma_heading_index_bounds(name, i + 1);
    }
}

fn flush(managed: &mut Vec<Option<String>>, current: Option<usize>, body: &str)
    requires
        old(managed)@.len() == MANAGED_HEADING_COUNT,
        current matches Some(k) ==> k < MANAGED_HEADING_COUNT,
    ensures
        final(managed)@.len() == MANAGED_HEADING_COUNT,
        field_views(final(managed)@) == match current {
            Some(k) if trim(body@).len() > 0 => field_views(old(managed)@).update(
                k as int,
                Some(trim(body@)),
            ),
            _ => field_views(old(managed)@),
        },
{
    match current {
        Some(k) => {
            let body = trim_str(body);
            if !body.as_str().is_empty() {
                let ghost before = field_views(managed@);
                let ghost text = body@;
                managed.set(k, Some(body));
                assert(field_views(managed@) =~= before.update(k as int, Some(text)));
            }
        },
        None => {},
    }
}

fn parse_managed_and_freeform(summary: &str) -> (r: (Vec<Option<String>>, String))
    ensures
        r.0@.len() == MANAGED_HEADING_COUNT,
        field_views(r.0@) == flushed(parse_lines(lines(summary@))),
        r.1@ == parse_lines(lines(summary@)).freeform,
{
    let ls = lines_str(summary);
    let mut managed: Vec<Option<String>> = Vec::new();
    managed.push(None);
    managed.push(None);
    managed.push(None);
    managed.push(None);
    managed.push(None);
    assert(field_views(managed@) =~= no_fields());
    let mut freeform = String::new();
    let mut current: Option<usize> = None;
    let mut body = String::new();
    let mut i: usize = 0;
    assert(views(ls@).take(0) =~= Seq::<Seq<char>>::empty());
    while i < ls.len()
        invariant
            i <= ls@.len(),
            managed@.len() == MANAGED_HEADING_COUNT,
            current matches Some(k) ==> k < MANAGED_HEADING_COUNT,
            parse_lines(views(ls@).take(i as int)) == (SummaryParse {
                managed: field_views(managed@),
                freeform: freeform@,
                current: match current {
                    Some(k) => Some(k as int),
                    None => None,
                },
                body: body@,
            }),
        decreases ls@.len() - i,
    {
        let line = &ls[i];
        assert(views(ls@).take(i + 1).drop_last() =~= views(ls@).take(i as int));
        assert(views(ls@).take(i + 1).last() == line@);
        match strip_prefix_str(line.as_str(), "## ") {
            Some(rest) => {
                flush(&mut managed, current, body.as_str());
                body = String::new();
                let heading = find_heading(trim_str(rest.as_str()).as_str());
                if heading.is_none() {
                    freeform = add_line(freeform, line.as_str());
                }
                current = heading;
            },
            None => {
                if current.is_some() {
                    body = add_line(body, line.as_str());
                } else {
                    freeform = add_line(freeform, line.as_str());
                }
            },
        }
        i = i + 1;
    }
    assert(views(ls@).take(ls@.len() as int) =~= views(ls@));
    flush(&mut managed, current, body.as_str());
    (managed, freeform)
}

/// The fields, with those replaced for which there is something new.
pub open spec fn merged(
    managed: Seq<Option<Seq<char>>>,
    derived: Seq<Option<Seq<char>>>,
) -> Seq<Option<Seq<char>>> {
    Seq::new(
        managed.len(),
        |i: int|
            match derived[i] {
                Some(v) if v.len() > 0 => Some(v),
                _ => managed[i],
            },
    )
}

/// The sections under the first `n` managed headings.
pub open spec fn rendered_sections(managed: Seq<Option<Seq<char>>>, n: int) -> Seq<char>
    decreases n,
{
    if n <= 0 {
        Seq::empty()
    } else {
        let before = rendered_sections(managed, n - 1);
        match managed[n - 1] {
            Some(body) if trim(body).len() > 0 => before + "## "@ + heading_name(n - 1) + "\n"@
                + trim(body) + "\n\n"@,
            _ => before,
        }
    }
}

/// Whether a text begins with a heading that is not managed.
pub open spec fn is_headed(freeform: Seq<char>) -> bool {
    let ls = lines(freeform);
    &&& ls.len() > 0
    &&& starts_with(ls[0], "## "@)
    &&& heading_index(trim(ls[0].skip("## "@.len() as int))) is None
}

/// The text outside the managed sections, under a heading of its own.
pub open spec fn rendered_freeform(freeform: Seq<char>) -> Seq<char> {
    if freeform.len() == 0 {
        Seq::empty()
    } else if is_headed(freeform) {
        freeform + "\n"@
    } else {
        "## Context\n"@ + freeform + "\n"@
    }
}

/// The summary that the journal makes of `existing`, where it makes another.
pub open spec fn synced_summary(journal: Seq<char>, existing: Seq<char>) -> Option<Seq<char>> {
    let facts = journal_facts(journal);
    let derived = spine_fields(facts);
    let parsed = parse_lines(lines(existing));
    let managed = merged(flushed(parsed), derived);
    let out = trim(
        rendered_sections(managed, MANAGED_HEADING_COUNT as int) + rendered_freeform(
            trim(parsed.freeform),
        ),
    );
    if facts.len() == 0 || !has_content(derived) || out.len() == 0 || out == trim(existing) {
        None
    } else {
        Some(out)
    }
}

pub open spec fn has_content(fields: Seq<Option<Seq<char>>>) -> bool {
    exists|i: int|
        0 <= i < fields.len() && ((#[trigger] fields[i]) matches Some(v) && v.len() > 0)
}

fn any_content(fields: &Vec<Option<String>>) -> (r: bool)
    ensures
        r == has_content(field_views(fields@)),
{
    let mut i: usize = 0;
    while i < fields.len()
        invariant
            i <= fields@.len(),
            forall|j: int|
                0 <= j < i ==> !((#[trigger] field_views(fields@)[j]) matches Some(v) && v.len()
                    > 0),
        decreases fields@.len() - i,
    {
        assert(field_views(fields@)[i as int] == match fields@[i as int] {
            Some(s) => Some(s@),
            None => None,
        });
        match &fields[i] {
            Some(v) => {
                if !v.as_str().is_empty() {
                    return true;
                }
            },
            None => {},
        }
        i = i + 1;
    }
    false
}

fn starts_with_own_heading(freeform: &str) -> (r: bool)
    ensures
        r == is_headed(freeform@),
{
    let ls = lines_str(freeform);
    assert(views(ls@).len() == ls@.len());
    if ls.len() == 0 {
        return false;
    }
    assert(views(ls@)[0] == ls@[0]@);
    match strip_prefix_str(ls[0].as_str(), "## ") {
        Some(rest) => find_heading(trim_str(rest.as_str()).as_str()).is_none(),
        None => false,
    }
}

/// The summary to write for a journal and the summary that is there, or nothing where it stays.
pub fn sync_project_summary(journal: &str, existing: &str) -> (r: Option<String>)
    ensures
        match r {
            Some(s) => synced_summary(journal@, existing@) == Some(s@),
            None => synced_summary(journal@, existing@) is None,
        },
{
    let facts = extract_journal_fact_lines(journal);
    assert(views(facts@).len() == facts@.len());
    if facts.len() == 0 {
        return None;
    }
    let derived = derive_spine_fields(&facts);
    if !any_content(&derived) {
        return None;
    }
    let (managed, freeform) = parse_managed_and_freeform(existing);
    let ghost all = merged(field_views(managed@), field_views(derived@));
    let mut out = String::new();
    let mut i: usize = 0;
    assert(field_views(derived@).len() == MANAGED_HEADING_COUNT);
    while i < MANAGED_HEADING_COUNT
        invariant
            i <= MANAGED_HEADING_COUNT,
            managed@.len() == MANAGED_HEADING_COUNT,
            derived@.len() == MANAGED_HEADING_COUNT,
            all == merged(field_views(managed@), field_views(derived@)),
            out@ == rendered_sections(all, i as int),
        decreases MANAGED_HEADING_COUNT - i,
    {
        let mut chosen: Option<String> = None;
        match &managed[i] {
            Some(v) => {
                chosen = Some(v.clone());
            },
            None => {},
        }
        match &derived[i] {
            Some(v) => {
                if !v.as_str().is_empty() {
                    chosen = Some(v.clone());
                }
            },
            None => {},
        }
        assert(match chosen {
            Some(v) => all[i as int] == Some(v@),
            None => all[i as int] is None,
        });
        match chosen {
            Some(body) => {
                let body = trim_str(body.as_str());
                if !body.as_str().is_empty() {
                    out.append("## ");
                    out.append(managed_heading(i));
                    out.append("\n");
                    out.append(body.as_str());
                    out.append("\n\n");
                }
            },
            None => {},
        }
        i = i + 1;
    }
    let freeform = trim_str(freeform.as_str());
    let ghost sections = out@;
    if !freeform.as_str().is_empty() {
        if !starts_with_own_heading(freeform.as_str()) {
            out.append("## Context\n");
        }
        out.append(freeform.as_str());
        out.append("\n");
    }
    assert(out@ =~= sections + rendered_freeform(freeform@));
    let trimmed = trim_str(out.as_str());
    if trimmed.as_str().is_empty() || str_eq(
        trim_str(existing).as_str(),
        trimmed.as_str(),
    ) {
        return None;
    }
    Some(trimmed)
}

// ---------------------------------------------------------------------------
// The memory of a worktree
// ---------------------------------------------------------------------------

/// What an append did to the journal.
#[derive(Debug, Clone, Copy, PartialEq, Eq)]
pub struct JournalAppendOutcome {
    /// The lines written into the new section.
    pub lines_written: usize,
    /// The facts left out because the journal holds them already.
    pub duplicates_skipped: usize,
    /// Whether the section holds facts.
    pub is_facts: bool,
}

#[derive(Debug, Clone, Copy)]
pub struct JournalAppendOptions {
    /// Whether the managed headings of the summary follow the facts that are written.
    pub sync_summary: bool,
}

impl Default for JournalAppendOptions {
    fn default() -> (r: Self)
        ensures
            r.sync_summary,
    {
        JournalAppendOptions { sync_summary: true }
    }
}

/// The memory files of one worktree: what the journal and the summary hold, where they exist.
#[derive(Debug)]
pub struct WorktreeMemory {
    pub root: String,
    pub is_directory: bool,
    pub journal: Option<String>,
    pub summary: Option<String>,
}

#[derive(Debug)]
pub enum MemoryError {
    /// The worktree is no directory; the text says so to a user.
    NotADirectory(String),
}

pub open spec fn file_text(file: Option<Seq<char>>) -> Seq<char> {
    match file {
        Some(s) => s,
        None => Seq::empty(),
    }
}

impl WorktreeMemory {
    /// What reading the journal gives.
    pub open spec fn journal_text(&self) -> Seq<char> {
        if self.is_directory {
            file_text(opt_text(self.journal))
        } else {
            Seq::empty()
        }
    }

    /// What reading the summary gives.
    pub open spec fn summary_text(&self) -> Seq<char> {
        trim(file_text(opt_text(self.summary)))
    }

    /// All but the summary is as in `other`.
    pub open spec fn same_but_summary(&self, other: &Self) -> bool {
        &&& self.root == other.root
        &&& self.is_directory == other.is_directory
        &&& self.journal == other.journal
    }
}

pub open spec fn not_a_directory_text(root: Seq<char>) -> Seq<char> {
    "project memory requires a directory worktree, got "@ + root
}

fn ensure_directory_worktree(memory: &WorktreeMemory) -> (r: Result<(), MemoryError>)
    ensures
        r is Ok <==> memory.is_directory,
        r matches Err(MemoryError::NotADirectory(m)) ==> m@ == not_a_directory_text(memory.root@),
{
    if memory.is_directory {
        return Ok(());
    }
    let mut m = "project memory requires a directory worktree, got ".to_string();
    m.append(memory.root.as_str());
    Err(MemoryError::NotADirectory(m))
}

pub fn read_journal(memory: &WorktreeMemory) -> (r: String)
    ensures
        r@ == memory.journal_text(),
{
    if memory.is_directory {
        match &memory.journal {
            Some(text) => text.clone(),
            None => String::new(),
        }
    } else {
        String::new()
    }
}

pub fn read_project_summary(memory: &WorktreeMemory) -> (r: Option<String>)
    ensures
        r is None <==> memory.summary_text().len() == 0,
        r matches Some(t) ==> t@ == memory.summary_text(),
{
    match &memory.summary {
        Some(text) => {
            let trimmed = trim_str(text.as_str());
            if trimmed.as_str().is_empty() {
                None
            } else {
                Some(trimmed)
            }
        },
        None => None,
    }
}

/// Replaces the summary, unless the new one is blank.
pub fn write_project_summary(memory: &mut WorktreeMemory, summary: &str) -> (r: Result<
    (),
    MemoryError,
>)
    ensures
        final(memory).same_but_summary(old(memory)),
        r is Err <==> trim(summary@).len() > 0 && !old(memory).is_directory,
        r matches Err(MemoryError::NotADirectory(m)) ==> m@ == not_a_directory_text(
            old(memory).root@,
        ),
        if trim(summary@).len() > 0 && old(memory).is_directory {
            opt_text(final(memory).summary) == Some(trim(summary@) + "\n"@)
        } else {
            final(memory).summary == old(memory).summary
        },
{
    let summary = trim_str(summary);
    if summary.as_str().is_empty() {
        return Ok(());
    }
    match ensure_directory_worktree(memory) {
        Ok(()) => {},
        Err(e) => {
            return Err(e);
        },
    }
    let mut text = summary;
    text.append("\n");
    memory.summary = Some(text);
    Ok(())
}

/// Brings the managed headings of the summary up to date with the journal.
/// Says whether the summary has changed.
pub fn sync_project_summary_from_journal(memory: &mut WorktreeMemory) -> (r: bool)
    ensures
        final(memory).same_but_summary(old(memory)),
        match synced_summary(old(memory).journal_text(), old(memory).summary_text()) {
            Some(text) if old(memory).is_directory => r && opt_text(final(memory).summary)
                == Some(trim(text) + "\n"@),
            _ => !r && final(memory).summary == old(memory).summary,
        },
{
    if !memory.is_directory {
        return false;
    }
    let journal = read_journal(memory);
    let existing = match read_project_summary(memory) {
        Some(text) => text,
        None => String::new(),
    };
    assert(existing@ =~= memory.summary_text());
    match sync_project_summary(journal.as_str(), existing.as_str()) {
        Some(text) => {
            let mut file = trim_str(text.as_str());
            file.append("\n");
            memory.summary = Some(file);
            true
        },
        None => false,
    }
}

/// The section that a note becomes.
pub open spec fn journal_section(stamp: Seq<char>, body: Seq<char>) -> Seq<char> {
    "\n## "@ + stamp + "\n"@ + body + "\n"@
}

/// The journal with one more section; a new journal begins with a title.
pub open spec fn appended_journal(
    journal: Option<Seq<char>>,
    stamp: Seq<char>,
    body: Seq<char>,
) -> Seq<char> {
    match journal {
        Some(text) => text + journal_section(stamp, body),
        None => "# Project Journal\n"@ + journal_section(stamp, body),
    }
}

/// Whether `r` tells what became of a prepared note.
pub open spec fn outcome_is(r: JournalAppendOutcome, note: PreparedNote) -> bool {
    &&& r.lines_written == note.lines_written
    &&& r.duplicates_skipped == note.duplicates_skipped
    &&& r.is_facts == note.is_facts
}

/// Whether a note that must be written finds no directory to be written in.
pub open spec fn has_no_place(memory: WorktreeMemory, note: Seq<char>) -> bool {
    match prepared(note, memory.journal_text()) {
        Some(p) => p.lines_written > 0 && !memory.is_directory,
        None => false,
    }
}

/// What is written of a note, if it can be written.
pub open spec fn to_be_written(memory: WorktreeMemory, note: Seq<char>) -> PreparedNote {
    match prepared(note, memory.journal_text()) {
        Some(p) => p,
        None => PreparedNote {
            body: Seq::empty(),
            lines_written: 0,
            duplicates_skipped: 0,
            is_facts: false,
        },
    }
}

/// Whether `after` is `before` with a note appended under `stamp`. Where the summary is to follow,
/// it does so for facts.
pub open spec fn is_appended(
    before: WorktreeMemory,
    after: WorktreeMemory,
    note: Seq<char>,
    sync_summary: bool,
    stamp: Seq<char>,
) -> bool {
    &&& after.root == before.root
    &&& after.is_directory == before.is_directory
    &&& match prepared(note, before.journal_text()) {
        None => after == before,
        Some(p) => if p.lines_written == 0 || !before.is_directory {
            after == before
        } else {
            let journal = appended_journal(opt_text(before.journal), stamp, p.body);
            &&& opt_text(after.journal) == Some(journal)
            &&& match synced_summary(journal, before.summary_text()) {
                Some(text) if sync_summary && p.is_facts => opt_text(after.summary) == Some(
                    trim(text) + "\n"@,
                ),
                _ => after.summary == before.summary,
            }
        },
    }
}

/// Appends a note as one section under `stamp`, and lets the summary follow.
pub fn append_journal_with_options(
    memory: &mut WorktreeMemory,
    note: &str,
    options: JournalAppendOptions,
    stamp: &str,
) -> (r: Result<JournalAppendOutcome, MemoryError>)
    ensures
        is_appended(*old(memory), *final(memory), note@, options.sync_summary, stamp@),
        if has_no_place(*old(memory), note@) {
            r matches Err(MemoryError::NotADirectory(m)) && m@ == not_a_directory_text(
                old(memory).root@,
            )
        } else {
            r matches Ok(o) && outcome_is(o, to_be_written(*old(memory), note@))
        },
{
    let existing = read_journal(memory);
    let prepared_note = match prepare_journal_note(existing.as_str(), note) {
        Some(p) => p,
        None => {
            return Ok(
                JournalAppendOutcome { lines_written: 0, duplicates_skipped: 0, is_facts: false },
            );
        },
    };
    let outcome = JournalAppendOutcome {
        lines_written: prepared_note.lines_written,
        duplicates_skipped: prepared_note.duplicates_skipped,
        is_facts: prepared_note.is_facts,
    };
    if prepared_note.lines_written == 0 {
        return Ok(outcome);
    }
    match ensure_directory_worktree(memory) {
        Ok(()) => {},
        Err(e) => {
            return Err(e);
        },
    }
    let mut section = "\n## ".to_string();
    section.append(stamp);
    section.append("\n");
    section.append(prepared_note.body.as_str());
    section.append("\n");
    let mut text = match &memory.journal {
        Some(text) => text.clone(),
        None => "# Project Journal\n".to_string(),
    };
    text.append(section.as_str());
    memory.journal = Some(text);
    if options.sync_summary && prepared_note.is_facts {
        sync_project_summary_from_journal(memory);
    }
    Ok(outcome)
}

/// Appends a note as one section under `stamp`; the summary follows the facts in it.
pub fn append_journal(memory: &mut WorktreeMemory, note: &str, stamp: &str) -> (r: Result<
    JournalAppendOutcome,
    MemoryError,
>)
    ensures
        is_appended(*old(memory), *final(memory), note@, true, stamp@),
        if has_no_place(*old(memory), note@) {
            r matches Err(MemoryError::NotADirectory(m)) && m@ == not_a_directory_text(
                old(memory).root@,
            )
        } else {
            r matches Ok(o) && outcome_is(o, to_be_written(*old(memory), note@))
        },
{
    append_journal_with_options(memory, note, JournalAppendOptions::default(), stamp)
}

/// The latest facts of the journal, newest last.
pub fn recent_journal_facts(memory: &WorktreeMemory, limit: usize) -> (r: Vec<String>)
    ensures
        views(r@) == tail(journal_facts(memory.journal_text()), limit as nat),
{
    let journal = read_journal(memory);
    tail_strs(&extract_journal_fact_lines(journal.as_str()), limit)
}

pub open spec fn summary_part(root: Seq<char>, summary: Seq<char>) -> Seq<char> {
    "Project summary for `"@ + root + "` (from a previous session):\n"@ + summary
}

pub open spec fn journal_part(root: Seq<char>, facts: Seq<char>) -> Seq<char> {
    "Recent project journal facts for `"@ + root + "` (use `read_journal` for the full log):\n"@
        + facts
}

/// What a prompt is told of one worktree.
pub open spec fn memory_parts(memory: WorktreeMemory) -> Seq<Seq<char>> {
    let summary = if memory.summary_text().len() > 0 {
        seq![summary_part(memory.root@, memory.summary_text())]
    } else {
        Seq::empty()
    };
    let facts = match injection_tail(memory.journal_text()) {
        Some(facts) => seq![journal_part(memory.root@, facts)],
        None => Seq::empty(),
    };
    summary + facts
}

/// What a prompt is told of all worktrees.
pub open spec fn all_memory_parts(memories: Seq<WorktreeMemory>) -> Seq<Seq<char>>
    decreases memories.len(),
{
    if memories.len() == 0 {
        Seq::empty()
    } else {
        all_memory_parts(memories.drop_last()) + memory_parts(memories.last())
    }
}

/// The memory block of a prompt: each summary, and the latest facts of each journal.
pub fn format_project_memory_context(memories: &Vec<WorktreeMemory>) -> (r: Option<String>)
    ensures
        r is None <==> all_memory_parts(memories@).len() == 0,
        r matches Some(text) ==> text@ == join(all_memory_parts(memories@), "\n\n"@),
{
    let mut parts: Vec<String> = Vec::new();
    let mut i: usize = 0;
    assert(memories@.take(0) =~= Seq::<WorktreeMemory>::empty());
    assert(views(parts@) =~= Seq::<Seq<char>>::empty());
    while i < memories.len()
        invariant
            i <= memories@.len(),
            views(parts@) == all_memory_parts(memories@.take(i as int)),
        decreases memories@.len() - i,
    {
        let memory = &memories[i];
        let ghost before = views(parts@);
        assert(memories@.take(i + 1).drop_last() =~= memories@.take(i as int));
        assert(memories@.take(i + 1).last() == memory);
        match read_project_summary(memory) {
            Some(summary) => {
                let mut part = "Project summary for `".to_string();
                part.append(memory.root.as_str());
                part.append("` (from a previous session):\n");
                part.append(summary.as_str());
                parts.push(part);
                assert(views(parts@) =~= before.push(
                    summary_part(memory.root@, memory.summary_text()),
                ));
            },
            None => {},
        }
        let ghost between = views(parts@);
        let journal = read_journal(memory);
        match journal_injection_tail(journal.as_str()) {
            Some(facts) => {
                let mut part = "Recent project journal facts for `".to_string();
                part.append(memory.root.as_str());
                part.append("` (use `read_journal` for the full log):\n");
                part.append(facts.as_str());
                parts.push(part);
                assert(views(parts@) =~= between.push(journal_part(memory.root@, facts@)));
            },
            None => {},
        }
        assert(views(parts@) =~= before + memory_parts(*memory));
        i = i + 1;
    }
    assert(memories@.take(memories@.len() as int) =~= memories@);
    assert(views(parts@).len() == parts@.len());
    if parts.len() == 0 {
        None
    } else {
        Some(join_strs(&parts, "\n\n"))
    }
}

/// A worktree of a project.
#[derive(Debug)]
pub struct Worktree {
    pub path: String,
    /// It holds one file only, as a tab that shows a file does.
    pub is_single_file: bool,
    pub is_local: bool,
    /// Its path leads to a directory.
    pub is_directory: bool,
}

impl Worktree {
    /// Whether a worktree can hold memory files.
    pub open spec fn can_hold_memory(&self) -> bool {
        !self.is_single_file && self.is_local && self.is_directory
    }
}

/// The paths of the worktrees that can hold memory files, in their order.
pub open spec fn memory_roots(worktrees: Seq<Worktree>) -> Seq<Seq<char>>
    decreases worktrees.len(),
{
    if worktrees.len() == 0 {
        Seq::empty()
    } else {
        let before = memory_roots(worktrees.drop_last());
        if worktrees.last().can_hold_memory() {
            before.push(worktrees.last().path@)
        } else {
            before
        }
    }
}

/// The paths of the worktrees that can hold memory files.
pub fn worktree_roots(worktrees: &Vec<Worktree>) -> (r: Vec<String>)
    ensures
        views(r@) == memory_roots(worktrees@),
{
    let mut roots: Vec<String> = Vec::new();
    let mut i: usize = 0;
    assert(worktrees@.take(0) =~= Seq::<Worktree>::empty());
    assert(views(roots@) =~= Seq::<Seq<char>>::empty());
    while i < worktrees.len()
        invariant
            i <= worktrees@.len(),
            views(roots@) == memory_roots(worktrees@.take(i as int)),
        decreases worktrees@.len() - i,
    {
        let ghost before = views(roots@);
        assert(worktrees@.take(i + 1).drop_last() =~= worktrees@.take(i as int));
        let w = &worktrees[i];
        if !w.is_single_file && w.is_local && w.is_directory {
            roots.push(w.path.clone());
            assert(views(roots@) =~= before.push(w.path@));
        }
        i = i + 1;
    }
    assert(worktrees@.take(worktrees@.len() as int) =~= worktrees@);
    roots
}

/// The first worktree that can hold memory files.
pub fn primary_worktree_root(worktrees: &Vec<Worktree>) -> (r: Option<String>)
    ensures
        r is None <==> memory_roots(worktrees@).len() == 0,
        r matches Some(root) ==> root@ == memory_roots(worktrees@)[0],
{
    let roots = worktree_roots(worktrees);
    assert(views(roots@).len() == roots@.len());
    if roots.len() == 0 {
        None
    } else {
        assert(views(roots@)[0] == roots@[0]@);
        Some(roots[0].clone())
    }
}

/// Writes a summary to every worktree. One that is no directory is passed over.
pub fn persist_summary_to_worktrees(memories: &mut Vec<WorktreeMemory>, summary: &str)
    ensures
        final(memories)@.len() == old(memories)@.len(),
        forall|i: int|
            #![trigger final(memories)@[i]]
            0 <= i < old(memories)@.len() ==> {
                &&& final(memories)@[i].same_but_summary(&old(memories)@[i])
                &&& if trim(summary@).len() > 0 && old(memories)@[i].is_directory {
                    opt_text(final(memories)@[i].summary) == Some(trim(summary@) + "\n"@)
                } else {
                    final(memories)@[i].summary == old(memories)@[i].summary
                }
            },
{
    let n: usize = memories.len();
    let mut i: usize = 0;
    while i < n
        invariant
            i <= n,
            n == memories@.len(),
            n == old(memories)@.len(),
            forall|j: int| i <= j < n ==> memories@[j] == old(memories)@[j],
            forall|j: int|
                #![trigger memories@[j]]
                0 <= j < i ==> {
                    &&& memories@[j].same_but_summary(&old(memories)@[j])
                    &&& if trim(summary@).len() > 0 && old(memories)@[j].is_directory {
                        opt_text(memories@[j].summary) == Some(trim(summary@) + "\n"@)
                    } else {
                        memories@[j].summary == old(memories)@[j].summary
                    }
                },
        decreases n - i,
    {
        let _ = write_project_summary(&mut memories[i], summary);
        i = i + 1;
    }
}

/// Appends facts to the journal of every worktree, each under its stamp. One that is no directory
/// is passed over. The summaries follow only where that is asked for.
pub fn persist_journal_facts_to_worktrees(
    memories: &mut Vec<WorktreeMemory>,
    facts: &str,
    sync_summary: bool,
    stamps: &Vec<String>,
)
    requires
        stamps@.len() == old(memories)@.len(),
    ensures
        final(memories)@.len() == old(memories)@.len(),
        trim(facts@).len() == 0 ==> final(memories)@ == old(memories)@,
        trim(facts@).len() > 0 ==> forall|i: int|
            #![trigger final(memories)@[i]]
            0 <= i < old(memories)@.len() ==> is_appended(
                old(memories)@[i],
                final(memories)@[i],
                trim(facts@),
                sync_summary,
                stamps@[i]@,
            ),
{
    let facts = trim_str(facts);
    if facts.as_str().is_empty() {
        return;
    }
    let n: usize = memories.len();
    let mut i: usize = 0;
    while i < n
        invariant
            i <= n,
            n == memories@.len(),
            n == old(memories)@.len(),
            n == stamps@.len(),
            forall|j: int| i <= j < n ==> memories@[j] == old(memories)@[j],
            forall|j: int|
                #![trigger memories@[j]]
                0 <= j < i ==> is_appended(
                    old(memories)@[j],
                    memories@[j],
                    facts@,
                    sync_summary,
                    stamps@[j]@,
                ),
        decreases n - i,
    {
        let _ = append_journal_with_options(
            &mut memories[i],
            facts.as_str(),
            JournalAppendOptions { sync_summary },
            stamps[i].as_str(),
        );
        i = i + 1;
    }
}

} // verus!
