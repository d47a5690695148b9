use unleashed_agent::project_memory::{
    append_journal, append_journal_with_options, format_project_memory_context,
    journal_injection_tail, journal_path, normalize_journal_batch,
    parse_journal_fact_extract_response, persist_journal_facts_to_worktrees,
    persist_summary_to_worktrees, primary_worktree_root, project_summary_path, read_journal,
    read_project_summary, recent_journal_facts, split_summary_and_journal_facts,
    sync_project_summary_from_journal, worktree_roots, write_project_summary, JournalAppendOptions,
    MemoryError, Worktree, WorktreeMemory, JOURNAL_FACT_BATCH_MAX, JOURNAL_INJECTION_MAX_LINES,
};

const STAMP: &str = "2026-01-01 00:00 UTC";

fn directory() -> WorktreeMemory {
    WorktreeMemory {
        root: "/work/project".to_string(),
        is_directory: true,
        journal: None,
        summary: None,
    }
}

#[test]
fn test_journal_append_and_read() {
    let mut memory = directory();

    assert_eq!(read_journal(&memory), "");
    append_journal(&mut memory, "First decision.", STAMP).unwrap();
    append_journal(&mut memory, "Second decision.", STAMP).unwrap();

    let text = read_journal(&memory);
    assert!(text.contains("# Project Journal"));
    assert!(text.contains("First decision."));
    assert!(text.contains("Second decision."));
}

#[test]
fn test_project_summary_round_trip() {
    let mut memory = directory();

    assert_eq!(read_project_summary(&memory), None);
    write_project_summary(&mut memory, "Shipped feature X.").unwrap();
    assert_eq!(
        read_project_summary(&memory).as_deref(),
        Some("Shipped feature X.")
    );
}

#[test]
fn test_format_project_memory_context() {
    let mut memory = directory();
    write_project_summary(&mut memory, "Summary text.").unwrap();
    append_journal(&mut memory, "Journal note.", STAMP).unwrap();

    let context = format_project_memory_context(&vec![memory]).unwrap();
    assert!(context.contains("Summary text."));
    assert!(context.contains("Journal note."));
    assert!(context.contains("read_journal"));
}

#[test]
fn test_journal_injection_prefers_fact_lines_and_tails() {
    let mut journal = String::from("# Project Journal\n");
    for i in 1..=40 {
        journal.push_str(&format!(
            "\n## 2026-01-01 00:{i:02} UTC\nDEC | decision number {i} | notes/x.md\n"
        ));
    }
    // Freeform noise that must not displace fact selection.
    journal.push_str("\n## aside\njust some prose without a tag\n");

    let tail = journal_injection_tail(&journal).unwrap();
    let lines: Vec<_> = tail.lines().collect();
    assert_eq!(lines.len(), JOURNAL_INJECTION_MAX_LINES);
    assert!(lines[0].contains("decision number 16"), "{tail}");
    assert!(lines.last().unwrap().contains("decision number 40"));
    assert!(!tail.contains("just some prose"));
}

#[test]
fn test_journal_injection_falls_back_to_content_lines() {
    let journal = r#"
# Project Journal

## 2026-01-01 00:00 UTC
First freeform note.

## 2026-01-01 00:01 UTC
Second freeform note.
"#;
    let tail = journal_injection_tail(journal).unwrap();
    assert!(tail.contains("First freeform note."));
    assert!(tail.contains("Second freeform note."));
    assert!(!tail.contains("# Project Journal"));
}

#[test]
fn test_format_project_memory_context_does_not_dump_full_journal() {
    let mut memory = directory();
    write_project_summary(&mut memory, "Spine.").unwrap();
    for i in 1..=30 {
        append_journal(&mut memory, &format!("DEC | item {i} | n/a"), STAMP).unwrap();
    }

    let context = format_project_memory_context(&vec![memory]).unwrap();
    assert!(context.contains("Spine."));
    assert!(context.contains("DEC | item 30 | n/a"));
    assert!(!context.contains("DEC | item 1 | n/a"));
    assert_eq!(
        context
            .lines()
            .filter(|line| line.starts_with("DEC |"))
            .count(),
        JOURNAL_INJECTION_MAX_LINES
    );
}

#[test]
fn test_project_memory_rejects_file_worktree_roots() {
    let mut memory = directory();
    memory.root = "/work/opened-thread-export.md".to_string();
    memory.is_directory = false;

    let err = append_journal(&mut memory, "should not write", STAMP).unwrap_err();
    assert!(matches!(err, MemoryError::NotADirectory(_)));

    let err = write_project_summary(&mut memory, "should not write").unwrap_err();
    assert!(matches!(err, MemoryError::NotADirectory(_)));

    assert_eq!(read_journal(&memory), "");
    assert_eq!(read_project_summary(&memory), None);
    assert!(memory.journal.is_none() && memory.summary.is_none());
}

#[test]
fn test_journal_append_still_works_when_journal_already_exists() {
    let mut memory = directory();
    append_journal(&mut memory, "first", STAMP).unwrap();
    append_journal(&mut memory, "second", STAMP).unwrap();
    let text = read_journal(&memory);
    assert!(text.contains("first"));
    assert!(text.contains("second"));
    // Overwriting summary repeatedly must not hit AlreadyExists.
    write_project_summary(&mut memory, "one").unwrap();
    write_project_summary(&mut memory, "two").unwrap();
    assert_eq!(read_project_summary(&memory).as_deref(), Some("two"));
}

#[test]
fn test_normalize_journal_batch_caps_and_dedupes() {
    let note = "\
GOAL | Ship memory stress
DEC | Use SQLite
DEC | Use SQLite
PATH | notes/decisions.md
FAIL | bad path
FIX | recovered
NEXT | report
URL | https://example.com
PREF | no computer_use
BLOCK | waiting on rebuild
API | append_journal
EXTRA | should be dropped because over cap
";
    let batch = normalize_journal_batch(note).unwrap();
    assert!(batch.is_facts);
    assert_eq!(batch.lines.len(), JOURNAL_FACT_BATCH_MAX);
    assert!(batch.lines.iter().any(|line| line.starts_with("GOAL |")));
    assert_eq!(
        batch
            .lines
            .iter()
            .filter(|line| line.contains("Use SQLite"))
            .count(),
        1
    );
    assert!(!batch.lines.iter().any(|line| line.starts_with("EXTRA |")));
}

#[test]
fn test_append_journal_batches_facts_into_one_section() {
    let mut memory = directory();
    let outcome = append_journal(
        &mut memory,
        "\
GOAL | Batch test
DEC | One section only
NEXT | Verify timestamp count
",
        STAMP,
    )
    .unwrap();
    assert_eq!(outcome.lines_written, 3);
    assert_eq!(outcome.duplicates_skipped, 0);

    let text = read_journal(&memory);
    let stamps = text.matches("## ").count();
    assert_eq!(stamps, 1, "expected a single timestamped section:\n{text}");
    assert!(text.contains("GOAL | Batch test"));
    assert!(text.contains("DEC | One section only"));
    assert!(text.contains("NEXT | Verify timestamp count"));
}

#[test]
fn test_append_journal_skips_recent_duplicate_facts() {
    let mut memory = directory();
    append_journal(&mut memory, "DEC | Use SQLite | notes/decisions.md", STAMP).unwrap();
    let outcome = append_journal(
        &mut memory,
        "\
DEC | Use SQLite | notes/decisions.md
DEC | Brand new decision
",
        STAMP,
    )
    .unwrap();
    assert_eq!(outcome.lines_written, 1);
    assert_eq!(outcome.duplicates_skipped, 1);

    let text = read_journal(&memory);
    assert_eq!(
        text.lines()
            .filter(|line| line.contains("Use SQLite"))
            .count(),
        1
    );
    assert!(text.contains("Brand new decision"));
}

#[test]
fn test_split_summary_and_journal_facts() {
    let text = "\
Goal: Ship memory
Next: rebuild

FACTS
GOAL | Ship memory pipeline
DEC | Batched journal writes
NEXT | Rebuild LEAD
";
    let (summary, facts) = split_summary_and_journal_facts(text);
    assert!(summary.contains("Goal: Ship memory"));
    assert!(!summary.contains("FACTS"));
    let facts = facts.unwrap();
    assert!(facts.contains("GOAL | Ship memory pipeline"));
    assert!(facts.contains("DEC | Batched journal writes"));
    assert_eq!(facts.lines().count(), 3);
}

#[test]
fn test_split_summary_ignores_mid_summary_facts_heading() {
    let text = "\
Goal: remember things

Facts:
the corpus has secret codes ALPHA and BRAVO that matter.
Next: quiz the agent

FACTS
GOAL | Pass context quiz
DEC | ALPHA-719 is Orion ship date
";
    let (summary, facts) = split_summary_and_journal_facts(text);
    assert!(summary.contains("Facts:"));
    assert!(summary.contains("secret codes ALPHA"));
    assert!(summary.contains("Next: quiz the agent"));
    assert!(!summary.contains("GOAL | Pass context quiz"));
    let facts = facts.unwrap();
    assert!(facts.contains("GOAL | Pass context quiz"));
    assert!(facts.contains("ALPHA-719"));
}

#[test]
fn test_split_summary_keeps_full_text_when_only_facts_block() {
    let text = "\
FACTS
GOAL | Only facts no prose
";
    let (summary, facts) = split_summary_and_journal_facts(text);
    assert!(summary.contains("FACTS"));
    assert!(summary.contains("GOAL | Only facts no prose"));
    assert_eq!(facts, None);
}

#[test]
fn test_split_summary_keeps_full_text_when_facts_unusable() {
    let text = "\
Goal: keep going

FACTS
none of this is tagged
";
    let (summary, facts) = split_summary_and_journal_facts(text);
    assert!(summary.contains("FACTS"));
    assert!(summary.contains("none of this is tagged"));
    assert_eq!(facts, None);
}

#[test]
fn test_parse_journal_fact_extract_none() {
    assert_eq!(parse_journal_fact_extract_response("NONE"), None);
    assert_eq!(parse_journal_fact_extract_response("none\n"), None);
    assert_eq!(
        parse_journal_fact_extract_response("just some prose without tags"),
        None
    );
}

#[test]
fn test_append_journal_reports_duplicates_when_nothing_written() {
    let mut memory = directory();
    append_journal(&mut memory, "DEC | Use SQLite | notes/decisions.md", STAMP).unwrap();
    let outcome = append_journal(&mut memory, "DEC | Use SQLite | notes/decisions.md", STAMP).unwrap();
    assert_eq!(outcome.lines_written, 0);
    assert_eq!(outcome.duplicates_skipped, 1);
}

#[test]
fn test_fact_dedupe_ignores_evidence_and_case_drift() {
    let mut memory = directory();
    append_journal(&mut memory, "DEC | Use SQLite | notes/a.md", STAMP).unwrap();
    let outcome = append_journal(&mut memory, "DEC | use   sqlite | notes/b.md", STAMP).unwrap();
    assert_eq!(outcome.lines_written, 0);
    assert_eq!(outcome.duplicates_skipped, 1);
}

#[test]
fn test_sync_project_summary_from_journal_upserts_headings() {
    let mut memory = directory();
    append_journal(
        &mut memory,
        "\
GOAL | Ship memory pipeline
DEC | Prefer TAG|claim journal
NEXT | Rebuild LEAD
FAIL | Flaky extract on empty turns
",
        STAMP,
    )
    .unwrap();

    let summary = read_project_summary(&memory).unwrap();
    assert!(summary.contains("## Goal"));
    assert!(summary.contains("Ship memory pipeline"));
    assert!(summary.contains("## Decisions"));
    assert!(summary.contains("Prefer TAG|claim journal"));
    assert!(summary.contains("## Next"));
    assert!(summary.contains("Rebuild LEAD"));
    assert!(summary.contains("## State"));
    assert!(summary.contains("Flaky extract"));
}

#[test]
fn test_sync_preserves_freeform_and_does_not_clear_missing_headings() {
    let mut memory = directory();
    write_project_summary(
        &mut memory,
        "\
## Goal
Rich compaction goal narrative with lots of detail.

## Context
Keep this freeform handoff body.

## Next
Old next step
",
    )
    .unwrap();

    append_journal_with_options(
        &mut memory,
        "DEC | Only a decision\nNEXT | New next step",
        JournalAppendOptions {
            sync_summary: true,
        },
        STAMP,
    )
    .unwrap();

    let summary = read_project_summary(&memory).unwrap();
    assert!(summary.contains("Rich compaction goal narrative"));
    assert!(summary.contains("Keep this freeform handoff body"));
    assert!(summary.contains("New next step"));
    assert!(summary.contains("Only a decision"));
}

#[test]
fn test_sync_skipped_when_append_disables_it() {
    let mut memory = directory();
    write_project_summary(&mut memory, "## Goal\nCompaction authored\n").unwrap();
    append_journal_with_options(
        &mut memory,
        "GOAL | Should not rewrite summary\nDEC | Still journals",
        JournalAppendOptions {
            sync_summary: false,
        },
        STAMP,
    )
    .unwrap();

    let summary = read_project_summary(&memory).unwrap();
    assert_eq!(summary.trim(), "## Goal\nCompaction authored");
    assert!(read_journal(&memory).contains("Should not rewrite summary"));
}

#[test]
fn test_empty_journal_sync_is_noop() {
    let mut memory = directory();
    write_project_summary(&mut memory, "Leave me alone.").unwrap();
    assert!(!sync_project_summary_from_journal(&mut memory));
    assert_eq!(
        read_project_summary(&memory).as_deref(),
        Some("Leave me alone.")
    );
}

#[test]
fn test_pitfalls_excludes_state_line() {
    let mut memory = directory();
    append_journal(
        &mut memory,
        "\
FAIL | First failure
BLOCK | Later blocker
",
        STAMP,
    )
    .unwrap();
    let summary = read_project_summary(&memory).unwrap();
    assert!(summary.contains("## State"));
    assert!(summary.contains("Later blocker"));
    // Only one FAIL/BLOCK besides State → Pitfalls gets First failure.
    assert!(summary.contains("## Pitfalls"));
    assert!(summary.contains("First failure"));
    let state_section = summary
        .split("## State")
        .nth(1)
        .unwrap()
        .split("## ")
        .next()
        .unwrap();
    assert!(!state_section.contains("First failure"));
}

#[test]
fn the_error_names_the_root() {
    let mut memory = directory();
    memory.is_directory = false;
    let MemoryError::NotADirectory(text) = append_journal(&mut memory, "x", STAMP).unwrap_err();
    assert_eq!(text, "project memory requires a directory worktree, got /work/project");
    let outcome = append_journal(&mut memory, "  ", STAMP).unwrap();
    assert_eq!(outcome.lines_written, 0);
}

#[test]
fn memory_files_have_their_places() {
    assert_eq!(journal_path("/w"), "/w/.local_agent/JOURNAL.md");
    assert_eq!(project_summary_path("/w"), "/w/.local_agent/project_summary.md");
}

#[test]
fn a_section_is_written_exactly() {
    let mut memory = directory();
    append_journal(&mut memory, " DEC | one ", STAMP).unwrap();
    assert_eq!(
        memory.journal.as_deref(),
        Some("# Project Journal\n\n## 2026-01-01 00:00 UTC\nDEC | one\n")
    );
    assert_eq!(memory.summary.as_deref(), Some("## Decisions\none\n"));
}

#[test]
fn appended_facts_are_read_back_in_order() {
    let mut memory = directory();
    memory.journal = Some("free text\nGOAL | old".to_string());
    let outcome = append_journal(&mut memory, "DEC | a\nprose\nNEXT | b", STAMP).unwrap();
    assert_eq!((outcome.lines_written, outcome.is_facts), (2, true));
    assert_eq!(recent_journal_facts(&memory, 10), vec!["GOAL | old", "DEC | a", "NEXT | b"]);
    assert_eq!(recent_journal_facts(&memory, 1), vec!["NEXT | b"]);
    assert!(read_journal(&memory).starts_with("free text\nGOAL | old"));
}

#[test]
fn a_duplicate_out_of_the_window_is_written_again() {
    let mut memory = directory();
    let mut journal = String::from("DEC | first\n");
    for i in 0..20 {
        journal.push_str(&format!("DEC | later {i}\n"));
    }
    memory.journal = Some(journal);
    let outcome = append_journal(&mut memory, "DEC | first", STAMP).unwrap();
    assert_eq!(outcome.lines_written, 1);
}

#[test]
fn a_heading_is_never_cleared() {
    let mut memory = directory();
    write_project_summary(&mut memory, "## Goal\nStay\n\n## State\nfine").unwrap();
    append_journal(&mut memory, "FIX | new state", STAMP).unwrap();
    assert_eq!(
        read_project_summary(&memory).as_deref(),
        Some("## Goal\nStay\n\n## State\nnew state")
    );
    assert!(!sync_project_summary_from_journal(&mut memory));
}

#[test]
fn memory_needs_a_local_directory() {
    let worktree = |path: &str, is_single_file, is_local, is_directory| Worktree {
        path: path.to_string(),
        is_single_file,
        is_local,
        is_directory,
    };
    let worktrees = vec![
        worktree("/tab.md", true, true, false),
        worktree("/remote", false, false, true),
        worktree("/gone", false, true, false),
        worktree("/a", false, true, true),
        worktree("/b", false, true, true),
    ];
    assert_eq!(worktree_roots(&worktrees), vec!["/a", "/b"]);
    assert_eq!(primary_worktree_root(&worktrees).as_deref(), Some("/a"));
    assert_eq!(primary_worktree_root(&Vec::new()), None);
}

#[test]
fn memory_is_written_to_every_worktree() {
    let mut memories = vec![directory(), directory(), directory()];
    memories[1].is_directory = false;
    persist_summary_to_worktrees(&mut memories, " ");
    assert!(memories.iter().all(|memory| memory.summary.is_none()));
    persist_summary_to_worktrees(&mut memories, " state ");
    assert_eq!(memories[0].summary.as_deref(), Some("state\n"));
    assert_eq!(memories[1].summary, None);
    assert_eq!(memories[2].summary.as_deref(), Some("state\n"));

    let stamps = vec!["s1".to_string(), "s2".to_string(), "s3".to_string()];
    persist_journal_facts_to_worktrees(&mut memories, " \n", true, &stamps);
    assert!(memories.iter().all(|memory| memory.journal.is_none()));
    persist_journal_facts_to_worktrees(&mut memories, "FIX | new state", false, &stamps);
    assert_eq!(memories[1].journal, None);
    assert_eq!(
        memories[2].journal.as_deref(),
        Some("# Project Journal\n\n## s3\nFIX | new state\n")
    );
    assert_eq!(memories[2].summary.as_deref(), Some("state\n"));
    persist_journal_facts_to_worktrees(&mut memories, "GOAL | ship", true, &stamps);
    assert!(memories[0].summary.as_deref().unwrap().contains("## Goal\nship"));
}

#[test]
fn what_is_not_managed_stays_where_it_is() {
    let mut memory = directory();
    write_project_summary(
        &mut memory,
        "Prose at the start.\n\n## Goal\nOld goal\n\n## Notes\nKept as it is.",
    )
    .unwrap();
    append_journal(&mut memory, "GOAL | New goal\nNEXT | Ship", STAMP).unwrap();
    let first = read_project_summary(&memory).unwrap();
    assert_eq!(
        first,
        "## Goal\nNew goal\n\n## Next\nShip\n\n## Context\nProse at the start.\n\n## Notes\nKept as it is."
    );
    assert!(!sync_project_summary_from_journal(&mut memory));
    append_journal(&mut memory, "NEXT | Rest", STAMP).unwrap();
    assert_eq!(read_project_summary(&memory).unwrap(), first.replace("Ship", "Rest"));
}

#[test]
fn the_lines_of_a_free_note_are_counted() {
    let mut memory = directory();
    let outcome =
        append_journal(&mut memory, "  First line.\nSecond line.\n", STAMP).unwrap();
    assert_eq!(outcome.lines_written, 2);
    assert_eq!(outcome.duplicates_skipped, 0);
    assert!(!outcome.is_facts);
    assert!(read_journal(&memory).contains("First line.\nSecond line."));
    let outcome = append_journal(&mut memory, "One line.", STAMP).unwrap();
    assert_eq!(outcome.lines_written, 1);
}
