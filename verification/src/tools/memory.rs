//! The tools that write and read the journal of a project, and the one that ends a goal.
use crate::project_memory::{
    append_journal, has_no_place, is_appended, not_a_directory_text, read_journal, to_be_written,
    MemoryError, WorktreeMemory,
};
use crate::text::{dec, dec_str, join, join_strs, trim, trim_str, views};
use vstd::prelude::*;

verus! {

pub const APPEND_TO_JOURNAL_NAME: &'static str = "append_to_journal";

pub const READ_JOURNAL_NAME: &'static str = "read_journal";

pub const COMPLETE_GOAL_NAME: &'static str = "complete_goal";

pub const NO_DIRECTORY_WORKTREE: &'static str =
    "No directory worktree is open (file-only tabs cannot host the project journal).";

pub const EMPTY_NOTE: &'static str = "Refusing to write an empty journal note.";

/// What is asked of the tool that writes the journal.
#[derive(Debug)]
pub struct AppendToJournalToolInput {
    pub note: String,
}

/// What the tool that writes the journal gives.
#[derive(Debug)]
pub enum AppendToJournalToolOutput {
    Success { message: String },
    Error { error: String },
}

impl AppendToJournalToolOutput {
    /// What a model reads of it.
    pub fn into_text(self) -> (r: String)
        ensures
            r == match self {
                AppendToJournalToolOutput::Success { message } => message,
                AppendToJournalToolOutput::Error { error } => error,
            },
    {
        match self {
            AppendToJournalToolOutput::Success { message } => message,
            AppendToJournalToolOutput::Error { error } => error,
        }
    }
}

/// A sum that stops at the largest number.
pub open spec fn sum_of(counts: Seq<nat>) -> nat
    decreases counts.len(),
{
    if counts.len() == 0 {
        0
    } else {
        let sum = sum_of(counts.drop_last()) + counts.last();
        if sum > usize::MAX {
            usize::MAX as nat
        } else {
            sum
        }
    }
}

/// What is said of a note that was written to journals: how many lines to each, and how many were
/// skipped.
pub open spec fn append_report(written: Seq<nat>, skipped: Seq<nat>) -> Seq<char> {
    let written = sum_of(written);
    let skipped = sum_of(skipped);
    if written == 0 {
        if skipped > 0 {
            "No new journal facts saved ("@ + dec(skipped) + " duplicate(s) skipped)."@
        } else {
            "Nothing new to save to the project journal."@
        }
    } else {
        "Saved "@ + dec(written) + " journal line(s) in one section"@ + (if skipped > 0 {
            " ("@ + dec(skipped) + " duplicate(s) skipped)"@
        } else {
            ""@
        }) + "."@
    }
}

fn add_capped(a: usize, b: usize) -> (r: usize)
    ensures
        r == if a + b > usize::MAX {
            usize::MAX as int
        } else {
            a + b
        },
{
    if a > usize::MAX - b {
        usize::MAX
    } else {
        a + b
    }
}

fn report(written: usize, skipped: usize) -> (r: String)
    ensures
        forall|w: Seq<nat>, s: Seq<nat>|
            sum_of(w) == written && sum_of(s) == skipped ==> r@ == #[trigger] append_report(w, s),
{
    if written == 0 {
        if skipped > 0 {
            let mut r = "No new journal facts saved (".to_string();
            r.append(dec_str(skipped as u64).as_str());
            r.append(" duplicate(s) skipped).");
            return r;
        }
        return "Nothing new to save to the project journal.".to_string();
    }
    let mut note = String::new();
    if skipped > 0 {
        note.append(" (");
        note.append(dec_str(skipped as u64).as_str());
        note.append(" duplicate(s) skipped)");
        assert(note@ =~= " ("@ + dec(skipped as nat) + " duplicate(s) skipped)"@);
    } else {
        proof {
            reveal_strlit("");
        }
        assert(note@ =~= ""@);
    }
    let mut r = "Saved ".to_string();
    r.append(dec_str(written as u64).as_str());
    r.append(" journal line(s) in one section");
    r.append(note.as_str());
    r.append(".");
    r
}

/// How many lines of a note are written to each journal.
pub open spec fn lines_written(memories: Seq<WorktreeMemory>, note: Seq<char>) -> Seq<nat> {
    Seq::new(memories.len(), |i: int| to_be_written(memories[i], note).lines_written)
}

/// How many facts of a note each journal has already.
pub open spec fn duplicates_skipped(memories: Seq<WorktreeMemory>, note: Seq<char>) -> Seq<nat> {
    Seq::new(memories.len(), |i: int| to_be_written(memories[i], note).duplicates_skipped)
}

/// Whether a note is written to the first `k` journals and to no other.
pub open spec fn is_written_to(
    before: Seq<WorktreeMemory>,
    after: Seq<WorktreeMemory>,
    note: Seq<char>,
    stamps: Seq<String>,
    k: int,
) -> bool {
    &&& after.len() == before.len()
    &&& forall|i: int|
        #![trigger after[i]]
        0 <= i < before.len() ==> if i < k {
            is_appended(before[i], after[i], note, true, stamps[i]@)
        } else {
            after[i] == before[i]
        }
}

/// The first journal that a note cannot be written to, or their number.
pub open spec fn first_without_place(memories: Seq<WorktreeMemory>, note: Seq<char>) -> int
    decreases memories.len(),
{
    if memories.len() == 0 {
        0
    } else {
        let before = first_without_place(memories.drop_last(), note);
        if before < memories.len() - 1 || has_no_place(memories.last(), note) {
            before
        } else {
            memories.len() as int
        }
    }
}

proof fn lemma_first_without_place(memories: Seq<WorktreeMemory>, note: Seq<char>, k: int)
    requires
        0 <= k <= memories.len(),
        k == memories.len() || has_no_place(memories[k], note),
        forall|i: int| 0 <= i < k ==> !has_no_place(#[trigger] memories[i], note),
    ensures
        first_without_place(memories, note) == k,
    decreases memories.len(),
{
    if memories.len() > 0 {
        let init = memories.drop_last();
        lemma_first_without_place(init, note, if k == memories.len() {
            k - 1
        } else {
            k
        });
    }
}

pub struct AppendToJournalTool;

impl AppendToJournalTool {
    /// What is said of a note that could not be written.
    pub fn failed(error: &str) -> (r: String)
        ensures
            r@ == "Failed to append journal note: "@ + error@,
    {
        let mut r = "Failed to append journal note: ".to_string();
        r.append(error);
        r
    }

    /// Writes a note to the journals of all worktrees, each under its stamp, up to the first that
    /// it cannot be written to.
    pub fn run(
        input: &AppendToJournalToolInput,
        memories: &mut Vec<WorktreeMemory>,
        stamps: &Vec<String>,
    ) -> (r: Result<AppendToJournalToolOutput, AppendToJournalToolOutput>)
        requires
            stamps@.len() == old(memories)@.len(),
        ensures
            ({
                let note = trim(input.note@);
                let before = old(memories)@;
                let k = first_without_place(before, note);
                if note.len() == 0 {
                    &&& final(memories)@ == before
                    &&& r matches Err(AppendToJournalToolOutput::Error { error })
                    &&& error@ == EMPTY_NOTE@
                } else if before.len() == 0 {
                    &&& final(memories)@ == before
                    &&& r matches Err(AppendToJournalToolOutput::Error { error })
                    &&& error@ == NO_DIRECTORY_WORKTREE@
                } else if k < before.len() {
                    &&& is_written_to(before, final(memories)@, note, stamps@, k)
                    &&& r matches Err(AppendToJournalToolOutput::Error { error })
                    &&& error@ == "Failed to append journal note: "@ + not_a_directory_text(
                        before[k].root@,
                    )
                } else {
                    &&& is_written_to(before, final(memories)@, note, stamps@, k)
                    &&& r matches Ok(AppendToJournalToolOutput::Success { message })
                    &&& message@ == append_report(
                        lines_written(before, note),
                        duplicates_skipped(before, note),
                    )
                }
            }),
    {
        let note = trim_str(input.note.as_str());
        if note.as_str().is_empty() {
            return Err(AppendToJournalToolOutput::Error { error: EMPTY_NOTE.to_string() });
        }
        if memories.len() == 0 {
            return Err(
                AppendToJournalToolOutput::Error { error: NO_DIRECTORY_WORKTREE.to_string() },
            );
        }
        let n: usize = memories.len();
        let mut written: usize = 0;
        let mut skipped: usize = 0;
        let mut i: usize = 0;
        let ghost before = memories@;
        let ghost lines = lines_written(before, note@);
        let ghost duplicates = duplicates_skipped(before, note@);
        assert(lines.take(0) =~= Seq::<nat>::empty());
        assert(duplicates.take(0) =~= Seq::<nat>::empty());
        while i < n
            invariant
                i <= n,
                n == before.len(),
                n == stamps@.len(),
                before == old(memories)@,
                note@ == trim(input.note@),
                note@.len() > 0,
                n > 0,
                lines == lines_written(before, note@),
                duplicates == duplicates_skipped(before, note@),
                is_written_to(before, memories@, note@, stamps@, i as int),
                forall|j: int| 0 <= j < i ==> !has_no_place(#[trigger] before[j], note@),
                written == sum_of(lines.take(i as int)),
                skipped == sum_of(duplicates.take(i as int)),
            decreases n - i,
        {
            match append_journal(&mut memories[i], note.as_str(), stamps[i].as_str()) {
                Ok(outcome) => {
                    assert(lines.take(i + 1).drop_last() =~= lines.take(i as int));
                    assert(duplicates.take(i + 1).drop_last() =~= duplicates.take(i as int));
                    written = add_capped(written, outcome.lines_written);
                    skipped = add_capped(skipped, outcome.duplicates_skipped);
                },
                Err(MemoryError::NotADirectory(text)) => {
                    proof {
                        lemma_first_without_place(before, note@, i as int);
                    }
                    return Err(
                        AppendToJournalToolOutput::Error { error: Self::failed(text.as_str()) },
                    );
                },
            }
            i = i + 1;
        }
        proof {
            lemma_first_without_place(before, note@, n as int);
        }
        assert(lines.take(n as int) =~= lines);
        assert(duplicates.take(n as int) =~= duplicates);
        Ok(AppendToJournalToolOutput::Success { message: report(written, skipped) })
    }
}

/// What is asked of the tool that reads the journal.
#[derive(Debug)]
pub struct ReadJournalToolInput {}

/// What the tool that reads the journal gives.
#[derive(Debug)]
pub enum ReadJournalToolOutput {
    Success { content: String },
    Error { error: String },
}

impl ReadJournalToolOutput {
    /// What a model reads of it.
    pub fn into_text(self) -> (r: String)
        ensures
            r == match self {
                ReadJournalToolOutput::Success { content } => content,
                ReadJournalToolOutput::Error { error } => error,
            },
    {
        match self {
            ReadJournalToolOutput::Success { content } => content,
            ReadJournalToolOutput::Error { error } => error,
        }
    }
}

/// The journal of one worktree, if there is anything in it, under the path of the worktree.
pub open spec fn journal_section(root: Seq<char>, journal: Seq<char>) -> Seq<char> {
    "## "@ + root + "\n"@ + trim(journal)
}

/// The journals of the worktrees in which there is anything.
pub open spec fn journal_sections(memories: Seq<WorktreeMemory>) -> Seq<Seq<char>>
    decreases memories.len(),
{
    if memories.len() == 0 {
        Seq::empty()
    } else {
        let before = journal_sections(memories.drop_last());
        let journal = memories.last().journal_text();
        if trim(journal).len() == 0 {
            before
        } else {
            before.push(journal_section(memories.last().root@, journal))
        }
    }
}

pub struct ReadJournalTool;

impl ReadJournalTool {
    /// What is said of a journal that could not be read.
    pub fn failed(error: &str) -> (r: String)
        ensures
            r@ == "Failed to read journal: "@ + error@,
    {
        let mut r = "Failed to read journal: ".to_string();
        r.append(error);
        r
    }

    /// The journals of all worktrees.
    pub fn run(memories: &Vec<WorktreeMemory>) -> (r: Result<
        ReadJournalToolOutput,
        ReadJournalToolOutput,
    >)
        ensures
            if memories@.len() == 0 {
                r matches Err(ReadJournalToolOutput::Error { error }) && error@
                    == NO_DIRECTORY_WORKTREE@
            } else {
                r matches Ok(ReadJournalToolOutput::Success { content }) && content@ == (
                if journal_sections(memories@).len() == 0 {
                    "The project journal is empty."@
                } else {
                    join(journal_sections(memories@), "\n\n"@)
                })
            },
    {
        if memories.len() == 0 {
            return Err(ReadJournalToolOutput::Error { error: NO_DIRECTORY_WORKTREE.to_string() });
        }
        let mut sections: Vec<String> = Vec::new();
        let mut i: usize = 0;
        assert(memories@.take(0) =~= Seq::<WorktreeMemory>::empty());
        assert(views(sections@) =~= Seq::<Seq<char>>::empty());
        while i < memories.len()
            invariant
                i <= memories@.len(),
                views(sections@) == journal_sections(memories@.take(i as int)),
            decreases memories@.len() - i,
        {
            let ghost before = views(sections@);
            assert(memories@.take(i + 1).drop_last() =~= memories@.take(i as int));
            let journal = trim_str(read_journal(&memories[i]).as_str());
            if !journal.as_str().is_empty() {
                let mut s = "## ".to_string();
                s.append(memories[i].root.as_str());
                s.append("\n");
                s.append(journal.as_str());
                let ghost section = s@;
                sections.push(s);
                assert(views(sections@) =~= before.push(section));
            }
            i = i + 1;
        }
        assert(memories@.take(memories@.len() as int) =~= memories@);
        assert(views(sections@).len() == sections@.len());
        let content = if sections.len() == 0 {
            "The project journal is empty.".to_string()
        } else {
            join_strs(&sections, "\n\n")
        };
        Ok(ReadJournalToolOutput::Success { content })
    }
}

/// What is asked of the tool that ends a goal.
#[derive(Debug)]
pub struct CompleteGoalToolInput {
    pub reason: Option<String>,
}

/// What the tool that ends a goal gives.
#[derive(Debug)]
pub enum CompleteGoalToolOutput {
    Success { message: String },
    Error { error: String },
}

impl CompleteGoalToolOutput {
    /// What a model reads of it.
    pub fn into_text(self) -> (r: String)
        ensures
            r == match self {
                CompleteGoalToolOutput::Success { message } => message,
                CompleteGoalToolOutput::Error { error } => error,
            },
    {
        match self {
            CompleteGoalToolOutput::Success { message } => message,
            CompleteGoalToolOutput::Error { error } => error,
        }
    }
}

pub struct CompleteGoalTool;

impl CompleteGoalTool {
    /// Why a goal is reached, if that is said.
    pub fn reason(input: &CompleteGoalToolInput) -> (r: Option<String>)
        ensures
            match input.reason {
                Some(t) => if trim(t@).len() > 0 {
                    r matches Some(s) && s@ == trim(t@)
                } else {
                    r is None
                },
                None => r is None,
            },
    {
        match &input.reason {
            Some(t) => {
                let trimmed = trim_str(t.as_str());
                if trimmed.as_str().is_empty() {
                    None
                } else {
                    Some(trimmed)
                }
            },
            None => None,
        }
    }

    /// What is said once the goal has ended, or why it has not.
    pub fn finish(ended: Result<String, String>) -> (r: Result<
        CompleteGoalToolOutput,
        CompleteGoalToolOutput,
    >)
        ensures
            r == match ended {
                Ok(message) => Ok::<CompleteGoalToolOutput, CompleteGoalToolOutput>(
                    CompleteGoalToolOutput::Success { message },
                ),
                Err(error) => Err(CompleteGoalToolOutput::Error { error }),
            },
    {
        match ended {
            Ok(message) => Ok(CompleteGoalToolOutput::Success { message }),
            Err(error) => Err(CompleteGoalToolOutput::Error { error }),
        }
    }
}

} // verus!
