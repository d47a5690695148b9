//! A goal that a thread works toward, and the command that sets it.
use crate::project_memory::tail;
use crate::text::{
    dec, dec_str, join, join_strs, parse_u64, parsed_unsigned, str_eq, trim, trim_str, views, words,
    words_str,
};
use vstd::prelude::*;

verus! {

pub const MAX_STORED_GOAL_CHECKPOINTS: usize = 10;

pub const MAX_CHECKPOINTS_IN_PROMPT: usize = 2;

#[derive(Debug, Clone, Copy, PartialEq, Eq, Structural)]
pub enum GoalStatus {
    Active,
    Paused,
    BudgetLimited,
    Completed,
}

impl GoalStatus {
    pub open spec fn name_view(self) -> Seq<char> {
        match self {
            GoalStatus::Active => "Active"@,
            GoalStatus::Paused => "Paused"@,
            GoalStatus::BudgetLimited => "BudgetLimited"@,
            GoalStatus::Completed => "Completed"@,
        }
    }

    /// The name of the status, as a user reads it.
    pub fn name(self) -> (r: &'static str)
        ensures
            r@ == self.name_view(),
    {
        match self {
            GoalStatus::Active => "Active",
            GoalStatus::Paused => "Paused",
            GoalStatus::BudgetLimited => "BudgetLimited",
            GoalStatus::Completed => "Completed",
        }
    }
}

/// A note on the progress, with the time at which it was made (milliseconds since the epoch).
#[derive(Debug, PartialEq)]
pub struct GoalCheckpoint {
    pub at: i64,
    pub summary: String,
}

impl Clone for GoalCheckpoint {
    fn clone(&self) -> (r: Self)
        ensures
            r == *self,
    {
        GoalCheckpoint { at: self.at, summary: self.summary.clone() }
    }
}

/// A goal attached to a thread. Times are milliseconds since the epoch.
#[derive(Debug, PartialEq)]
pub struct ThreadGoal {
    pub objective: String,
    pub success_criteria: String,
    pub status: GoalStatus,
    pub token_budget: Option<u64>,
    pub tokens_used: u64,
    pub wall_clock_budget: Option<u64>,
    pub started_at: i64,
    pub continuation_count: u32,
    pub checkpoints: Vec<GoalCheckpoint>,
    /// The continuation count when the last checkpoint was written.
    pub last_checkpoint_continuation: u32,
}

impl Clone for ThreadGoal {
    /// A thread that takes over gets the goal as it stands.
    fn clone(&self) -> (r: Self)
        ensures
            r.same_but_checkpoints(self),
            r.checkpoints@ == self.checkpoints@,
            r.last_checkpoint_continuation == self.last_checkpoint_continuation,
    {
        let mut checkpoints: Vec<GoalCheckpoint> = Vec::new();
        let mut i: usize = 0;
        while i < self.checkpoints.len()
            invariant
                i <= self.checkpoints@.len(),
                checkpoints@ == self.checkpoints@.take(i as int),
            decreases self.checkpoints@.len() - i,
        {
            checkpoints.push(self.checkpoints[i].clone());
            assert(self.checkpoints@.take(i + 1) =~= self.checkpoints@.take(i as int).push(
                self.checkpoints@[i as int],
            ));
            i = i + 1;
        }
        assert(checkpoints@ =~= self.checkpoints@);
        ThreadGoal {
            objective: self.objective.clone(),
            success_criteria: self.success_criteria.clone(),
            status: self.status,
            token_budget: self.token_budget,
            tokens_used: self.tokens_used,
            wall_clock_budget: self.wall_clock_budget,
            started_at: self.started_at,
            continuation_count: self.continuation_count,
            checkpoints,
            last_checkpoint_continuation: self.last_checkpoint_continuation,
        }
    }
}

/// The checkpoints that a prompt shows, newest first and numbered.
pub open spec fn checkpoint_entries(checkpoints: Seq<GoalCheckpoint>) -> Seq<Seq<char>> {
    let n = if checkpoints.len() <= MAX_CHECKPOINTS_IN_PROMPT {
        checkpoints.len()
    } else {
        MAX_CHECKPOINTS_IN_PROMPT as nat
    };
    Seq::new(
        n,
        |i: int| dec((i + 1) as nat) + ". "@ + checkpoints[checkpoints.len() - 1 - i].summary@,
    )
}

impl ThreadGoal {
    /// All but the checkpoints, and when the last was written, is as in `other`.
    pub open spec fn same_but_checkpoints(&self, other: &Self) -> bool {
        &&& self.objective == other.objective
        &&& self.success_criteria == other.success_criteria
        &&& self.status == other.status
        &&& self.token_budget == other.token_budget
        &&& self.tokens_used == other.tokens_used
        &&& self.wall_clock_budget == other.wall_clock_budget
        &&& self.started_at == other.started_at
        &&& self.continuation_count == other.continuation_count
    }

    pub fn new(
        objective: String,
        success_criteria: String,
        token_budget: Option<u64>,
        now: i64,
    ) -> (r: Self)
        ensures
            r.objective == objective,
            r.success_criteria == success_criteria,
            r.status == GoalStatus::Active,
            r.token_budget == token_budget,
            r.tokens_used == 0,
            r.wall_clock_budget is None,
            r.started_at == now,
            r.continuation_count == 0,
            r.checkpoints@ == Seq::<GoalCheckpoint>::empty(),
            r.last_checkpoint_continuation == 0,
    {
        ThreadGoal {
            objective,
            success_criteria,
            status: GoalStatus::Active,
            token_budget,
            tokens_used: 0,
            wall_clock_budget: None,
            started_at: now,
            continuation_count: 0,
            checkpoints: Vec::new(),
            last_checkpoint_continuation: 0,
        }
    }

    /// Adds a checkpoint; only the latest ones are kept.
    pub fn push_checkpoint(&mut self, summary: String, now: i64)
        ensures
            final(self).same_but_checkpoints(old(self)),
            final(self).checkpoints@ == tail(
                old(self).checkpoints@.push(GoalCheckpoint { at: now, summary }),
                MAX_STORED_GOAL_CHECKPOINTS as nat,
            ),
            final(self).last_checkpoint_continuation == old(self).continuation_count,
    {
        let ghost all = self.checkpoints@.push(GoalCheckpoint { at: now, summary });
        self.checkpoints.push(GoalCheckpoint { at: now, summary });
        if self.checkpoints.len() > MAX_STORED_GOAL_CHECKPOINTS {
            let excess: usize = self.checkpoints.len() - MAX_STORED_GOAL_CHECKPOINTS;
            let kept = self.checkpoints.split_off(excess);
            self.checkpoints = kept;
            assert(self.checkpoints@ =~= all.skip(excess as int));
        }
        self.last_checkpoint_continuation = self.continuation_count;
    }

    /// A checkpoint is due every second continuation of an active goal.
    pub open spec fn checkpoint_due(&self) -> bool {
        &&& self.status == GoalStatus::Active
        &&& self.continuation_count > 0
        &&& self.continuation_count >= if self.last_checkpoint_continuation + 2 <= u32::MAX {
            self.last_checkpoint_continuation + 2
        } else {
            u32::MAX as int
        }
    }

    pub fn should_write_checkpoint(&self) -> (r: bool)
        ensures
            r == self.checkpoint_due(),
    {
        self.is_active() && self.continuation_count > 0 && self.continuation_count
            >= self.last_checkpoint_continuation.saturating_add(2)
    }

    pub open spec fn checkpoint_text(&self) -> Seq<char> {
        if self.checkpoints@.len() == 0 {
            Seq::empty()
        } else {
            "\n\nRecent progress checkpoints (newest first):\n"@ + join(
                checkpoint_entries(self.checkpoints@),
                "\n"@,
            )
        }
    }

    fn checkpoint_context(&self) -> (r: String)
        ensures
            r@ == self.checkpoint_text(),
    {
        let n: usize = self.checkpoints.len();
        if n == 0 {
            return String::new();
        }
        let mut entries: Vec<String> = Vec::new();
        let mut i: usize = 0;
        while i < n && i < MAX_CHECKPOINTS_IN_PROMPT
            invariant
                n == self.checkpoints@.len(),
                i <= n,
                i <= MAX_CHECKPOINTS_IN_PROMPT,
                views(entries@) == checkpoint_entries(self.checkpoints@).take(i as int),
            decreases n - i,
        {
            let ghost before = views(entries@);
            let mut entry = dec_str(i as u64 + 1);
            entry.append(". ");
            entry.append(self.checkpoints[n - 1 - i].summary.as_str());
            entries.push(entry);
            assert(views(entries@) =~= before.push(checkpoint_entries(self.checkpoints@)[i as int]));
            assert(checkpoint_entries(self.checkpoints@).take(i + 1) =~= before.push(
                checkpoint_entries(self.checkpoints@)[i as int],
            ));
            i = i + 1;
        }
        assert(views(entries@) =~= checkpoint_entries(self.checkpoints@));
        let mut r = "\n\nRecent progress checkpoints (newest first):\n".to_string();
        r.append(join_strs(&entries, "\n").as_str());
        r
    }

    pub fn is_active(&self) -> (r: bool)
        ensures
            r == (self.status == GoalStatus::Active),
    {
        self.status == GoalStatus::Active
    }

    pub open spec fn in_budget(&self) -> bool {
        self.token_budget matches Some(budget) ==> self.tokens_used < budget
    }

    pub fn within_token_budget(&self) -> (r: bool)
        ensures
            r == self.in_budget(),
    {
        match self.token_budget {
            Some(budget) => self.tokens_used < budget,
            None => true,
        }
    }

    /// Counts tokens; an active goal whose budget is used up becomes limited.
    pub fn record_tokens(&mut self, tokens: u64)
        ensures
            final(self).tokens_used == if old(self).tokens_used + tokens <= u64::MAX {
                old(self).tokens_used + tokens
            } else {
                u64::MAX as int
            },
            final(self).status == if !final(self).in_budget() && old(self).status
                == GoalStatus::Active {
                GoalStatus::BudgetLimited
            } else {
                old(self).status
            },
            final(self).objective == old(self).objective,
            final(self).success_criteria == old(self).success_criteria,
            final(self).token_budget == old(self).token_budget,
            final(self).wall_clock_budget == old(self).wall_clock_budget,
            final(self).started_at == old(self).started_at,
            final(self).continuation_count == old(self).continuation_count,
            final(self).checkpoints == old(self).checkpoints,
            final(self).last_checkpoint_continuation == old(self).last_checkpoint_continuation,
    {
        self.tokens_used = self.tokens_used.saturating_add(tokens);
        if !self.within_token_budget() && self.status == GoalStatus::Active {
            self.status = GoalStatus::BudgetLimited;
        }
    }

    pub open spec fn budget_text(&self) -> Seq<char> {
        match self.token_budget {
            Some(budget) => dec(self.tokens_used as nat) + "/"@ + dec(budget as nat)
                + " tokens used"@,
            None => dec(self.tokens_used as nat) + " tokens used"@,
        }
    }

    pub open spec fn checkpoint_count_text(&self) -> Seq<char> {
        if self.checkpoints@.len() == 0 {
            Seq::empty()
        } else {
            "\nCheckpoints recorded: "@ + dec(self.checkpoints@.len())
        }
    }

    pub fn status_summary(&self) -> (r: String)
        ensures
            r@ == "Goal status: "@ + self.status.name_view() + "\nObjective: "@ + self.objective@
                + "\nSuccess criteria: "@ + self.success_criteria@ + "\n"@ + self.budget_text()
                + "\nContinuations: "@ + dec(self.continuation_count as nat)
                + self.checkpoint_count_text(),
    {
        let mut budget = dec_str(self.tokens_used);
        match self.token_budget {
            Some(limit) => {
                budget.append("/");
                budget.append(dec_str(limit).as_str());
                budget.append(" tokens used");
            },
            None => {
                budget.append(" tokens used");
            },
        }
        let mut checkpoints = String::new();
        if self.checkpoints.len() > 0 {
            checkpoints = "\nCheckpoints recorded: ".to_string();
            checkpoints.append(dec_str(self.checkpoints.len() as u64).as_str());
        }
        assert(checkpoints@ =~= self.checkpoint_count_text());
        let mut r = "Goal status: ".to_string();
        r.append(self.status.name());
        r.append("\nObjective: ");
        r.append(self.objective.as_str());
        r.append("\nSuccess criteria: ");
        r.append(self.success_criteria.as_str());
        r.append("\n");
        r.append(budget.as_str());
        r.append("\nContinuations: ");
        r.append(dec_str(self.continuation_count as u64).as_str());
        r.append(checkpoints.as_str());
        r
    }

    pub fn continuation_prompt(&self) -> (r: String)
        ensures
            r@ == CONTINUATION_START@ + self.objective@ + "\n\nSuccess criteria: "@
                + self.success_criteria@ + self.checkpoint_text() + CONTINUATION_END@,
    {
        let mut r = CONTINUATION_START.to_string();
        r.append(self.objective.as_str());
        r.append("\n\nSuccess criteria: ");
        r.append(self.success_criteria.as_str());
        r.append(self.checkpoint_context().as_str());
        r.append(CONTINUATION_END);
        r
    }

    pub fn verification_prompt(&self) -> (r: String)
        ensures
            r@ == VERIFICATION_START@ + self.objective@ + "\n\nSuccess criteria: "@
                + self.success_criteria@ + self.checkpoint_text() + VERIFICATION_END@,
    {
        let mut r = VERIFICATION_START.to_string();
        r.append(self.objective.as_str());
        r.append("\n\nSuccess criteria: ");
        r.append(self.success_criteria.as_str());
        r.append(self.checkpoint_context().as_str());
        r.append(VERIFICATION_END);
        r
    }

    /// A goal without a budget never becomes limited, however many tokens are counted.
    pub proof fn lemma_no_budget_never_limits(&self)
        requires
            self.token_budget is None,
        ensures
            self.in_budget(),
    {
    }
}

pub const CONTINUATION_START: &'static str =
    "You are working toward an active goal. Do not stop until the success criteria are verified.\n\nObjective: ";

pub const CONTINUATION_END: &'static str =
    "\n\nReview your progress, run any verification steps needed, and continue working. Only end your turn when the goal is fully achieved or you are genuinely blocked and need user input.";

pub const VERIFICATION_START: &'static str =
    "Before ending, verify the goal against its success criteria.\n\nObjective: ";

pub const VERIFICATION_END: &'static str =
    "\n\nRun the checks needed to confirm completion. If not met, continue working.";

/// The `/goal` command of a user.
#[derive(Debug, PartialEq, Eq)]
pub enum GoalCommand {
    SetGoal { objective: String, token_budget: Option<u64> },
    Status,
    Pause,
    Resume,
    Clear,
}

/// The words that describe the objective: all but `--budget` and the word behind it.
pub open spec fn objective_words(ws: Seq<Seq<char>>) -> Seq<Seq<char>>
    decreases ws.len(),
{
    if ws.len() == 0 {
        Seq::empty()
    } else if ws[0] == "--budget"@ {
        if ws.len() == 1 {
            Seq::empty()
        } else {
            objective_words(ws.skip(2))
        }
    } else {
        seq![ws[0]] + objective_words(ws.skip(1))
    }
}

/// The last number that stands behind a `--budget`; `found` where there is none.
pub open spec fn last_budget(ws: Seq<Seq<char>>, found: Option<nat>) -> Option<nat>
    decreases ws.len(),
{
    if ws.len() == 0 {
        found
    } else if ws[0] == "--budget"@ {
        if ws.len() == 1 {
            found
        } else {
            let number = parsed_unsigned(ws[1], u64::MAX as nat);
            last_budget(
                ws.skip(2),
                if number is Some {
                    number
                } else {
                    found
                },
            )
        }
    } else {
        last_budget(ws.skip(1), found)
    }
}

impl GoalCommand {
    /// Whether this is what the input asks for.
    pub open spec fn is_parse_of(&self, input: Seq<char>) -> bool {
        let ws = words(trim(input));
        let objective = join(objective_words(ws), " "@);
        if ws.len() == 0 {
            *self == GoalCommand::Status
        } else if ws[0] == "pause"@ {
            *self == GoalCommand::Pause
        } else if ws[0] == "resume"@ {
            *self == GoalCommand::Resume
        } else if ws[0] == "clear"@ {
            *self == GoalCommand::Clear
        } else if ws[0] == "status"@ || objective.len() == 0 {
            *self == GoalCommand::Status
        } else {
            match *self {
                GoalCommand::SetGoal { objective: o, token_budget: b } => {
                    &&& o@ == objective
                    &&& match b {
                        Some(n) => last_budget(ws, None) == Some(n as nat),
                        None => last_budget(ws, None) is None,
                    }
                },
                _ => false,
            }
        }
    }

    pub fn parse(input: &str) -> (r: Self)
        ensures
            r.is_parse_of(input@),
    {
        let ws = words_str(trim_str(input).as_str());
        assert(views(ws@).len() == ws@.len());
        if ws.len() == 0 {
            return GoalCommand::Status;
        }
        assert(views(ws@)[0] == ws@[0]@);
        let first = ws[0].as_str();
        if str_eq(first, "pause") {
            return GoalCommand::Pause;
        }
        if str_eq(first, "resume") {
            return GoalCommand::Resume;
        }
        if str_eq(first, "clear") {
            return GoalCommand::Clear;
        }
        if str_eq(first, "status") {
            return GoalCommand::Status;
        }
        let mut token_budget: Option<u64> = None;
        let mut rest: Vec<String> = Vec::new();
        let mut i: usize = 0;
        let n: usize = ws.len();
        let ghost all = views(ws@);
        assert(all.skip(0) =~= all);
        assert(views(rest@) + objective_words(all) =~= objective_words(all));
        while i < n
            invariant
                n == ws@.len(),
                all == views(ws@),
                i <= n,
                views(rest@) + objective_words(all.skip(i as int)) == objective_words(all),
                last_budget(
                    all.skip(i as int),
                    match token_budget {
                        Some(b) => Some(b as nat),
                        None => None,
                    },
                ) == last_budget(all, None),
            decreases n - i,
        {
            let ghost now = all.skip(i as int);
            let ghost before = views(rest@);
            assert(now[0] == ws@[i as int]@);
            if str_eq(ws[i].as_str(), "--budget") {
                if i + 1 < n {
                    assert(now[1] == ws@[i + 1]@);
                    assert(now.skip(2) =~= all.skip(i + 2));
                    match parse_u64(ws[i + 1].as_str()) {
                        Some(budget) => {
                            token_budget = Some(budget);
                        },
                        None => {},
                    }
                    i = i + 2;
                } else {
                    assert(all.skip(i + 1) =~= Seq::<Seq<char>>::empty());
                    i = i + 1;
                }
            } else {
                rest.push(ws[i].clone());
                assert(views(rest@) =~= before.push(ws@[i as int]@));
                assert(now.skip(1) =~= all.skip(i + 1));
                assert(before + (seq![now[0]] + objective_words(now.skip(1))) =~= views(rest@)
                    + objective_words(now.skip(1)));
                i = i + 1;
            }
        }
        assert(all.skip(n as int) =~= Seq::<Seq<char>>::empty());
        assert(views(rest@) =~= objective_words(all));
        let objective = join_strs(&rest, " ");
        if objective.as_str().is_empty() {
            GoalCommand::Status
        } else {
            GoalCommand::SetGoal { objective, token_budget }
        }
    }
}

/// Four hours, in seconds.
pub fn default_wall_clock_budget() -> (r: u64)
    ensures
        r == 4 * 60 * 60,
{
    14400
}

} // verus!
