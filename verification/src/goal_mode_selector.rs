//! What is typed as a prompt is either a message or the goal of a thread.
use crate::text::{
    is_ws, lemma_trim_end_prefix, lemma_trim_start_first, starts_with, starts_with_str, trim,
    trim_end, trim_start, trim_str,
};
use vstd::prelude::*;

verus! {

#[derive(Clone, Copy, Debug, PartialEq, Eq, Structural)]
pub enum PromptInputMode {
    Chat,
    Goal,
}

impl Default for PromptInputMode {
    fn default() -> (r: Self)
        ensures
            r == PromptInputMode::Chat,
    {
        PromptInputMode::Chat
    }
}

impl PromptInputMode {
    pub fn label(self) -> (r: &'static str)
        ensures
            r@ == match self {
                PromptInputMode::Chat => "Chat"@,
                PromptInputMode::Goal => "Goal"@,
            },
    {
        match self {
            PromptInputMode::Chat => "Chat",
            PromptInputMode::Goal => "Goal",
        }
    }
}

/// One part of a prompt: text, or something else that is kept as it is.
#[derive(Debug, PartialEq)]
pub enum ContentBlock {
    Text(String),
    Other(String),
}

/// The text as a goal command; one that is such a command is kept.
pub open spec fn as_goal_command(text: Seq<char>) -> Seq<char> {
    if starts_with(trim(text), "/goal"@) {
        text
    } else {
        "/goal "@ + trim(text)
    }
}

/// Turns a prompt into the command that sets a goal. Only its first block can change.
pub fn apply_goal_mode_to_contents(contents: Vec<ContentBlock>) -> (r: Vec<ContentBlock>)
    ensures
        r@.len() == contents@.len(),
        forall|i: int| 1 <= i < contents@.len() ==> r@[i] == contents@[i],
        contents@.len() > 0 ==> match contents@[0] {
            ContentBlock::Text(text) => r@[0] matches ContentBlock::Text(t) && t@
                == as_goal_command(text@),
            ContentBlock::Other(_) => r@[0] == contents@[0],
        },
{
    let mut blocks = contents;
    if blocks.len() == 0 {
        return blocks;
    }
    let prefixed = match &blocks[0] {
        ContentBlock::Text(text) => {
            let trimmed = trim_str(text.as_str());
            if starts_with_str(trimmed.as_str(), "/goal") {
                None
            } else {
                let mut command = "/goal ".to_string();
                command.append(trimmed.as_str());
                Some(command)
            }
        },
        ContentBlock::Other(_) => None,
    };
    if let Some(command) = prefixed {
        blocks.set(0, ContentBlock::Text(command));
    }
    blocks
}

/// A goal command is not turned into one again.
pub proof fn lemma_goal_command_is_stable(text: Seq<char>)
    ensures
        as_goal_command(as_goal_command(text)) == as_goal_command(text),
{
    reveal_strlit("/goal");
    reveal_strlit("/goal ");
    if !starts_with(trim(text), "/goal"@) {
        let t = trim(text);
        let c = "/goal "@ + t;
        lemma_trim_start_first(text);
        assert(trim_start(c) == c);
        lemma_trim_end_prefix(c);
        lemma_trim_end_keeps(c, 4);
        assert(trim(c).take(5) =~= "/goal"@);
    }
}

/// What is not whitespace stays, with all that stands before it.
proof fn lemma_trim_end_keeps(s: Seq<char>, i: int)
    requires
        0 <= i < s.len(),
        !is_ws(s[i]),
    ensures
        trim_end(s).len() > i,
    decreases s.len(),
{
    if is_ws(s.last()) {
        lemma_trim_end_keeps(s.drop_last(), i);
    }
}

} // verus!
