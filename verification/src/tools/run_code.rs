//! The tool that runs a piece of code.
use crate::text::{
    ascii_lower, ascii_lower_str, dec, dec_str, join, join_strs, replace, replace_str, starts_with,
    starts_with_str, str_eq, trim, trim_str, views,
};
use crate::tool_permissions::FullAccessSettings;
use crate::tools::full_access::{escape_gate, gate, ToolPermissionContext, FULL_ACCESS_DISABLED};
use vstd::prelude::*;

verus! {

pub const RUN_CODE_NAME: &'static str = "run_code";

/// How much of what a program writes is kept.
pub const OUTPUT_LIMIT: u64 = 16_384;

pub const DEFAULT_TIMEOUT_MS: u64 = 120_000;

pub const MAX_TIMEOUT_MS: u64 = 1_800_000;

pub const QUOTING_FAILED: &'static str =
    "Unable to quote temporary script path for the system shell.";

/// What is asked of the tool.
#[derive(Debug)]
pub struct RunCodeToolInput {
    /// `python`, `node`, `powershell` or `bash`.
    pub language: String,
    pub code: String,
    /// Where the code runs; in the first worktree, where nothing is given.
    pub cd: Option<String>,
    pub timeout_ms: Option<u64>,
}

/// What runs code: a program, its arguments, and how the file with the code ends.
#[derive(Debug)]
pub struct Interpreter {
    pub program: String,
    pub args: Vec<String>,
    pub suffix: String,
}

/// What runs code in a language, in characters.
pub open spec fn interpreter_for(language: Seq<char>, windows: bool) -> Option<
    (Seq<char>, Seq<Seq<char>>, Seq<char>),
> {
    let l = ascii_lower(trim(language));
    if l == "python"@ || l == "python3"@ {
        Some(("python"@, Seq::empty(), ".py"@))
    } else if l == "node"@ || l == "javascript"@ || l == "js"@ {
        Some(("node"@, Seq::empty(), ".js"@))
    } else if l == "powershell"@ || l == "pwsh"@ {
        Some(
            (
                if windows {
                    "powershell"@
                } else {
                    "pwsh"@
                },
                seq!["-NoProfile"@, "-NonInteractive"@, "-File"@],
                ".ps1"@,
            ),
        )
    } else if l == "bash"@ || l == "shell"@ {
        Some(("bash"@, Seq::empty(), ".sh"@))
    } else {
        None
    }
}

pub const UNSUPPORTED_LANGUAGE: &'static str =
    "Unsupported language. Use python, node, powershell, or bash.";

/// Whether `i` is what runs code.
pub open spec fn is_interpreter(
    i: Interpreter,
    parts: (Seq<char>, Seq<Seq<char>>, Seq<char>),
) -> bool {
    i.program@ == parts.0 && views(i.args@) == parts.1 && i.suffix@ == parts.2
}

/// What runs code in a language.
pub fn interpreter(language: &str, windows: bool) -> (r: Result<Interpreter, String>)
    ensures
        match interpreter_for(language@, windows) {
            Some(parts) => r matches Ok(i) && is_interpreter(i, parts),
            None => r matches Err(e) && e@ == UNSUPPORTED_LANGUAGE@,
        },
{
    let lower = ascii_lower_str(trim_str(language).as_str());
    let l = lower.as_str();
    let mut args: Vec<String> = Vec::new();
    assert(views(args@) =~= Seq::<Seq<char>>::empty());
    if str_eq(l, "python") || str_eq(l, "python3") {
        Ok(Interpreter { program: "python".to_string(), args, suffix: ".py".to_string() })
    } else if str_eq(l, "node") || str_eq(l, "javascript") || str_eq(l, "js") {
        Ok(Interpreter { program: "node".to_string(), args, suffix: ".js".to_string() })
    } else if str_eq(l, "powershell") || str_eq(l, "pwsh") {
        args.push("-NoProfile".to_string());
        args.push("-NonInteractive".to_string());
        args.push("-File".to_string());
        assert(views(args@) =~= seq!["-NoProfile"@, "-NonInteractive"@, "-File"@]);
        let program = if windows {
            "powershell".to_string()
        } else {
            "pwsh".to_string()
        };
        Ok(Interpreter { program, args, suffix: ".ps1".to_string() })
    } else if str_eq(l, "bash") || str_eq(l, "shell") {
        Ok(Interpreter { program: "bash".to_string(), args, suffix: ".sh".to_string() })
    } else {
        Err(UNSUPPORTED_LANGUAGE.to_string())
    }
}

/// The shells that quote in their own ways.
#[derive(Debug, Clone, Copy, PartialEq, Eq, Structural)]
pub enum ShellKind {
    PowerShell,
    Pwsh,
    Cmd,
    Posix,
}

pub open spec fn single_quoted(path: Seq<char>) -> Seq<char> {
    "'"@ + replace(path, "'"@, "''"@) + "'"@
}

fn force_single_quote(path: &str) -> (r: String)
    ensures
        r@ == single_quoted(path@),
{
    proof {
        reveal_strlit("'");
    }
    let mut r = "'".to_string();
    r.append(replace_str(path, "'", "''").as_str());
    r.append("'");
    r
}

/// A path with slashes, where it has backslashes.
pub open spec fn slashed(path: Seq<char>) -> Seq<char> {
    replace(path, "\\"@, "/"@)
}

/// The path of the file with the code, with slashes in place of backslashes.
pub fn script_path_for_shell(path: &str) -> (r: String)
    ensures
        r@ == slashed(path@),
{
    proof {
        reveal_strlit("\\");
    }
    replace_str(path, "\\", "/")
}

/// A path as a shell takes it; `quoted` is how a POSIX shell would have it quoted, if it can be.
pub open spec fn quoted_path(
    path: Seq<char>,
    shell: ShellKind,
    quoted: Option<Seq<char>>,
) -> Option<Seq<char>> {
    let p = slashed(path);
    match shell {
        ShellKind::PowerShell => Some(single_quoted(p)),
        ShellKind::Pwsh => Some(single_quoted(p)),
        ShellKind::Cmd => Some("\""@ + replace(p, "\""@, "\"\""@) + "\""@),
        ShellKind::Posix => match quoted {
            Some(q) => Some(
                if starts_with(q, "'"@) || starts_with(q, "\""@) {
                    q
                } else {
                    "'"@ + replace(p, "'"@, "'\\''"@) + "'"@
                },
            ),
            None => None,
        },
    }
}

/// The path of the file with the code as a shell takes it: with slashes, and always quoted, so
/// that nothing in it is taken for an escape. `quoted` is how a POSIX shell would have the path
/// with slashes quoted, if it can be.
pub fn quote_script_path_for_shell(path: &str, shell_kind: ShellKind, quoted: Option<&str>) -> (r:
    Option<String>)
    ensures
        match quoted_path(
            path@,
            shell_kind,
            match quoted {
                Some(q) => Some(q@),
                None => None,
            },
        ) {
            Some(t) => r matches Some(s) && s@ == t,
            None => r is None,
        },
{
    let normalized = script_path_for_shell(path);
    match shell_kind {
        ShellKind::PowerShell => Some(force_single_quote(normalized.as_str())),
        ShellKind::Pwsh => Some(force_single_quote(normalized.as_str())),
        ShellKind::Cmd => {
            proof {
                reveal_strlit("\"");
            }
            let mut r = "\"".to_string();
            r.append(replace_str(normalized.as_str(), "\"", "\"\"").as_str());
            r.append("\"");
            Some(r)
        },
        ShellKind::Posix => match quoted {
            Some(q) => {
                if starts_with_str(q, "'") || starts_with_str(q, "\"") {
                    Some(q.to_string())
                } else {
                    proof {
                        reveal_strlit("'");
                    }
                    let mut r = "'".to_string();
                    r.append(replace_str(normalized.as_str(), "'", "'\\''").as_str());
                    r.append("'");
                    Some(r)
                }
            },
            None => None,
        },
    }
}

/// The path as a shell takes it is always quoted.
pub proof fn lemma_paths_are_quoted(path: Seq<char>, shell: ShellKind, quoted: Option<Seq<char>>)
    requires
        quoted_path(path, shell, quoted) is Some,
    ensures
        starts_with(quoted_path(path, shell, quoted)->0, "'"@) || starts_with(
            quoted_path(path, shell, quoted)->0,
            "\""@,
        ),
{
    let r = quoted_path(path, shell, quoted)->0;
    reveal_strlit("'");
    reveal_strlit("\"");
    if shell == ShellKind::Cmd {
        assert(r.take(1) =~= "\""@);
    } else if shell == ShellKind::Posix {
        let q = quoted->0;
        if !(starts_with(q, "'"@) || starts_with(q, "\""@)) {
            assert(r.take(1) =~= "'"@);
        }
    } else {
        assert(r.take(1) =~= "'"@);
    }
}

/// What a user is asked before code runs.
#[derive(Debug)]
pub struct RunCodePermission {
    pub title: String,
    pub context: ToolPermissionContext,
}

/// How a program came to its end.
#[derive(Debug)]
pub enum CodeOutcome {
    TimedOut,
    Cancelled,
    Exited { exit_code: Option<u32>, output: String, truncated: bool },
}

/// An optional number, as it is written in a message.
pub open spec fn exit_text(code: Option<u32>) -> Seq<char> {
    match code {
        Some(n) => "Some("@ + dec(n as nat) + ")"@,
        None => "None"@,
    }
}

pub open spec fn output_text(output: Seq<char>, truncated: bool) -> Seq<char> {
    if truncated {
        output + "\n[output truncated]"@
    } else {
        output
    }
}

/// Why code is not run, if it is not.
pub open spec fn code_refusal(input: RunCodeToolInput, enabled: bool, windows: bool) -> Option<
    Seq<char>,
> {
    if !enabled {
        Some(FULL_ACCESS_DISABLED@)
    } else if trim(input.code@).len() == 0 {
        Some("run_code requires non-empty source code."@)
    } else if interpreter_for(input.language@, windows) is None {
        Some(UNSUPPORTED_LANGUAGE@)
    } else {
        None
    }
}

/// The command that runs code.
pub open spec fn command_text(interpreter: Interpreter, quoted_script: Seq<char>) -> Seq<char> {
    interpreter.program@ + " "@ + join(views(interpreter.args@), " "@) + " "@ + quoted_script
}

/// Whether `p` asks whether code may run.
pub open spec fn asks_to_run(p: RunCodePermission, input: RunCodeToolInput) -> bool {
    &&& p.title@ == "Run "@ + input.language@ + " code"@
    &&& p.context.tool_name@ == RUN_CODE_NAME@
    &&& views(p.context.input_values@) == seq![input.language@ + ":"@ + input.code@]
}

/// What a user is asked besides where the code runs outside of the project.
pub open spec fn escape_text(input: RunCodeToolInput) -> Seq<char> {
    "Run code outside project: "@ + match input.cd {
        Some(cd) => cd@,
        None => "<default>"@,
    }
}

/// For how long code may run, in milliseconds.
pub open spec fn time_limit(input: RunCodeToolInput) -> u64 {
    match input.timeout_ms {
        Some(ms) => if ms <= MAX_TIMEOUT_MS {
            ms
        } else {
            MAX_TIMEOUT_MS
        },
        None => DEFAULT_TIMEOUT_MS,
    }
}

/// Whether `r` tells how a program came to its end.
pub open spec fn tells_of_code(
    r: Result<String, String>,
    outcome: CodeOutcome,
    timeout_ms: u64,
) -> bool {
    match outcome {
        CodeOutcome::TimedOut => r matches Err(e) && e@ == "Code execution timed out after "@ + dec(
            timeout_ms as nat,
        ) + " ms."@,
        CodeOutcome::Cancelled => r matches Err(e) && e@ == "Code execution cancelled by user."@,
        CodeOutcome::Exited { exit_code, output, truncated } => if exit_code == Some(0u32) {
            r matches Ok(t) && t@ == output_text(output@, truncated)
        } else {
            r matches Err(e) && e@ == "Code interpreter exited with status "@ + exit_text(exit_code)
                + ".\n"@ + output_text(output@, truncated)
        },
    }
}

pub struct RunCodeTool;

impl RunCodeTool {
    pub fn initial_title(input: Option<&RunCodeToolInput>) -> (r: String)
        ensures
            r@ == match input {
                Some(i) => "Run "@ + i.language@ + " code"@,
                None => "Run code"@,
            },
    {
        match input {
            Some(i) => {
                let mut r = "Run ".to_string();
                r.append(i.language.as_str());
                r.append(" code");
                r
            },
            None => "Run code".to_string(),
        }
    }

    /// What runs the code, or why nothing does.
    pub fn check(input: &RunCodeToolInput, enabled: bool, windows: bool) -> (r: Result<
        Interpreter,
        String,
    >)
        ensures
            match code_refusal(*input, enabled, windows) {
                Some(m) => r matches Err(e) && e@ == m,
                None => r matches Ok(i) && is_interpreter(
                    i,
                    interpreter_for(input.language@, windows)->0,
                ),
            },
    {
        if !enabled {
            return Err(FULL_ACCESS_DISABLED.to_string());
        }
        if trim_str(input.code.as_str()).as_str().is_empty() {
            return Err("run_code requires non-empty source code.".to_string());
        }
        interpreter(input.language.as_str(), windows)
    }

    /// The command that runs the code.
    pub fn command(interpreter: &Interpreter, quoted_script: &str) -> (r: String)
        ensures
            r@ == command_text(*interpreter, quoted_script@),
    {
        let mut r = interpreter.program.clone();
        r.append(" ");
        r.append(join_strs(&interpreter.args, " ").as_str());
        r.append(" ");
        r.append(quoted_script);
        r
    }

    /// What a user is asked before the code runs.
    pub fn permission(input: &RunCodeToolInput) -> (r: RunCodePermission)
        ensures
            asks_to_run(r, *input),
    {
        let mut value = input.language.clone();
        value.append(":");
        value.append(input.code.as_str());
        let values: Vec<String> = vec![value];
        assert(views(values@) =~= seq![value@]);
        RunCodePermission {
            title: Self::initial_title(Some(input)),
            context: ToolPermissionContext {
                tool_name: RUN_CODE_NAME.to_string(),
                input_values: values,
            },
        }
    }

    /// What a user is asked besides where the code runs outside of the project.
    pub fn escape_title(input: &RunCodeToolInput) -> (r: String)
        ensures
            r@ == escape_text(*input),
    {
        let mut r = "Run code outside project: ".to_string();
        match &input.cd {
            Some(cd) => r.append(cd.as_str()),
            None => r.append("<default>"),
        }
        r
    }

    /// For how long the code may run, in milliseconds.
    pub fn timeout(input: &RunCodeToolInput) -> (r: u64)
        ensures
            r == time_limit(*input),
            r <= MAX_TIMEOUT_MS,
    {
        match input.timeout_ms {
            Some(ms) => if ms <= MAX_TIMEOUT_MS {
                ms
            } else {
                MAX_TIMEOUT_MS
            },
            None => DEFAULT_TIMEOUT_MS,
        }
    }

    /// What the tool gives. It succeeds just where the program ended by itself and said so.
    pub fn finish(outcome: CodeOutcome, timeout_ms: u64) -> (r: Result<String, String>)
        ensures
            tells_of_code(r, outcome, timeout_ms),
    {
        match outcome {
            CodeOutcome::TimedOut => {
                let mut e = "Code execution timed out after ".to_string();
                e.append(dec_str(timeout_ms).as_str());
                e.append(" ms.");
                Err(e)
            },
            CodeOutcome::Cancelled => Err("Code execution cancelled by user.".to_string()),
            CodeOutcome::Exited { exit_code, output, truncated } => {
                let mut text = output;
                if truncated {
                    text.append("\n[output truncated]");
                }
                match exit_code {
                    Some(code) => {
                        if code == 0 {
                            return Ok(text);
                        }
                        let mut status = "Some(".to_string();
                        status.append(dec_str(code as u64).as_str());
                        status.append(")");
                        let mut e = "Code interpreter exited with status ".to_string();
                        e.append(status.as_str());
                        e.append(".\n");
                        e.append(text.as_str());
                        Err(e)
                    },
                    None => {
                        let mut e = "Code interpreter exited with status ".to_string();
                        e.append("None");
                        e.append(".\n");
                        e.append(text.as_str());
                        Err(e)
                    },
                }
            },
        }
    }
}

// ---------------------------------------------------------------------------
// The tool, one step at a time
// ---------------------------------------------------------------------------

/// A file with code that was written, and how the shell quotes its path.
#[derive(Debug)]
pub struct WrittenScript {
    pub path: String,
    pub shell: ShellKind,
    /// How a POSIX shell has the path with slashes quoted, if it can be.
    pub quoted: Option<String>,
}

/// Where code is to run, and what says whether it may.
#[derive(Debug)]
pub struct Placement {
    pub directory: Option<String>,
    pub worktrees: Vec<String>,
    pub settings: FullAccessSettings,
}

/// What the tool waits for.
#[derive(Debug)]
pub enum CodeRun {
    /// The code is written to a file.
    Writing { input: RunCodeToolInput, interpreter: Interpreter },
    /// The directory is looked up.
    Placing { input: RunCodeToolInput, command: String },
    /// A user is asked whether the code may run; `escapes` says that there is a second question.
    Asking { command: String, directory: Option<String>, timeout_ms: u64, escapes: bool },
    /// A user is asked whether it may run outside of the project.
    AskingEscape { command: String, directory: Option<String>, timeout_ms: u64 },
    Running { timeout_ms: u64 },
    Done,
}

/// What happens.
#[derive(Debug)]
pub enum CodeEvent {
    Written(Result<WrittenScript, String>),
    Placed(Result<Placement, String>),
    /// A user has answered the first question, or why not.
    Answered(Result<(), String>),
    /// A user has answered the second question, or why not.
    EscapeAnswered(Result<(), String>),
    Ran(Result<CodeOutcome, String>),
}

/// What is done next.
#[derive(Debug)]
pub enum CodeAction {
    Write { suffix: String, code: String },
    /// The directory is looked up.
    Place { cd: Option<String> },
    Ask { permission: RunCodePermission, escape: Option<RunCodePermission> },
    Run { command: String, directory: Option<String>, output_limit: u64, timeout_ms: u64 },
    Finish(Result<String, String>),
    /// Another answer is awaited, or the event changes nothing.
    Wait,
}

/// Whether the tool has ended with an error.
pub open spec fn code_fails(after: CodeRun, action: CodeAction, text: Seq<char>) -> bool {
    &&& after is Done
    &&& action matches CodeAction::Finish(Err(e))
    &&& e@ == text
}

/// Whether code runs as it was planned.
pub open spec fn code_runs(
    after: CodeRun,
    action: CodeAction,
    command: String,
    directory: Option<String>,
    timeout_ms: u64,
) -> bool {
    &&& after == CodeRun::Running { timeout_ms }
    &&& action == CodeAction::Run { command, directory, output_limit: OUTPUT_LIMIT, timeout_ms }
}

/// The directory that code is to run in, if there is one.
pub open spec fn placed_in(placement: Placement) -> Seq<Seq<char>> {
    match placement.directory {
        Some(d) => seq![d@],
        None => Seq::empty(),
    }
}

pub open spec fn code_steps(
    before: CodeRun,
    event: CodeEvent,
    after: CodeRun,
    action: CodeAction,
) -> bool {
    match (before, event) {
        (CodeRun::Writing { .. }, CodeEvent::Written(Err(e)))
        | (CodeRun::Placing { .. }, CodeEvent::Placed(Err(e)))
        | (CodeRun::Asking { .. }, CodeEvent::Answered(Err(e)))
        | (CodeRun::AskingEscape { .. }, CodeEvent::EscapeAnswered(Err(e)))
        | (CodeRun::Running { .. }, CodeEvent::Ran(Err(e))) => code_fails(after, action, e@),
        (CodeRun::Writing { input, interpreter }, CodeEvent::Written(Ok(script))) => {
            match quoted_path(
                script.path@,
                script.shell,
                match script.quoted {
                    Some(q) => Some(q@),
                    None => None,
                },
            ) {
                None => code_fails(after, action, QUOTING_FAILED@),
                Some(q) => {
                    &&& after matches CodeRun::Placing { input: i, command }
                    &&& i == input
                    &&& command@ == command_text(interpreter, q)
                    &&& action == CodeAction::Place { cd: input.cd }
                },
            }
        },
        (CodeRun::Placing { input, command }, CodeEvent::Placed(Ok(placement))) => {
            match gate(placed_in(placement), views(placement.worktrees@), placement.settings) {
                Err(e) => code_fails(after, action, e),
                Ok(escaped) => {
                    &&& after == CodeRun::Asking {
                        command,
                        directory: placement.directory,
                        timeout_ms: time_limit(input),
                        escapes: escaped.len() > 0,
                    }
                    &&& action matches CodeAction::Ask { permission, escape }
                    &&& asks_to_run(permission, input)
                    &&& match escape {
                        None => escaped.len() == 0,
                        Some(p) => {
                            &&& escaped.len() > 0
                            &&& p.title@ == escape_text(input)
                            &&& p.context.tool_name@ == RUN_CODE_NAME@
                            &&& views(p.context.input_values@) == escaped
                        },
                    }
                },
            }
        },
        (
            CodeRun::Asking { command, directory, timeout_ms, escapes },
            CodeEvent::Answered(Ok(_)),
        ) => if escapes {
            &&& after == CodeRun::AskingEscape { command, directory, timeout_ms }
            &&& action is Wait
        } else {
            code_runs(after, action, command, directory, timeout_ms)
        },
        (
            CodeRun::AskingEscape { command, directory, timeout_ms },
            CodeEvent::EscapeAnswered(Ok(_)),
        ) => code_runs(after, action, command, directory, timeout_ms),
        (CodeRun::Running { timeout_ms }, CodeEvent::Ran(Ok(outcome))) => {
            &&& after is Done
            &&& action matches CodeAction::Finish(r)
            &&& tells_of_code(r, outcome, timeout_ms)
        },
        _ => after == before && action is Wait,
    }
}

fn fail(error: String) -> (r: (CodeRun, CodeAction))
    ensures
        code_fails(r.0, r.1, error@),
{
    (CodeRun::Done, CodeAction::Finish(Err(error)))
}

fn run_command(command: String, directory: Option<String>, timeout_ms: u64) -> (r: (
    CodeRun,
    CodeAction,
))
    ensures
        code_runs(r.0, r.1, command, directory, timeout_ms),
{
    (
        CodeRun::Running { timeout_ms },
        CodeAction::Run { command, directory, output_limit: OUTPUT_LIMIT, timeout_ms },
    )
}

fn copy_text(text: &Option<String>) -> (r: Option<String>)
    ensures
        r == *text,
{
    match text {
        Some(t) => Some(t.clone()),
        None => None,
    }
}

fn ask_to_run(input: &RunCodeToolInput, command: String, placement: Placement) -> (r: (
    CodeRun,
    CodeAction,
))
    ensures
        code_steps(
            CodeRun::Placing { input: *input, command },
            CodeEvent::Placed(Ok(placement)),
            r.0,
            r.1,
        ),
{
    let mut paths: Vec<String> = Vec::new();
    match &placement.directory {
        Some(d) => {
            paths.push(d.clone());
        },
        None => {},
    }
    assert(views(paths@) =~= placed_in(placement));
    let context = match escape_gate(
        &placement.worktrees,
        &placement.settings,
        &paths,
        RUN_CODE_NAME,
    ) {
        Err(e) => {
            return fail(e);
        },
        Ok(context) => context,
    };
    let timeout_ms: u64 = RunCodeTool::timeout(input);
    let permission = RunCodeTool::permission(input);
    let (escapes, escape) = match context {
        Some(context) => (
            true,
            Some(RunCodePermission { title: RunCodeTool::escape_title(input), context }),
        ),
        None => (false, None),
    };
    (
        CodeRun::Asking { command, directory: placement.directory, timeout_ms, escapes },
        CodeAction::Ask { permission, escape },
    )
}

impl CodeRun {
    pub fn start(input: RunCodeToolInput, enabled: bool, windows: bool) -> (r: (
        CodeRun,
        CodeAction,
    ))
        ensures
            match code_refusal(input, enabled, windows) {
                Some(m) => code_fails(r.0, r.1, m),
                None => {
                    &&& r.0 matches CodeRun::Writing { input: i, interpreter }
                    &&& i == input
                    &&& is_interpreter(interpreter, interpreter_for(input.language@, windows)->0)
                    &&& r.1 matches CodeAction::Write { suffix, code }
                    &&& suffix == interpreter.suffix
                    &&& code == input.code
                },
            },
    {
        match RunCodeTool::check(&input, enabled, windows) {
            Err(e) => fail(e),
            Ok(interpreter) => {
                let suffix = interpreter.suffix.clone();
                let code = input.code.clone();
                (CodeRun::Writing { input, interpreter }, CodeAction::Write { suffix, code })
            },
        }
    }

    pub fn step(self, event: CodeEvent) -> (r: (CodeRun, CodeAction))
        ensures
            code_steps(self, event, r.0, r.1),
    {
        match (self, event) {
            (CodeRun::Writing { .. }, CodeEvent::Written(Err(e)))
            | (CodeRun::Placing { .. }, CodeEvent::Placed(Err(e)))
            | (CodeRun::Asking { .. }, CodeEvent::Answered(Err(e)))
            | (CodeRun::AskingEscape { .. }, CodeEvent::EscapeAnswered(Err(e)))
            | (CodeRun::Running { .. }, CodeEvent::Ran(Err(e))) => fail(e),
            (CodeRun::Writing { input, interpreter }, CodeEvent::Written(Ok(script))) => {
                let quoted = quote_script_path_for_shell(
                    script.path.as_str(),
                    script.shell,
                    match &script.quoted {
                        Some(q) => Some(q.as_str()),
                        None => None,
                    },
                );
                match quoted {
                    None => fail(QUOTING_FAILED.to_string()),
                    Some(q) => {
                        let command = RunCodeTool::command(&interpreter, q.as_str());
                        let cd = copy_text(&input.cd);
                        (CodeRun::Placing { input, command }, CodeAction::Place { cd })
                    },
                }
            },
            (CodeRun::Placing { input, command }, CodeEvent::Placed(Ok(placement))) => {
                ask_to_run(&input, command, placement)
            },
            (
                CodeRun::Asking { command, directory, timeout_ms, escapes },
                CodeEvent::Answered(Ok(_)),
            ) => {
                if escapes {
                    (
                        CodeRun::AskingEscape { command, directory, timeout_ms },
                        CodeAction::Wait,
                    )
                } else {
                    run_command(command, directory, timeout_ms)
                }
            },
            (
                CodeRun::AskingEscape { command, directory, timeout_ms },
                CodeEvent::EscapeAnswered(Ok(_)),
            ) => run_command(command, directory, timeout_ms),
            (CodeRun::Running { timeout_ms }, CodeEvent::Ran(Ok(outcome))) => {
                (CodeRun::Done, CodeAction::Finish(RunCodeTool::finish(outcome, timeout_ms)))
            },
            (run, _) => (run, CodeAction::Wait),
        }
    }
}

/// Code runs only right after a user has answered yes to the last question there was, and a
/// refusal of any question ends the tool.
pub proof fn lemma_running_needs_permission(
    before: CodeRun,
    event: CodeEvent,
    after: CodeRun,
    action: CodeAction,
)
    requires
        code_steps(before, event, after, action),
    ensures
        action is Run ==> {
            ||| (event matches CodeEvent::Answered(Ok(_))) && (before matches CodeRun::Asking {
                escapes,
                ..
            } && !escapes)
            ||| (event matches CodeEvent::EscapeAnswered(Ok(_))) && before is AskingEscape
        },
        before is Asking ==> (event matches CodeEvent::Answered(Err(e)) ==> code_fails(
            after,
            action,
            e@,
        )),
        before is AskingEscape ==> (event matches CodeEvent::EscapeAnswered(Err(e)) ==> code_fails(
            after,
            action,
            e@,
        )),
{
}

/// The second question is only come to once the first was answered with yes, and it is not passed
/// over where the code would run outside of the project.
pub proof fn lemma_escape_is_asked_about(
    before: CodeRun,
    event: CodeEvent,
    after: CodeRun,
    action: CodeAction,
)
    requires
        code_steps(before, event, after, action),
    ensures
        after is AskingEscape && before !is AskingEscape ==> (event matches CodeEvent::Answered(
            Ok(_),
        )) && before is Asking,
        action matches CodeAction::Ask { escape, .. } ==> {
            &&& event matches CodeEvent::Placed(Ok(placement))
            &&& escape is Some <==> gate(
                placed_in(placement),
                views(placement.worktrees@),
                placement.settings,
            )->Ok_0.len() > 0
            &&& after matches CodeRun::Asking { escapes, .. }
            &&& escapes == escape is Some
        },
{
}

} // verus!
