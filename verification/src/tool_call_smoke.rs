//! A quick trial of whether a language model makes tool calls as it should.
use crate::request::LanguageModelToolUse;
use crate::text::{
    byte_len_capped, bytes_exceed, contains_char, contains_static, debug_quoted, debug_str, dec,
    dec_str, is_blank, is_blank_str, join, join_strs, parse_u64, parsed_unsigned, str_views,
    utf8_len, views,
};
use crate::tool_call_normalization::{
    embedded_calls, extract_tool_calls_from_text, repair_malformed_tool_use, repaired_call,
    CallView,
};
use vstd::prelude::*;

verus! {

pub const DEFAULT_STREAM_TIMEOUT_SECS: u64 = 90;

pub const MAX_WHITESPACE_TEXT: usize = 512;

pub const MAX_ATTEMPTS: usize = 2;

/// One scenario of the trial.
#[derive(Clone, Debug)]
pub struct ToolCallSmokeCase {
    pub name: &'static str,
    pub prompt: &'static str,
    pub expected_tools: Vec<&'static str>,
}

/// What a scenario came to.
#[derive(Clone, Debug)]
pub struct ToolCallSmokeCaseResult {
    pub case: &'static str,
    pub got_tool: bool,
    pub tool_name: Option<String>,
    pub json_parse_errors: Vec<String>,
    pub streamed_text_preview: String,
    pub expected_tools: Vec<&'static str>,
}

/// The strings in brackets, as a user reads a list.
pub open spec fn listed(items: Seq<Seq<char>>) -> Seq<char> {
    "["@ + join(items.map_values(|s: Seq<char>| debug_quoted(s)), ", "@) + "]"@
}

fn list_text(items: &Vec<&'static str>) -> (r: String)
    ensures
        r@ == listed(str_views(items@)),
{
    let ghost quoted = str_views(items@).map_values(|s: Seq<char>| debug_quoted(s));
    let mut parts: Vec<String> = Vec::new();
    let mut i: usize = 0;
    while i < items.len()
        invariant
            i <= items@.len(),
            quoted == str_views(items@).map_values(|s: Seq<char>| debug_quoted(s)),
            views(parts@) == quoted.take(i as int),
        decreases items@.len() - i,
    {
        let ghost before = views(parts@);
        parts.push(debug_str(items[i]));
        assert(views(parts@) =~= before.push(quoted[i as int]));
        assert(quoted.take(i + 1) =~= before.push(quoted[i as int]));
        i = i + 1;
    }
    assert(views(parts@) =~= quoted);
    let mut r = "[".to_string();
    r.append(join_strs(&parts, ", ").as_str());
    r.append("]");
    r
}

/// The errors as the lines of a list.
pub open spec fn error_lines(errors: Seq<Seq<char>>) -> Seq<char>
    decreases errors.len(),
{
    if errors.len() == 0 {
        Seq::empty()
    } else {
        error_lines(errors.drop_last()) + "  - "@ + errors.last() + "\n"@
    }
}

impl ToolCallSmokeCaseResult {
    /// A tool was called, it was one of those that were expected, and its input could be read.
    pub open spec fn is_pass(&self) -> bool {
        &&& self.got_tool
        &&& self.tool_name matches Some(name) && str_views(self.expected_tools@).contains(name@)
        &&& self.json_parse_errors@.len() == 0
    }

    pub fn passed(&self) -> (r: bool)
        ensures
            r == self.is_pass(),
    {
        let expected = match &self.tool_name {
            Some(name) => contains_static(&self.expected_tools, name.as_str()),
            None => false,
        };
        self.got_tool && expected && self.json_parse_errors.len() == 0
    }

    pub open spec fn text(&self) -> Seq<char> {
        let head = "Case: "@ + self.case@ + "\nExpected one of: "@ + listed(
            str_views(self.expected_tools@),
        ) + "\nGot tool: "@ + (if self.got_tool {
            "true"@
        } else {
            "false"@
        }) + " ("@ + (match self.tool_name {
            Some(name) => name@,
            None => "none"@,
        }) + ")\n"@;
        let errors = if self.json_parse_errors@.len() == 0 {
            Seq::empty()
        } else {
            "JSON parse errors:\n"@ + error_lines(views(self.json_parse_errors@))
        };
        let preview = if self.streamed_text_preview@.len() == 0 {
            Seq::empty()
        } else {
            "Streamed text preview:\n"@ + self.streamed_text_preview@ + "\n"@
        };
        head + errors + preview
    }

    /// The outcome as a user reads it.
    pub fn to_text(&self) -> (r: String)
        ensures
            r@ == self.text(),
    {
        let mut head = "Case: ".to_string();
        head.append(self.case);
        head.append("\nExpected one of: ");
        head.append(list_text(&self.expected_tools).as_str());
        head.append("\nGot tool: ");
        head.append(if self.got_tool {
            "true"
        } else {
            "false"
        });
        head.append(" (");
        match &self.tool_name {
            Some(name) => head.append(name.as_str()),
            None => head.append("none"),
        }
        head.append(")\n");
        let mut errors = String::new();
        if self.json_parse_errors.len() > 0 {
            errors = "JSON parse errors:\n".to_string();
            let mut list = String::new();
            let mut i: usize = 0;
            assert(views(self.json_parse_errors@).take(0) =~= Seq::<Seq<char>>::empty());
            while i < self.json_parse_errors.len()
                invariant
                    i <= self.json_parse_errors@.len(),
                    list@ == error_lines(views(self.json_parse_errors@).take(i as int)),
                decreases self.json_parse_errors@.len() - i,
            {
                assert(views(self.json_parse_errors@).take(i + 1).drop_last() =~= views(
                    self.json_parse_errors@,
                ).take(i as int));
                assert(views(self.json_parse_errors@).take(i + 1).last()
                    == self.json_parse_errors@[i as int]@);
                list.append("  - ");
                list.append(self.json_parse_errors[i].as_str());
                list.append("\n");
                i = i + 1;
            }
            assert(views(self.json_parse_errors@).take(self.json_parse_errors@.len() as int)
                =~= views(self.json_parse_errors@));
            errors.append(list.as_str());
        }
        let mut preview = String::new();
        if !self.streamed_text_preview.as_str().is_empty() {
            preview = "Streamed text preview:\n".to_string();
            preview.append(self.streamed_text_preview.as_str());
            preview.append("\n");
        }
        let mut r = head;
        r.append(errors.as_str());
        r.append(preview.as_str());
        r
    }
}

/// All outcomes for one model.
#[derive(Clone, Debug)]
pub struct ToolCallSmokeReport {
    pub model_label: String,
    pub results: Vec<ToolCallSmokeCaseResult>,
}

/// How many of the scenarios failed.
pub open spec fn failures(results: Seq<ToolCallSmokeCaseResult>) -> nat
    decreases results.len(),
{
    if results.len() == 0 {
        0
    } else {
        failures(results.drop_last()) + if results.last().is_pass() {
            0nat
        } else {
            1nat
        }
    }
}

pub open spec fn outcome_lines(results: Seq<ToolCallSmokeCaseResult>) -> Seq<char>
    decreases results.len(),
{
    if results.len() == 0 {
        Seq::empty()
    } else {
        outcome_lines(results.drop_last()) + (if results.last().is_pass() {
            "PASS"@
        } else {
            "FAIL"@
        }) + " "@ + results.last().text() + "\n---\n"@
    }
}

/// A report has passed if and only if nothing in it failed.
pub proof fn lemma_passes_without_failures(results: Seq<ToolCallSmokeCaseResult>)
    ensures
        failures(results) <= results.len(),
        failures(results) == 0 <==> forall|i: int|
            0 <= i < results.len() ==> (#[trigger] results[i]).is_pass(),
    decreases results.len(),
{
    if results.len() > 0 {
        let front = results.drop_last();
        lemma_passes_without_failures(front);
        if failures(results) == 0 {
            assert forall|i: int| 0 <= i < results.len() implies (
            #[trigger] results[i]).is_pass() by {
                if i < front.len() {
                    assert(front[i] == results[i]);
                }
            }
        }
        if forall|i: int| 0 <= i < results.len() ==> (#[trigger] results[i]).is_pass() {
            assert forall|i: int| 0 <= i < front.len() implies (#[trigger] front[i]).is_pass() by {
                assert(front[i] == results[i]);
            }
            assert(results[results.len() - 1].is_pass());
        }
    }
}

impl ToolCallSmokeReport {
    pub fn passed(&self) -> (r: bool)
        ensures
            r == forall|i: int|
                0 <= i < self.results@.len() ==> (#[trigger] self.results@[i]).is_pass(),
    {
        proof {
            lemma_passes_without_failures(self.results@);
        }
        self.failure_count() == 0
    }

    pub fn failure_count(&self) -> (r: usize)
        ensures
            r == failures(self.results@),
    {
        let mut n: usize = 0;
        let mut i: usize = 0;
        assert(self.results@.take(0) =~= Seq::<ToolCallSmokeCaseResult>::empty());
        while i < self.results.len()
            invariant
                i <= self.results@.len(),
                n <= i,
                n == failures(self.results@.take(i as int)),
            decreases self.results@.len() - i,
        {
            assert(self.results@.take(i + 1).drop_last() =~= self.results@.take(i as int));
            assert(self.results@.take(i + 1).last() == self.results@[i as int]);
            if !self.results[i].passed() {
                n = n + 1;
            }
            i = i + 1;
        }
        assert(self.results@.take(self.results@.len() as int) =~= self.results@);
        n
    }

    pub open spec fn verdict(&self) -> Seq<char> {
        if failures(self.results@) == 0 {
            "All "@ + dec(self.results@.len()) + " smoke cases passed.\n"@
        } else {
            dec(failures(self.results@)) + "/"@ + dec(self.results@.len())
                + " smoke cases failed.\n"@
        }
    }

    pub fn summary(&self) -> (r: String)
        ensures
            r@ == "Model: "@ + self.model_label@ + "\n"@ + outcome_lines(self.results@)
                + self.verdict(),
    {
        let mut lines = String::new();
        let mut i: usize = 0;
        assert(self.results@.take(0) =~= Seq::<ToolCallSmokeCaseResult>::empty());
        while i < self.results.len()
            invariant
                i <= self.results@.len(),
                lines@ == outcome_lines(self.results@.take(i as int)),
            decreases self.results@.len() - i,
        {
            assert(self.results@.take(i + 1).drop_last() =~= self.results@.take(i as int));
            assert(self.results@.take(i + 1).last() == self.results@[i as int]);
            lines.append(if self.results[i].passed() {
                "PASS"
            } else {
                "FAIL"
            });
            lines.append(" ");
            lines.append(self.results[i].to_text().as_str());
            lines.append("\n---\n");
            i = i + 1;
        }
        assert(self.results@.take(self.results@.len() as int) =~= self.results@);
        let failed: usize = self.failure_count();
        let mut r = "Model: ".to_string();
        r.append(self.model_label.as_str());
        r.append("\n");
        r.append(lines.as_str());
        if failed == 0 {
            let mut verdict = "All ".to_string();
            verdict.append(dec_str(self.results.len() as u64).as_str());
            verdict.append(" smoke cases passed.\n");
            r.append(verdict.as_str());
        } else {
            let mut verdict = dec_str(failed as u64);
            verdict.append("/");
            verdict.append(dec_str(self.results.len() as u64).as_str());
            verdict.append(" smoke cases failed.\n");
            r.append(verdict.as_str());
        }
        r
    }
}

#[derive(Clone, Copy, Debug, PartialEq, Eq)]
pub struct ToolCallSmokeOptions {
    pub skip_warmup: bool,
    pub stream_timeout_secs: u64,
}

impl ToolCallSmokeOptions {
    /// The options that the environment asks for: whether the variable that skips the warm-up is
    /// set, and the value of the one that limits the time, in seconds.
    pub fn from_environment(skip_warmup_is_set: bool, timeout: Option<&str>) -> (r: Self)
        ensures
            r.skip_warmup == skip_warmup_is_set,
            r.stream_timeout_secs == match timeout {
                Some(t) => match parsed_unsigned(t@, u64::MAX as nat) {
                    Some(n) => n,
                    None => DEFAULT_STREAM_TIMEOUT_SECS as nat,
                },
                None => DEFAULT_STREAM_TIMEOUT_SECS as nat,
            },
    {
        let stream_timeout_secs: u64 = match timeout {
            Some(t) => match parse_u64(t) {
                Some(n) => n,
                None => DEFAULT_STREAM_TIMEOUT_SECS,
            },
            None => DEFAULT_STREAM_TIMEOUT_SECS,
        };
        ToolCallSmokeOptions { skip_warmup: skip_warmup_is_set, stream_timeout_secs }
    }
}

impl Default for ToolCallSmokeOptions {
    fn default() -> (r: Self)
        ensures
            !r.skip_warmup,
            r.stream_timeout_secs == DEFAULT_STREAM_TIMEOUT_SECS,
    {
        ToolCallSmokeOptions {
            skip_warmup: false,
            stream_timeout_secs: DEFAULT_STREAM_TIMEOUT_SECS,
        }
    }
}

// ---------------------------------------------------------------------------
// The scenarios
// ---------------------------------------------------------------------------

pub open spec fn smoke_tools() -> Seq<Seq<char>> {
    seq![
        "read_file"@,
        "terminal"@,
        "grep"@,
        "list_directory"@,
        "find_path"@,
        "write_file"@,
        "edit_file"@,
    ]
}

pub fn smoke_tool_names() -> (r: Vec<&'static str>)
    ensures
        str_views(r@) == smoke_tools(),
{
    let mut r: Vec<&'static str> = Vec::new();
    r.push("read_file");
    r.push("terminal");
    r.push("grep");
    r.push("list_directory");
    r.push("find_path");
    r.push("write_file");
    r.push("edit_file");
    assert(str_views(r@) =~= smoke_tools());
    r
}

/// The available tools that a scenario offers: the expected ones that belong to the trial.
pub open spec fn offered(available: Seq<Seq<char>>, expected: Seq<Seq<char>>) -> Seq<Seq<char>>
    decreases available.len(),
{
    if available.len() == 0 {
        Seq::empty()
    } else {
        let before = offered(available.drop_last(), expected);
        if smoke_tools().contains(available.last()) && expected.contains(available.last()) {
            before.push(available.last())
        } else {
            before
        }
    }
}

pub fn smoke_tools_for(available: &Vec<String>, allowed_tools: &Vec<&'static str>) -> (r: Vec<
    String,
>)
    ensures
        views(r@) == offered(views(available@), str_views(allowed_tools@)),
{
    let names = smoke_tool_names();
    let mut r: Vec<String> = Vec::new();
    let mut i: usize = 0;
    assert(views(available@).take(0) =~= Seq::<Seq<char>>::empty());
    assert(views(r@) =~= Seq::<Seq<char>>::empty());
    while i < available.len()
        invariant
            i <= available@.len(),
            str_views(names@) == smoke_tools(),
            views(r@) == offered(views(available@).take(i as int), str_views(allowed_tools@)),
        decreases available@.len() - i,
    {
        let ghost before = views(r@);
        assert(views(available@).take(i + 1).drop_last() =~= views(available@).take(i as int));
        assert(views(available@).take(i + 1).last() == available@[i as int]@);
        if contains_static(&names, available[i].as_str()) && contains_static(
            allowed_tools,
            available[i].as_str(),
        ) {
            r.push(available[i].clone());
            assert(views(r@) =~= before.push(available@[i as int]@));
        }
        i = i + 1;
    }
    assert(views(available@).take(available@.len() as int) =~= views(available@));
    r
}

pub const SMOKE_CASE_COUNT: usize = 5;

/// The name, the prompt and the expected tools of the `i`-th scenario. Markup in the arguments
/// of the last two keeps an eye on calls that are mistaken for elements.
pub open spec fn smoke_case_view(i: int) -> (Seq<char>, Seq<char>, Seq<Seq<char>>) {
    if i == 0 {
        (
            "terminal_git_status"@,
            "You must call the terminal tool. Run `git status` in the project root."@,
            seq!["terminal"@],
        )
    } else if i == 1 {
        (
            "read_file"@,
            "You must call the read_file tool (do not guess). Read Cargo.toml."@,
            seq!["read_file"@],
        )
    } else if i == 2 {
        (
            "list_or_search"@,
            "You must call a search or list tool (grep, list_directory, or find_path). Find Rust source files under src/. Do not use the terminal."@,
            seq!["grep"@, "list_directory"@, "find_path"@],
        )
    } else if i == 3 {
        (
            "write_file_jsx"@,
            "You must call the write_file tool. Create `root/src/App.tsx` containing exactly:\nexport const App = () => <div className=\"app\">Hello</div>;"@,
            seq!["write_file"@],
        )
    } else {
        (
            "edit_file_jsx"@,
            "You must call the edit_file tool. In `root/src/App.tsx`, replace the text `<div className=\"app\">Hello</div>` with `<div className=\"app\">Hello, LEAD!</div>`. One edit only."@,
            seq!["edit_file"@],
        )
    }
}

impl ToolCallSmokeCase {
    pub open spec fn is_case(&self, v: (Seq<char>, Seq<char>, Seq<Seq<char>>)) -> bool {
        &&& self.name@ == v.0
        &&& self.prompt@ == v.1
        &&& str_views(self.expected_tools@) == v.2
    }
}

fn single_tool(tool: &'static str) -> (r: Vec<&'static str>)
    ensures
        str_views(r@) == seq![tool@],
{
    let mut r: Vec<&'static str> = Vec::new();
    r.push(tool);
    assert(str_views(r@) =~= seq![tool@]);
    r
}

/// The scenarios, in the order in which they run.
pub fn smoke_cases() -> (r: Vec<ToolCallSmokeCase>)
    ensures
        r@.len() == SMOKE_CASE_COUNT,
        forall|i: int| 0 <= i < r@.len() ==> (#[trigger] r@[i]).is_case(smoke_case_view(i)),
{
    let mut search: Vec<&'static str> = Vec::new();
    search.push("grep");
    search.push("list_directory");
    search.push("find_path");
    assert(str_views(search@) =~= seq!["grep"@, "list_directory"@, "find_path"@]);
    let mut r: Vec<ToolCallSmokeCase> = Vec::new();
    r.push(
        ToolCallSmokeCase {
            name: "terminal_git_status",
            prompt: "You must call the terminal tool. Run `git status` in the project root.",
            expected_tools: single_tool("terminal"),
        },
    );
    r.push(
        ToolCallSmokeCase {
            name: "read_file",
            prompt: "You must call the read_file tool (do not guess). Read Cargo.toml.",
            expected_tools: single_tool("read_file"),
        },
    );
    r.push(
        ToolCallSmokeCase {
            name: "list_or_search",
            prompt:
                "You must call a search or list tool (grep, list_directory, or find_path). Find Rust source files under src/. Do not use the terminal.",
            expected_tools: search,
        },
    );
    r.push(
        ToolCallSmokeCase {
            name: "write_file_jsx",
            prompt:
                "You must call the write_file tool. Create `root/src/App.tsx` containing exactly:\nexport const App = () => <div className=\"app\">Hello</div>;",
            expected_tools: single_tool("write_file"),
        },
    );
    r.push(
        ToolCallSmokeCase {
            name: "edit_file_jsx",
            prompt:
                "You must call the edit_file tool. In `root/src/App.tsx`, replace the text `<div className=\"app\">Hello</div>` with `<div className=\"app\">Hello, LEAD!</div>`. One edit only.",
            expected_tools: single_tool("edit_file"),
        },
    );
    r
}

/// The name, the prompt and the expected tool of the call that warms a model up.
pub open spec fn warmup_view() -> (Seq<char>, Seq<char>, Seq<Seq<char>>) {
    (
        "warmup"@,
        "Call list_directory with path \".\". Tool call only, no prose."@,
        seq!["list_directory"@],
    )
}

/// The call that warms a model up before the scenarios.
pub fn warmup_case() -> (r: ToolCallSmokeCase)
    ensures
        r.is_case(warmup_view()),
{
    ToolCallSmokeCase {
        name: "warmup",
        prompt: "Call list_directory with path \".\". Tool call only, no prose.",
        expected_tools: single_tool("list_directory"),
    }
}

/// Whether a scenario is tried again after its `attempt`-th trial.
pub fn should_retry(attempt: usize, result: &ToolCallSmokeCaseResult) -> (r: bool)
    ensures
        r == (!result.is_pass() && attempt < MAX_ATTEMPTS),
{
    !result.passed() && attempt < MAX_ATTEMPTS
}

// ---------------------------------------------------------------------------
// Reading the stream of a model
// ---------------------------------------------------------------------------

/// What a stream gives next.
pub enum SmokeEvent {
    ToolUse(LanguageModelToolUse),
    Text(String),
    Thinking(String),
    ToolUseJsonParseError { tool_name: String, raw_input: String, json_parse_error: String },
    Other,
    End,
    TimedOut,
}

/// What has been read of a stream.
#[derive(Debug)]
pub struct ToolCallExtraction {
    pub tool_use: Option<LanguageModelToolUse>,
    pub json_parse_errors: Vec<String>,
    pub streamed_text: String,
    pub full_text: String,
    /// The bytes of whitespace since the last other text.
    pub whitespace_text_len: usize,
}

pub open spec fn timeout_text(secs: u64) -> Seq<char> {
    "stream timed out after "@ + dec(secs as nat) + "s"@
}

pub open spec fn parse_error_text(
    tool_name: Seq<char>,
    json_parse_error: Seq<char>,
    raw_input: Seq<char>,
) -> Seq<char> {
    tool_name + ": "@ + json_parse_error + "\nraw: "@ + debug_quoted(raw_input)
}

/// Whether `after` is the call `before`, but under the name and with the input of `call`.
pub open spec fn is_recall(
    before: LanguageModelToolUse,
    after: LanguageModelToolUse,
    call: CallView,
) -> bool {
    &&& after.name@ == call.name
    &&& after.input@ == call.input
    &&& after.raw_input@ == call.raw_input
    &&& after.id == before.id
    &&& after.is_input_complete == before.is_input_complete
    &&& after.thought_signature == before.thought_signature
}

/// The call that was meant by one whose name holds markup.
pub open spec fn meant_call(tool_use: LanguageModelToolUse) -> Option<CallView> {
    let embedded = embedded_calls(tool_use.name@ + tool_use.raw_input@, Seq::empty());
    if !tool_use.name@.contains('<') {
        None
    } else {
        match repaired_call(tool_use.name@, tool_use.raw_input@) {
            Some(call) => Some(call),
            None => if embedded.len() > 0 {
                Some(embedded[0])
            } else {
                None
            },
        }
    }
}

/// Whether `after` is `before` with the call that was meant.
pub open spec fn is_normalized(before: LanguageModelToolUse, after: LanguageModelToolUse) -> bool {
    match meant_call(before) {
        Some(call) => is_recall(before, after, call),
        None => after == before,
    }
}

pub fn normalize_smoke_tool_use(tool_use: LanguageModelToolUse) -> (r: LanguageModelToolUse)
    ensures
        is_normalized(tool_use, r),
{
    if !contains_char(tool_use.name.as_str(), '<') {
        return tool_use;
    }
    match repair_malformed_tool_use(tool_use.name.as_str(), tool_use.raw_input.as_str()) {
        Some(call) => {
            return LanguageModelToolUse {
                name: call.name,
                input: call.input,
                raw_input: call.raw_input,
                ..tool_use
            };
        },
        None => {},
    }
    let mut blob = tool_use.name.clone();
    blob.append(tool_use.raw_input.as_str());
    let any: Vec<String> = Vec::new();
    assert(views(any@) =~= Seq::<Seq<char>>::empty());
    let calls = extract_tool_calls_from_text(blob.as_str(), &any);
    if calls.len() > 0 {
        let call = calls[0].clone();
        return LanguageModelToolUse {
            name: call.name,
            input: call.input,
            raw_input: call.raw_input,
            ..tool_use
        };
    }
    tool_use
}

impl ToolCallExtraction {
    pub fn new() -> (r: Self)
        ensures
            r.tool_use is None,
            r.json_parse_errors@.len() == 0,
            r.streamed_text@.len() == 0,
            r.full_text@.len() == 0,
            r.whitespace_text_len == 0,
            r.is_reading(),
    {
        ToolCallExtraction {
            tool_use: None,
            json_parse_errors: Vec::new(),
            streamed_text: String::new(),
            full_text: String::new(),
            whitespace_text_len: 0,
        }
    }

    /// No call has been found yet, and not too much whitespace has come in a row.
    pub open spec fn is_reading(&self) -> bool {
        self.tool_use is None && self.whitespace_text_len < MAX_WHITESPACE_TEXT
    }

    /// Nothing but the errors has changed.
    pub open spec fn same_but_errors(&self, other: &Self) -> bool {
        &&& self.tool_use == other.tool_use
        &&& self.streamed_text@ == other.streamed_text@
        &&& self.full_text@ == other.full_text@
        &&& self.whitespace_text_len == other.whitespace_text_len
    }

    /// The text that has been read, with `text` behind it.
    pub open spec fn has_read(&self, before: &Self, text: Seq<char>) -> bool {
        &&& self.full_text@ == before.full_text@ + text
        &&& self.tool_use == before.tool_use
    }

    /// Whether reading `text` ends the reading: too much whitespace has come in a row.
    pub open spec fn is_too_blank(&self, text: Seq<char>) -> bool {
        is_blank(text) && self.whitespace_text_len + utf8_len(text) >= MAX_WHITESPACE_TEXT
    }

    /// Takes what the stream gives next. Says whether the reading goes on.
    pub fn handle(&mut self, event: SmokeEvent, stream_timeout_secs: u64) -> (go_on: bool)
        requires
            old(self).is_reading(),
        ensures
            go_on ==> final(self).is_reading(),
            match event {
                SmokeEvent::ToolUse(candidate) => if candidate.is_input_complete {
                    &&& !go_on
                    &&& final(self).tool_use matches Some(t) && is_normalized(candidate, t)
                    &&& final(self).json_parse_errors@ == old(self).json_parse_errors@
                    &&& final(self).streamed_text@ == old(self).streamed_text@
                    &&& final(self).full_text@ == old(self).full_text@
                } else {
                    go_on && *final(self) == *old(self)
                },
                SmokeEvent::Text(text) => {
                    &&& final(self).has_read(old(self), text@)
                    &&& go_on == !old(self).is_too_blank(text@)
                    &&& go_on ==> {
                        &&& final(self).json_parse_errors@ == old(self).json_parse_errors@
                        &&& final(self).whitespace_text_len == if is_blank(text@) {
                            old(self).whitespace_text_len + utf8_len(text@)
                        } else {
                            0
                        }
                        &&& final(self).streamed_text@ == if utf8_len(old(self).streamed_text@)
                            < 500 {
                            old(self).streamed_text@ + text@
                        } else {
                            old(self).streamed_text@
                        }
                    }
                    &&& !go_on ==> {
                        &&& views(final(self).json_parse_errors@) == views(
                            old(self).json_parse_errors@,
                        ).push("model streamed whitespace without a tool call; aborting early"@)
                        &&& final(self).streamed_text@ == old(self).streamed_text@
                    }
                },
                SmokeEvent::Thinking(text) => {
                    &&& go_on
                    &&& final(self).has_read(old(self), text@)
                    &&& final(self).json_parse_errors@ == old(self).json_parse_errors@
                    &&& final(self).streamed_text@ == old(self).streamed_text@
                    &&& final(self).whitespace_text_len == old(self).whitespace_text_len
                },
                SmokeEvent::ToolUseJsonParseError { tool_name, raw_input, json_parse_error } => {
                    &&& go_on
                    &&& final(self).same_but_errors(old(self))
                    &&& views(final(self).json_parse_errors@) == views(
                        old(self).json_parse_errors@,
                    ).push(parse_error_text(tool_name@, json_parse_error@, raw_input@))
                },
                SmokeEvent::Other => go_on && *final(self) == *old(self),
                SmokeEvent::End => !go_on && *final(self) == *old(self),
                SmokeEvent::TimedOut => {
                    &&& !go_on
                    &&& final(self).same_but_errors(old(self))
                    &&& views(final(self).json_parse_errors@) == views(
                        old(self).json_parse_errors@,
                    ).push(timeout_text(stream_timeout_secs))
                },
            },
    {
        let ghost errors = views(self.json_parse_errors@);
        match event {
            SmokeEvent::ToolUse(candidate) => {
                if candidate.is_input_complete {
                    self.tool_use = Some(normalize_smoke_tool_use(candidate));
                    return false;
                }
                true
            },
            SmokeEvent::Text(text) => {
                self.full_text.append(text.as_str());
                if is_blank_str(text.as_str()) {
                    let room: usize = MAX_WHITESPACE_TEXT - self.whitespace_text_len;
                    let more: usize = byte_len_capped(text.as_str(), room);
                    if more >= room {
                        self.json_parse_errors.push(
                            "model streamed whitespace without a tool call; aborting early".to_string(),
                        );
                        assert(views(self.json_parse_errors@) =~= errors.push(
                            "model streamed whitespace without a tool call; aborting early"@,
                        ));
                        return false;
                    }
                    self.whitespace_text_len = self.whitespace_text_len + more;
                } else {
                    self.whitespace_text_len = 0;
                }
                if !bytes_exceed(self.streamed_text.as_str(), 499) {
                    self.streamed_text.append(text.as_str());
                }
                true
            },
            SmokeEvent::Thinking(text) => {
                self.full_text.append(text.as_str());
                true
            },
            SmokeEvent::ToolUseJsonParseError { tool_name, raw_input, json_parse_error } => {
                let mut message = tool_name;
                message.append(": ");
                message.append(json_parse_error.as_str());
                message.append("\nraw: ");
                message.append(debug_str(raw_input.as_str()).as_str());
                let ghost m = message@;
                self.json_parse_errors.push(message);
                assert(views(self.json_parse_errors@) =~= errors.push(m));
                true
            },
            SmokeEvent::Other => true,
            SmokeEvent::End => false,
            SmokeEvent::TimedOut => {
                let mut message = "stream timed out after ".to_string();
                message.append(dec_str(stream_timeout_secs).as_str());
                message.append("s");
                let ghost m = message@;
                self.json_parse_errors.push(message);
                assert(views(self.json_parse_errors@) =~= errors.push(m));
                false
            },
        }
    }

    /// Looks for a call in the text where the model has made none.
    pub fn finish(&mut self, tool_names: &Vec<String>)
        ensures
            final(self).json_parse_errors == old(self).json_parse_errors,
            final(self).streamed_text == old(self).streamed_text,
            final(self).full_text == old(self).full_text,
            final(self).whitespace_text_len == old(self).whitespace_text_len,
            ({
                let calls = embedded_calls(old(self).full_text@, views(tool_names@));
                if old(self).tool_use is None && calls.len() > 0 {
                    &&& final(self).tool_use matches Some(t) && {
                        &&& t.id@ == "embedded_tool_0"@
                        &&& t.name@ == calls[0].name
                        &&& t.input@ == calls[0].input
                        &&& t.raw_input@ == calls[0].raw_input
                        &&& t.is_input_complete
                        &&& t.thought_signature is None
                    }
                } else {
                    final(self).tool_use == old(self).tool_use
                }
            }),
    {
        if self.tool_use.is_none() {
            let calls = extract_tool_calls_from_text(self.full_text.as_str(), tool_names);
            if calls.len() > 0 {
                let call = calls[0].clone();
                self.tool_use = Some(
                    LanguageModelToolUse {
                        id: "embedded_tool_0".to_string(),
                        name: call.name,
                        raw_input: call.raw_input,
                        input: call.input,
                        is_input_complete: true,
                        thought_signature: None,
                    },
                );
            }
        }
    }

    /// The outcome of a scenario whose stream has been read.
    pub fn into_result(self, case: &ToolCallSmokeCase) -> (r: ToolCallSmokeCaseResult)
        ensures
            r.case@ == case.name@,
            r.got_tool == self.tool_use is Some,
            match self.tool_use {
                Some(t) => r.tool_name matches Some(n) && n@ == t.name@,
                None => r.tool_name is None,
            },
            r.json_parse_errors@ == self.json_parse_errors@,
            r.streamed_text_preview@ == self.streamed_text@,
            str_views(r.expected_tools@) == str_views(case.expected_tools@),
    {
        let mut expected_tools: Vec<&'static str> = Vec::new();
        let mut i: usize = 0;
        while i < case.expected_tools.len()
            invariant
                i <= case.expected_tools@.len(),
                str_views(expected_tools@) == str_views(case.expected_tools@).take(i as int),
            decreases case.expected_tools@.len() - i,
        {
            let ghost before = str_views(expected_tools@);
            expected_tools.push(case.expected_tools[i]);
            assert(str_views(expected_tools@) =~= before.push(
                str_views(case.expected_tools@)[i as int],
            ));
            assert(str_views(case.expected_tools@).take(i + 1) =~= before.push(
                str_views(case.expected_tools@)[i as int],
            ));
            i = i + 1;
        }
        assert(str_views(expected_tools@) =~= str_views(case.expected_tools@));
        let got_tool = self.tool_use.is_some();
        ToolCallSmokeCaseResult {
            case: case.name,
            got_tool,
            tool_name: match self.tool_use {
                Some(t) => Some(t.name),
                None => None,
            },
            json_parse_errors: self.json_parse_errors,
            streamed_text_preview: self.streamed_text,
            expected_tools,
        }
    }
}

// ---------------------------------------------------------------------------
// The trial, one scenario at a time
// ---------------------------------------------------------------------------

/// How far a trial has come.
#[derive(Debug)]
pub struct SmokeRun {
    model_label: String,
    cases: Vec<ToolCallSmokeCase>,
    warmup: Option<ToolCallSmokeCase>,
    /// Which attempt at the scenario is made, from one on.
    attempt: usize,
    results: Vec<ToolCallSmokeCaseResult>,
}

impl SmokeRun {
    pub closed spec fn model_label(&self) -> Seq<char> {
        self.model_label@
    }

    /// Whether the model is yet to be warmed up.
    pub closed spec fn is_warming(&self) -> bool {
        self.warmup is Some
    }

    pub closed spec fn attempt(&self) -> nat {
        self.attempt as nat
    }

    /// What the scenarios came to that are over.
    pub closed spec fn results(&self) -> Seq<ToolCallSmokeCaseResult> {
        self.results@
    }

    pub closed spec fn wf(&self) -> bool {
        &&& self.cases@.len() == SMOKE_CASE_COUNT
        &&& forall|i: int|
            0 <= i < SMOKE_CASE_COUNT ==> (#[trigger] self.cases@[i]).is_case(smoke_case_view(i))
        &&& self.warmup matches Some(w) ==> w.is_case(warmup_view())
        &&& 1 <= self.attempt <= MAX_ATTEMPTS
        &&& self.results@.len() <= SMOKE_CASE_COUNT
        &&& self.results@.len() == SMOKE_CASE_COUNT ==> self.attempt == 1
    }

    /// How many calls of the model there can still be.
    pub open spec fn calls_left(&self) -> int {
        (if self.is_warming() {
            1int
        } else {
            0
        }) + (SMOKE_CASE_COUNT - self.results().len()) * MAX_ATTEMPTS - (self.attempt() - 1)
    }

    pub fn start(model_label: String, options: &ToolCallSmokeOptions) -> (r: Self)
        ensures
            r.wf(),
            r.model_label() == model_label@,
            r.is_warming() == !options.skip_warmup,
            r.attempt() == 1,
            r.results() == Seq::<ToolCallSmokeCaseResult>::empty(),
    {
        SmokeRun {
            model_label,
            cases: smoke_cases(),
            warmup: if options.skip_warmup {
                None
            } else {
                Some(warmup_case())
            },
            attempt: 1,
            results: Vec::new(),
        }
    }

    /// The scenario that is tried next, if the trial is not over.
    pub fn next(&self) -> (r: Option<&ToolCallSmokeCase>)
        requires
            self.wf(),
        ensures
            if self.is_warming() {
                r matches Some(c) && c.is_case(warmup_view())
            } else if self.results().len() < SMOKE_CASE_COUNT {
                r matches Some(c) && c.is_case(smoke_case_view(self.results().len() as int))
            } else {
                r is None
            },
    {
        match &self.warmup {
            Some(case) => Some(case),
            None => {
                let i: usize = self.results.len();
                if i < self.cases.len() {
                    Some(&self.cases[i])
                } else {
                    None
                }
            },
        }
    }

    /// Takes note of what the scenario came to. It is tried again where it failed and was not tried
    /// as often as is allowed. What the warm-up came to is forgotten.
    pub fn record(&mut self, result: ToolCallSmokeCaseResult)
        requires
            old(self).wf(),
            old(self).is_warming() || old(self).results().len() < SMOKE_CASE_COUNT,
        ensures
            final(self).wf(),
            final(self).model_label() == old(self).model_label(),
            !final(self).is_warming(),
            if old(self).is_warming() {
                &&& final(self).attempt() == old(self).attempt()
                &&& final(self).results() == old(self).results()
            } else if !result.is_pass() && old(self).attempt() < MAX_ATTEMPTS {
                &&& final(self).attempt() == old(self).attempt() + 1
                &&& final(self).results() == old(self).results()
            } else {
                &&& final(self).attempt() == 1
                &&& final(self).results() == old(self).results().push(result)
            },
            final(self).calls_left() < old(self).calls_left(),
    {
        match self.warmup.take() {
            Some(_) => {},
            None => {
                if should_retry(self.attempt, &result) {
                    self.attempt = self.attempt + 1;
                } else {
                    self.attempt = 1;
                    self.results.push(result);
                }
            },
        }
    }

    /// What the trial came to.
    pub fn finish(self) -> (r: ToolCallSmokeReport)
        ensures
            r.model_label@ == self.model_label(),
            r.results@ == self.results(),
    {
        ToolCallSmokeReport { model_label: self.model_label, results: self.results }
    }
}

/// A trial calls the model at most twice for each scenario and once before, and is over just when
/// no call is left.
pub proof fn lemma_trial_ends(run: SmokeRun)
    requires
        run.wf(),
    ensures
        0 <= run.calls_left() <= 1 + SMOKE_CASE_COUNT * MAX_ATTEMPTS,
        run.calls_left() == 0 <==> !run.is_warming() && run.results().len() == SMOKE_CASE_COUNT,
{
}

} // verus!
