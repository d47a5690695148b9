use unleashed_agent::agent_settings::{compile_web_research_settings, WebResearchSettings};
use unleashed_agent::project_memory::WorktreeMemory;
use unleashed_agent::tools::documents::{
    embedding_settings, FoundPassage, IngestSubject, RagIngestTool, RagIngestToolInput,
    RagSearchTool, RagSearchToolInput, EMBEDDINGS_REQUIRED, INGEST_NEEDS_SUBJECT,
};
use unleashed_agent::tools::full_access::FULL_ACCESS_DISABLED;
use unleashed_agent::tools::memory::{
    AppendToJournalTool, AppendToJournalToolInput, CompleteGoalTool, CompleteGoalToolInput,
    ReadJournalTool, EMPTY_NOTE, NO_DIRECTORY_WORKTREE,
};
use unleashed_agent::tools::process_control::{
    describe_kill, describe_process, describe_service_output, describe_system, list_processes,
    service_command, ProcessAction, ProcessControlTool, ProcessControlToolInput, ProcessDetails,
    ProcessRow, ServiceOutput, SystemDetails, SERVICES_NOT_AVAILABLE, SERVICE_NAME_REQUIRED, UNSUPPORTED_ACTION,
};
use unleashed_agent::tools::research_web::{
    ingest_failed, ingest_note, research_auth_values, DiscoveryFailure, IngestTally,
    ResearchPlan, ResearchRequest, ResearchWebTool, ResearchWebToolInput,
    BROWSER_NEEDS_FULL_ACCESS, NO_DOMAINS, QUERY_REQUIRED, RESEARCH_DISABLED,
};
use unleashed_agent::tools::run_code::{
    interpreter, quote_script_path_for_shell, CodeOutcome, RunCodeTool, RunCodeToolInput,
    ShellKind, MAX_TIMEOUT_MS, UNSUPPORTED_LANGUAGE,
};
use unleashed_agent::tools::ALL_TOOL_NAMES;
use unleashed_agent::web_research::session::ResearchSeed;

fn texts(items: &[&str]) -> Vec<String> {
    items.iter().map(|item| item.to_string()).collect()
}

fn process_input(action: &str) -> ProcessControlToolInput {
    ProcessControlToolInput {
        action: action.to_string(),
        pid: None,
        name_filter: None,
        service_name: None,
    }
}

fn code_input(language: &str, code: &str) -> RunCodeToolInput {
    RunCodeToolInput {
        language: language.to_string(),
        code: code.to_string(),
        cd: None,
        timeout_ms: None,
    }
}

fn research_input(query: &str) -> ResearchWebToolInput {
    ResearchWebToolInput {
        query: query.to_string(),
        domains: Vec::new(),
        max_pages: None,
        max_depth: None,
        time_budget_secs: None,
        session_id: None,
        list_sessions: false,
        persist: None,
        ingest_to_rag: false,
    }
}

fn research_settings() -> WebResearchSettings {
    let mut settings = compile_web_research_settings(None);
    settings.enabled = true;
    settings.browser_fallback_enabled = false;
    settings
}

fn seed(url: &str) -> ResearchSeed {
    ResearchSeed { url: url.to_string(), title: "t".to_string(), snippet: "s".to_string() }
}

#[test]
fn browse_page_is_registered() {
    assert!(
        ALL_TOOL_NAMES.contains(&"browse_page"),
        "browse_page must be registered in tools!"
    );
}

#[test]
fn research_web_is_registered() {
    assert!(
        ALL_TOOL_NAMES.contains(&"research_web"),
        "research_web must be registered in tools!"
    );
}

#[test]
fn auth_values_are_query_domains_and_optional_ingest() {
    let values =
        research_auth_values("gpui docs", &vec!["docs.rs".into(), "zed.dev".into()], true);
    assert_eq!(
        values,
        vec![
            "gpui docs".to_string(),
            "docs.rs".into(),
            "zed.dev".into(),
            "ingest_to_rag=1".into(),
        ]
    );
    let without_ingest = research_auth_values("q", &vec!["a.com".into()], false);
    assert!(!without_ingest.iter().any(|v| v.starts_with("max_pages=")));
    assert!(!without_ingest.iter().any(|v| v.contains("ingest_to_rag")));
}

#[test]
fn refuses_own_pid_and_pid_zero() {
    let own: u32 = 4242;
    assert!(ProcessControlTool::validate_kill_pid(0, own).is_err());
    assert!(ProcessControlTool::validate_kill_pid(own, own).is_err());
}

#[test]
fn killing_is_always_asked_about() {
    let mut input = process_input("KILL");
    let refused = ProcessControlTool::permission(&input, true, 7).unwrap_err();
    assert_eq!(refused, "process_control kill requires pid");
    input.pid = Some(9);
    let permission = ProcessControlTool::permission(&input, true, 7).unwrap();
    assert_eq!(permission.title, "Terminate process 9");
    assert_eq!(permission.input_value, "kill:9");
    assert!(permission.always_prompt);
    assert_eq!(
        ProcessControlTool::permission(&input, false, 7).unwrap_err(),
        FULL_ACCESS_DISABLED
    );
    assert!(ProcessControlTool::permission(&input, true, 9).is_err());
    assert!(matches!(ProcessControlTool::plan(&input), ProcessAction::Kill { pid: 9 }));
}

#[test]
fn services_need_a_name() {
    let mut input = process_input("service_start");
    assert_eq!(
        ProcessControlTool::permission(&input, true, 7).unwrap_err(),
        "service_start requires service_name"
    );
    input.service_name = Some("spooler".to_string());
    let permission = ProcessControlTool::permission(&input, true, 7).unwrap();
    assert_eq!(permission.title, "service start service spooler");
    assert_eq!(service_command(false, "query", None), Err(SERVICES_NOT_AVAILABLE.to_string()));
    assert_eq!(service_command(true, "stop", None), Err(SERVICE_NAME_REQUIRED.to_string()));
    assert_eq!(
        service_command(true, "query", None),
        Ok(texts(&["query", "type=", "service", "state=", "all"]))
    );
    assert_eq!(service_command(true, "stop", Some("x")), Ok(texts(&["stop", "x"])));
    assert_eq!(
        describe_service_output(ServiceOutput {
            success: false,
            status: "5".to_string(),
            output: "denied".to_string(),
        }),
        Err("sc.exe exited with 5:\ndenied".to_string())
    );
    assert!(matches!(
        ProcessControlTool::plan(&process_input("dance")),
        ProcessAction::Refused(text) if text == UNSUPPORTED_ACTION
    ));
}

#[test]
fn processes_are_filtered_and_sorted() {
    let rows = vec![
        ProcessRow { pid: 30, name: "Bash".into(), memory: 5, command: texts(&["bash", "-l"]) },
        ProcessRow { pid: 2, name: "zsh".into(), memory: 6, command: Vec::new() },
        ProcessRow { pid: 10, name: "bash".into(), memory: 7, command: Vec::new() },
    ];
    assert_eq!(
        list_processes(&rows, &Some("bash".to_string())),
        "10\tbash\t7 bytes\t\n30\tBash\t5 bytes\tbash -l"
    );
    assert_eq!(list_processes(&rows, &None).lines().count(), 3);
}

#[test]
fn processes_and_the_machine_are_described() {
    let details = ProcessDetails {
        name: "bash".into(),
        status: "Run".into(),
        memory: 7,
        cpu_percent: "0.50".into(),
        command: texts(&["bash"]),
    };
    assert_eq!(
        describe_process(4, Some(&details)).unwrap(),
        "pid: 4\nname: bash\nstatus: Run\nmemory_bytes: 7\ncpu_percent: 0.50\ncommand: bash"
    );
    assert_eq!(describe_process(4, None).unwrap_err(), "Process 4 was not found.");
    assert_eq!(describe_kill(4, Some(true)).unwrap(), "Termination signal sent to process 4.");
    assert_eq!(describe_kill(4, Some(false)).unwrap_err(), "Failed to terminate process 4.");
    assert_eq!(describe_kill(4, None).unwrap_err(), "Process 4 was not found.");
    let system = SystemDetails {
        host: Some("box".into()),
        os: None,
        os_version: None,
        kernel: None,
        architecture: "x86_64".into(),
        physical_cores: None,
        total_memory: 2,
        available_memory: 1,
    };
    assert_eq!(
        describe_system(&system),
        "host: box\nos: unknown\nos_version: unknown\nkernel: unknown\narchitecture: x86_64\nphysical_cores: 0\ntotal_memory_bytes: 2\navailable_memory_bytes: 1"
    );
}

#[test]
fn windows_temp_script_path_keeps_users_segment() {
    let path = r"C:\Users\s_sme\AppData\Local\Temp\lead-agent-EdEOj5.py";
    let posix = "C:/Users/s_sme/AppData/Local/Temp/lead-agent-EdEOj5.py";
    for shell in [ShellKind::PowerShell, ShellKind::Pwsh, ShellKind::Posix] {
        let quoted = quote_script_path_for_shell(path, shell, Some(posix)).expect("quote");
        assert!(
            quoted.contains("Users/s_sme/AppData/Local/Temp/lead-agent-EdEOj5.py"),
            "shell {shell:?} lost path separators: {quoted}"
        );
        assert!(
            !quoted.contains("Userss_sme"),
            "shell {shell:?} stripped backslashes: {quoted}"
        );
        assert!(
            quoted.starts_with(['\'', '"']),
            "shell {shell:?} should quote script path: {quoted}"
        );
    }
}

#[test]
fn a_shell_that_cannot_quote_gives_nothing() {
    assert_eq!(quote_script_path_for_shell("/t/x", ShellKind::Posix, None), None);
    assert_eq!(
        quote_script_path_for_shell("/t/x y", ShellKind::Posix, Some("'/t/x y'")),
        Some("'/t/x y'".to_string())
    );
    assert_eq!(
        quote_script_path_for_shell("c:\\a\"b", ShellKind::Cmd, None),
        Some("\"c:/a\"\"b\"".to_string())
    );
    assert_eq!(
        quote_script_path_for_shell("/t/o'x", ShellKind::PowerShell, None),
        Some("'/t/o''x'".to_string())
    );
}

#[test]
fn languages_have_interpreters() {
    let shell = interpreter(" PowerShell ", true).unwrap();
    assert_eq!(shell.program, "powershell");
    assert_eq!(shell.args, texts(&["-NoProfile", "-NonInteractive", "-File"]));
    assert_eq!(interpreter("pwsh", false).unwrap().program, "pwsh");
    assert_eq!(interpreter("js", false).unwrap().suffix, ".js");
    assert_eq!(interpreter("cobol", false).unwrap_err(), UNSUPPORTED_LANGUAGE);
    assert_eq!(
        RunCodeTool::check(&code_input("python", " "), true, false).unwrap_err(),
        "run_code requires non-empty source code."
    );
    assert_eq!(
        RunCodeTool::check(&code_input("python", "1"), false, false).unwrap_err(),
        FULL_ACCESS_DISABLED
    );
    let python = RunCodeTool::check(&code_input("python3", "1"), true, false).unwrap();
    assert_eq!(RunCodeTool::command(&python, "'/t/x.py'"), "python  '/t/x.py'");
}

#[test]
fn code_runs_for_a_limited_time() {
    let mut input = code_input("python", "1");
    assert_eq!(RunCodeTool::timeout(&input), 120_000);
    input.timeout_ms = Some(u64::MAX);
    assert_eq!(RunCodeTool::timeout(&input), MAX_TIMEOUT_MS);
    assert_eq!(RunCodeTool::permission(&input).context.input_values, texts(&["python:1"]));
    assert_eq!(RunCodeTool::escape_title(&input), "Run code outside project: <default>");
    assert_eq!(
        RunCodeTool::finish(CodeOutcome::TimedOut, 5).unwrap_err(),
        "Code execution timed out after 5 ms."
    );
    assert_eq!(
        RunCodeTool::finish(CodeOutcome::Cancelled, 5).unwrap_err(),
        "Code execution cancelled by user."
    );
    let exited = |exit_code| CodeOutcome::Exited {
        exit_code,
        output: "hi".to_string(),
        truncated: true,
    };
    assert_eq!(RunCodeTool::finish(exited(Some(0)), 5).unwrap(), "hi\n[output truncated]");
    assert_eq!(
        RunCodeTool::finish(exited(Some(2)), 5).unwrap_err(),
        "Code interpreter exited with status Some(2).\nhi\n[output truncated]"
    );
    assert_eq!(
        RunCodeTool::finish(exited(None), 5).unwrap_err(),
        "Code interpreter exited with status None.\nhi\n[output truncated]"
    );
}

#[test]
fn journal_tools_say_what_they_did() {
    let note = |text: &str| AppendToJournalToolInput { note: text.to_string() };
    let memory = |root: &str, is_directory| WorktreeMemory {
        root: root.to_string(),
        is_directory,
        journal: None,
        summary: None,
    };
    let stamps = texts(&["s1", "s2"]);
    let mut none = Vec::new();
    let mut two = vec![memory("/a", true), memory("/b", true)];
    assert_eq!(
        AppendToJournalTool::run(&note(" "), &mut two, &stamps).unwrap_err().into_text(),
        EMPTY_NOTE
    );
    assert_eq!(
        AppendToJournalTool::run(&note("a"), &mut none, &Vec::new()).unwrap_err().into_text(),
        NO_DIRECTORY_WORKTREE
    );
    assert_eq!(
        ReadJournalTool::run(&two).unwrap().into_text(),
        "The project journal is empty."
    );
    let facts = note("DEC | one | here\nPATH | two | there");
    assert_eq!(
        AppendToJournalTool::run(&facts, &mut two, &stamps).unwrap().into_text(),
        "Saved 4 journal line(s) in one section."
    );
    assert!(two[1].journal.as_deref().unwrap().starts_with("# Project Journal\n\n## s2\n"));
    assert_eq!(
        AppendToJournalTool::run(&facts, &mut two, &stamps).unwrap().into_text(),
        "No new journal facts saved (4 duplicate(s) skipped)."
    );
    let more = note("DEC | one | here\nNEXT | three");
    assert_eq!(
        AppendToJournalTool::run(&more, &mut two, &stamps).unwrap().into_text(),
        "Saved 2 journal line(s) in one section (2 duplicate(s) skipped)."
    );
    let prose = note("First line.\nSecond line.");
    assert_eq!(
        AppendToJournalTool::run(&prose, &mut two, &stamps).unwrap().into_text(),
        "Saved 4 journal line(s) in one section."
    );
    let mut broken = vec![memory("/a", true), memory("/b", false)];
    assert_eq!(
        AppendToJournalTool::run(&facts, &mut broken, &stamps).unwrap_err().into_text(),
        "Failed to append journal note: project memory requires a directory worktree, got /b"
    );
    assert!(broken[0].journal.is_some() && broken[1].journal.is_none());

    assert_eq!(ReadJournalTool::run(&none).unwrap_err().into_text(), NO_DIRECTORY_WORKTREE);
    let mut one = memory("/a", true);
    one.journal = Some(" x ".to_string());
    assert_eq!(
        ReadJournalTool::run(&vec![one, memory("/b", true)]).unwrap().into_text(),
        "## /a\nx"
    );
    let reason = |text: Option<&str>| CompleteGoalToolInput { reason: text.map(str::to_string) };
    assert_eq!(CompleteGoalTool::reason(&reason(Some(" "))), None);
    assert_eq!(CompleteGoalTool::reason(&reason(None)), None);
    assert_eq!(CompleteGoalTool::reason(&reason(Some(" ok "))), Some("ok".to_string()));
    assert_eq!(CompleteGoalTool::finish(Ok("done".to_string())).unwrap().into_text(), "done");
    assert_eq!(
        CompleteGoalTool::finish(Err("no goal".to_string())).unwrap_err().into_text(),
        "no goal"
    );
}

#[test]
fn document_tools_say_what_they_did() {
    let input = RagIngestToolInput {
        path: Some("docs".to_string()),
        research_session_id: Some("s".to_string()),
    };
    assert!(matches!(RagIngestTool::subject(input), Ok(IngestSubject::Session(id)) if id == "s"));
    let nothing = RagIngestToolInput { path: None, research_session_id: None };
    assert_eq!(RagIngestTool::subject(nothing).unwrap_err(), INGEST_NEEDS_SUBJECT);
    assert_eq!(RagIngestTool::resolve("/w", "docs"), "/w/docs");
    assert_eq!(RagIngestTool::resolve("/w", "/docs"), "/docs");
    let mut tally = IngestTally::new();
    assert_eq!(
        RagIngestTool::report(&tally, "docs", None).into_text(),
        "No indexable content found at docs."
    );
    assert_eq!(
        RagIngestTool::no_pages("s").into_text(),
        "Research session `s` has no fetched page bodies to ingest."
    );
    tally.count(0);
    tally.count(4);
    assert_eq!((tally.chunks, tally.sources), (4, 1));
    assert_eq!(
        RagIngestTool::report(&tally, "docs", Some(9)).into_text(),
        "Indexed 4 chunk(s) from 1 file(s). The index now holds 9 chunk(s)."
    );
    assert_eq!(
        embedding_settings("http://h/api/v0").unwrap(),
        ("http://h/v1".to_string(), "text-embedding-nomic-embed-text-v1.5".to_string())
    );
    assert_eq!(embedding_settings("").unwrap_err(), EMBEDDINGS_REQUIRED);
    assert!(RagSearchTool::check(0).is_some() && RagSearchTool::check(1).is_none());
    let mut search = RagSearchToolInput { query: "q".to_string(), k: None };
    assert_eq!(RagSearchTool::limit(&search), 5);
    search.k = Some(2);
    assert_eq!(RagSearchTool::limit(&search), 2);
    assert_eq!(RagSearchTool::initial_title(Some(&search)), "Search documents for q");
    assert_eq!(RagSearchTool::failed("e").into_text(), "Document search failed: e");
    let passage = FoundPassage {
        source: "/w/docs/a.md".to_string(),
        chunk_index: 3,
        score: "0.912".to_string(),
        text: "body".to_string(),
    };
    assert_eq!(
        RagSearchTool::report(&vec![passage]).into_text(),
        "[1] a.md (chunk 3, score 0.912)\nbody"
    );
    assert_eq!(RagSearchTool::report(&Vec::new()).into_text(), "No relevant passages found.");
    assert_eq!(
        ingest_note(Some(&tally)),
        "rag_ingest: 4 chunk(s) from 1 page(s) as source=web:…"
    );
    assert_eq!(ingest_note(None), "rag_ingest: no fetched pages");
    assert_eq!(ingest_failed("a", "b"), "Failed to ingest a: b");
}

#[test]
fn research_is_planned_within_bounds() {
    let settings = research_settings();
    let mut input = research_input("q");
    input.max_pages = Some(99);
    input.max_depth = Some(99);
    input.time_budget_secs = Some(1);
    let Ok(ResearchRequest::Discover(plan)) = ResearchWebTool::plan(&input, &settings, true)
    else {
        panic!("expected a plan");
    };
    assert_eq!((plan.max_pages, plan.max_depth, plan.time_budget_secs), (12, 3, 15));
    assert!(plan.persist);
    assert_eq!(
        ResearchWebTool::plan(&research_input(" "), &settings, true).unwrap_err(),
        QUERY_REQUIRED
    );
    let mut off = research_settings();
    off.enabled = false;
    assert_eq!(ResearchWebTool::plan(&input, &off, true).unwrap_err(), RESEARCH_DISABLED);
    let mut browser = research_settings();
    browser.browser_fallback_enabled = true;
    assert_eq!(
        ResearchWebTool::plan(&input, &browser, false).unwrap_err(),
        BROWSER_NEEDS_FULL_ACCESS
    );
    input.session_id = Some("s".to_string());
    assert!(matches!(
        ResearchWebTool::plan(&input, &settings, true),
        Ok(ResearchRequest::Resume(id)) if id == "s"
    ));
    input.list_sessions = true;
    assert!(matches!(
        ResearchWebTool::plan(&input, &settings, true),
        Ok(ResearchRequest::ListSessions)
    ));
}

#[test]
fn research_starts_from_what_was_found() {
    let found = vec![seed("https://b.org/1"), seed("https://a.org/2"), seed("https://b.org/3")];
    let start = ResearchWebTool::start(&Vec::new(), found, 5).unwrap();
    assert_eq!(start.domains, texts(&["a.org", "b.org"]));
    assert_eq!(start.seeds.len(), 3);
    assert_eq!(
        ResearchWebTool::start(&Vec::new(), Vec::new(), 5).unwrap_err(),
        "discovery_failed: no search hits"
    );
    assert_eq!(
        ResearchWebTool::start(&Vec::new(), vec![seed("http://127.0.0.1/")], 5).unwrap_err(),
        NO_DOMAINS
    );
}

#[test]
fn research_permission_names_hosts_and_budgets() {
    let plan = ResearchPlan { max_pages: 4, max_depth: 1, time_budget_secs: 60, persist: true };
    let permission =
        ResearchWebTool::permission("q", "`q`", &texts(&["a.org"]), &plan, true, false);
    assert_eq!(
        permission.title,
        "Research web for `q` on [a.org] (≤4 pages, depth 1, 60s; may use isolated browser)"
    );
    assert_eq!(permission.context.input_values, texts(&["q", "a.org"]));
    let settings = research_settings();
    let budgets = ResearchWebTool::budgets(&plan, &settings);
    assert_eq!(budgets.wall_clock, 60_000);
    assert_eq!(budgets.max_download_bytes, settings.max_response_bytes * 4);
    let config = ResearchWebTool::config(&plan, &settings, "/data");
    assert_eq!((config.max_pages, config.research_wall_clock), (4, 60_000));
    assert_eq!(
        config.browser_profile_dir.as_deref(),
        Some("/data/web_research/browser_profile")
    );
    assert_eq!(ResearchWebTool::denied("no"), "research_denied_after_discovery: no");
    assert_eq!(
        ResearchWebTool::closing_note(Some("disk"), Some("n")),
        "persist_failed: disk; n"
    );
    assert!(DiscoveryFailure::Failed("x".to_string()).message().contains("x"));
}
