use unleashed_agent::agent_settings::{compile_web_research_settings, WebResearchSettings};
use unleashed_agent::tool_call_smoke::{
    SmokeRun, ToolCallSmokeCaseResult, ToolCallSmokeOptions, MAX_ATTEMPTS, SMOKE_CASE_COUNT,
};
use unleashed_agent::tool_permissions::FullAccessSettings;
use unleashed_agent::tools::documents::{
    FoundPassage, IngestAction, IngestCall, IngestEvent, IngestFailure, Ingested,
    RagIngestToolInput, RagSearchToolInput, SearchCall, SearchCallAction, SearchCallEvent,
    EMBEDDINGS_REQUIRED, EMPTY_INDEX, INGEST_NEEDS_SUBJECT, NO_WORKTREE,
};
use unleashed_agent::tools::full_access::FULL_ACCESS_DISABLED;
use unleashed_agent::tools::process_control::{
    ProcessControlToolInput, ProcessDetails, ProcessEvent, ProcessRow, ProcessRun, ProcessStep,
    ServiceOutput, SystemDetails, SERVICES_NOT_AVAILABLE, UNSUPPORTED_ACTION,
};
use unleashed_agent::tools::research_run::{ResearchAction, ResearchCall, ResearchEvent};
use unleashed_agent::tools::research_web::{
    DiscoveryFailure, IngestTally, PageIngest, ResearchWebToolInput, ResearchWebToolOutput,
    NO_DOMAINS, QUERY_REQUIRED, RESEARCH_CANCELLED,
};
use unleashed_agent::tools::run_code::{
    CodeAction, CodeEvent, CodeOutcome, CodeRun, Placement, RunCodeToolInput, ShellKind,
    WrittenScript, MAX_TIMEOUT_MS, OUTPUT_LIMIT, QUOTING_FAILED,
};
use unleashed_agent::tools::web::{
    BrowsePageToolInput, FetchToolInput, HttpRequestToolInput, WebSearchToolInput,
    WebSearchToolOutput, BROWSE_CANCELLED, FETCH_CANCELLED, NO_TEXT, REQUEST_CANCELLED,
    SEARCH_CANCELLED, SEARCH_NOT_AVAILABLE, UNSUPPORTED_METHOD,
};
use unleashed_agent::tools::web_runs::{
    BrowseAction, BrowseEvent, BrowseRun, FetchAction, FetchEvent, FetchRun, HttpAction, HttpEvent,
    HttpRun, SearchAction, SearchEvent, SearchRun,
};
use unleashed_agent::web_research::cache::CachedPage;
use unleashed_agent::web_research::config::{web_research_config_from_settings, WebResearchConfig};
use unleashed_agent::web_research::fetch::{
    page_from_cache, FetchError, FetchOutcome, FetchedPage, HostStanding,
};
use unleashed_agent::web_research::http::{
    Method, ResponseHead, SafeHttpError, SafeHttpOptions, SafeHttpResponse,
};
use unleashed_agent::web_research::http_run::{HttpHopAction, HttpHopEvent, HttpHopRun};
use unleashed_agent::web_research::page_run::{PageAction, PageEvent, PageRun, ReadResponse};
use unleashed_agent::web_research::session::{
    ResearchDigest, ResearchPageBody, ResearchSeed, ResearchSessionOutcome,
};
use unleashed_agent::web_research::store::{SessionSummary, StoredResearchSession};
use unleashed_agent::web_research::url_policy::{Address, IpAddr, Resolution, Url};

fn text(s: &str) -> String {
    s.to_string()
}

fn public() -> Resolution {
    Ok(vec![Address { ip: IpAddr::V4([151, 101, 1, 1]), text: text("151.101.1.1") }])
}

fn private() -> Resolution {
    Ok(vec![Address { ip: IpAddr::V4([10, 0, 0, 7]), text: text("10.0.0.7") }])
}

fn cached(markdown: &str) -> CachedPage {
    CachedPage {
        url: text("https://example.com/"),
        stored_at_unix_ms: 1,
        content_type: None,
        markdown: text(markdown),
        content_sha256: text("0123456789abcdef"),
    }
}

fn page(markdown: &str) -> FetchedPage {
    page_from_cache("https://example.com/", &cached(markdown))
}

fn settings() -> WebResearchSettings {
    let mut settings = compile_web_research_settings(None);
    settings.enabled = true;
    settings.browser_fallback_enabled = false;
    settings
}

fn config(browser: bool) -> WebResearchConfig {
    let mut settings = settings();
    settings.browser_fallback_enabled = browser;
    web_research_config_from_settings(&settings, "/data")
}

#[test]
fn a_fetch_is_asked_about_first() {
    let input = FetchToolInput { url: text("https://example.com/") };
    let (run, action) = FetchRun::start(input, true);
    assert!(matches!(action, FetchAction::AskToFetch { url } if url == "https://example.com/"));
    let (run, action) = run.step(FetchEvent::Answered(Ok(())));
    assert!(matches!(action, FetchAction::Fetch { .. }));
    let outcome = Ok(FetchOutcome::NeedsBrowser { reason: text("r"), url: text("https://u.org/") });
    let (run, action) = run.step(FetchEvent::Fetched { outcome, full_access: true });
    assert!(matches!(action, FetchAction::AskToBrowse { url } if url == "https://u.org/"));
    let (run, action) = run.step(FetchEvent::Cancelled);
    assert!(matches!(action, FetchAction::Wait));
    let (run, action) = run.step(FetchEvent::Answered(Ok(())));
    assert!(matches!(action, FetchAction::Browse { url } if url == "https://u.org/"));
    let (run, action) = run.step(FetchEvent::Browsed(Ok(page("body"))));
    assert!(matches!(action, FetchAction::Finish(Ok(t)) if t.contains("body")));
    let (_, action) = run.step(FetchEvent::Cancelled);
    assert!(matches!(action, FetchAction::Wait));
}

#[test]
fn a_refused_fetch_ends() {
    let start = || FetchRun::start(FetchToolInput { url: text("https://example.com/") }, false).0;
    let (run, action) = start().step(FetchEvent::Answered(Err(text("denied"))));
    assert!(matches!(run, FetchRun::Done));
    assert!(matches!(action, FetchAction::Finish(Err(t)) if t == "denied"));
    let (_, action) = start().step(FetchEvent::Cancelled);
    assert!(matches!(action, FetchAction::Finish(Err(t)) if t == FETCH_CANCELLED));
    let (run, _) = start().step(FetchEvent::Answered(Ok(())));
    let outcome = Ok(FetchOutcome::NeedsBrowser { reason: text("r"), url: text("u") });
    let (_, action) = run.step(FetchEvent::Fetched { outcome, full_access: true });
    assert!(matches!(
        action,
        FetchAction::Finish(Err(t)) if t.starts_with("needs_browser: r (url=u). Enable")
    ));
}

#[test]
fn a_page_is_browsed_once_allowed() {
    let input = || BrowsePageToolInput { url: text("https://example.com/") };
    let mut with_browser = settings();
    with_browser.browser_fallback_enabled = true;
    let (_, action) = BrowseRun::start(input(), &with_browser, false);
    assert!(matches!(action, BrowseAction::Finish(Err(t)) if t.contains("browse_page")));
    let (_, action) = BrowseRun::start(input(), &settings(), true);
    assert!(matches!(action, BrowseAction::Finish(Err(t)) if t.contains("Browser fallback")));
    let start = || BrowseRun::start(input(), &with_browser, true).0;
    let (_, action) = start().step(BrowseEvent::Answered(Err(text("no"))));
    assert!(matches!(action, BrowseAction::Finish(Err(t)) if t == "no"));
    let (run, action) = start().step(BrowseEvent::Answered(Ok(())));
    assert!(matches!(action, BrowseAction::Browse { url } if url == "https://example.com/"));
    let (_, action) = run.step(BrowseEvent::Cancelled);
    assert!(matches!(action, BrowseAction::Finish(Err(t)) if t == BROWSE_CANCELLED));
    let (run, _) = start().step(BrowseEvent::Answered(Ok(())));
    let (_, action) = run.step(BrowseEvent::Browsed(Err(text("crashed"))));
    assert!(matches!(action, BrowseAction::Finish(Err(t)) if t == "crashed" && t != NO_TEXT));
}

#[test]
fn a_search_needs_a_provider() {
    let start = || SearchRun::start(WebSearchToolInput { query: text("q") }).0;
    let (run, action) = start().step(SearchEvent::Answered(Ok(())));
    assert!(matches!(action, SearchAction::Choose));
    let (_, action) = run.step(SearchEvent::Chosen(None));
    assert!(matches!(
        action,
        SearchAction::Finish(Err(WebSearchToolOutput::Error { error })) if error == SEARCH_NOT_AVAILABLE
    ));
    let (run, _) = start().step(SearchEvent::Answered(Ok(())));
    let (run, action) = run.step(SearchEvent::Chosen(Some(text("local"))));
    assert!(matches!(action, SearchAction::Search { query } if query == "q"));
    let (_, action) = run.step(SearchEvent::Searched(Ok(Vec::new())));
    assert!(matches!(
        action,
        SearchAction::Finish(Ok(WebSearchToolOutput::Success(s))) if s.provider == "local"
    ));
    let (run, _) = start().step(SearchEvent::Answered(Ok(())));
    let (run, _) = run.step(SearchEvent::Chosen(Some(text("local"))));
    let (_, action) = run.step(SearchEvent::Cancelled);
    assert!(matches!(
        action,
        SearchAction::Finish(Err(WebSearchToolOutput::Error { error })) if error == SEARCH_CANCELLED
    ));
    let (_, action) = start().step(SearchEvent::Answered(Err(text("no"))));
    assert!(matches!(action, SearchAction::Finish(Err(_))));
}

fn http_input(method: &str, url: &str) -> HttpRequestToolInput {
    HttpRequestToolInput {
        method: text(method),
        url: text(url),
        headers: vec![(text("a"), text("b"))],
        body: Some(text("é")),
    }
}

#[test]
fn requests_are_checked_and_asked_about() {
    let (_, action) = HttpRun::start(http_input("get", "https://example.com/"), false);
    assert!(matches!(action, HttpAction::Finish(Err(t)) if t == FULL_ACCESS_DISABLED));
    let (_, action) = HttpRun::start(http_input("head", "https://example.com/"), true);
    assert!(matches!(action, HttpAction::Finish(Err(t)) if t == UNSUPPORTED_METHOD));
    let (_, action) = HttpRun::start(http_input("get", "no url"), true);
    assert!(matches!(action, HttpAction::Finish(Err(_))));

    let (run, action) = HttpRun::start(http_input("get", "https://example.com/"), true);
    assert!(matches!(action, HttpAction::Resolve { url } if url == "https://example.com/"));
    let (_, action) = run.step(HttpEvent::Resolved(private()));
    assert!(matches!(action, HttpAction::Finish(Err(t)) if t.starts_with("ssrf_blocked: ")));
    let (run, _) = HttpRun::start(http_input("get", "https://example.com/"), true);
    let (_, action) = run.step(HttpEvent::Resolved(public()));
    assert!(matches!(action, HttpAction::Send { options, .. } if options.method == Method::Get));

    let post = || {
        let (run, _) = HttpRun::start(http_input("post", "https://example.com/"), true);
        run.step(HttpEvent::Resolved(public()))
    };
    let (run, action) = post();
    assert!(matches!(action, HttpAction::Ask(p) if p.title == "POST https://example.com/"));
    let (_, action) = run.step(HttpEvent::Answered(Err(text("no"))));
    assert!(matches!(action, HttpAction::Finish(Err(t)) if t == "no"));
    let (run, action) = post().0.step(HttpEvent::Answered(Ok(())));
    let HttpAction::Send { url, options } = action else {
        panic!("expected a request");
    };
    assert_eq!(url.as_str(), "https://example.com/");
    assert_eq!(options.body, Some(vec![0xc3, 0xa9]));
    assert_eq!(options.headers, vec![(text("a"), text("b"))]);
    let response = SafeHttpResponse {
        status: 201,
        content_type: None,
        headers: vec![(text("x"), text("y"))],
        body: b"made".to_vec(),
        final_url: url,
    };
    let (_, action) = run.step(HttpEvent::Responded(Ok(response)));
    assert!(matches!(action, HttpAction::Finish(Ok(t)) if t == "HTTP 201\nx: y\n\nmade"));
    let (run, _) = post().0.step(HttpEvent::Answered(Ok(())));
    let (_, action) = run.step(HttpEvent::Cancelled);
    assert!(matches!(action, HttpAction::Finish(Err(t)) if t == REQUEST_CANCELLED));
}

fn hop_options() -> SafeHttpOptions {
    SafeHttpOptions {
        method: Method::Post,
        headers: Vec::new(),
        body: Some(b"payload".to_vec()),
        max_redirects: 1,
        max_response_bytes: 4,
        request_timeout: 1_000,
    }
}

fn hop_head(status: u16, location: Option<&str>) -> ResponseHead {
    ResponseHead {
        status,
        content_type: None,
        headers: Vec::new(),
        location: location.map(str::to_string),
    }
}

fn resolved(resolution: Resolution) -> HttpHopEvent {
    HttpHopEvent::Resolved { resolution, cancelled: false }
}

fn sent() -> HttpHopRun {
    let (run, action) = HttpHopRun::start(Url::parse("https://a.org/x").unwrap(), hop_options());
    assert!(matches!(action, HttpHopAction::Resolve { host: Some(h) } if h == "a.org"));
    let (run, action) = run.step(resolved(public()));
    assert!(matches!(action, HttpHopAction::Resolve { host: Some(h) } if h == "a.org"));
    let (run, action) = run.step(resolved(public()));
    assert!(matches!(action, HttpHopAction::Send));
    run
}

#[test]
fn every_hop_is_checked() {
    let (run, _) = HttpHopRun::start(Url::parse("https://a.org/x").unwrap(), hop_options());
    let (_, action) = run.step(resolved(private()));
    assert!(matches!(action, HttpHopAction::Finish(Err(SafeHttpError::SsrfBlocked(_)))));

    let (run, action) = sent().step(HttpHopEvent::Answered(Ok(hop_head(302, Some("//b.org/y")))));
    assert!(matches!(action, HttpHopAction::Resolve { host: Some(h) } if h == "b.org"));
    let (_, action) = run.step(resolved(private()));
    assert!(matches!(
        action,
        HttpHopAction::Finish(Err(SafeHttpError::SsrfBlocked(m)))
            if m.starts_with("redirect to blocked URL: ")
    ));

    let (run, _) = sent().step(HttpHopEvent::Answered(Ok(hop_head(302, Some("//b.org/y")))));
    let (run, _) = run.step(resolved(public()));
    let (run, action) = run.step(HttpHopEvent::Resolved { resolution: public(), cancelled: true });
    assert!(matches!(run, HttpHopRun::Done));
    assert!(matches!(action, HttpHopAction::Finish(Err(SafeHttpError::Cancelled))));

    let (run, _) = sent().step(HttpHopEvent::Answered(Ok(hop_head(302, Some("//b.org/y")))));
    let (run, _) = run.step(resolved(public()));
    let (run, _) = run.step(resolved(public()));
    let HttpHopRun::Sending { request } = &run else {
        panic!("expected a second hop");
    };
    assert_eq!(request.current.as_str(), "https://b.org/y");
    assert_eq!((request.method, request.redirects), (Method::Get, 1));
    assert_eq!(request.body, None);
    let (_, action) = run.step(HttpHopEvent::Answered(Ok(hop_head(301, Some("/z")))));
    assert!(matches!(
        action,
        HttpHopAction::Finish(Err(SafeHttpError::Other(m))) if m == "exceeded max redirects (1)"
    ));
}

#[test]
fn responses_stay_within_their_bounds() {
    let read = |body: &[u8]| {
        let (run, action) = sent().step(HttpHopEvent::Answered(Ok(hop_head(200, None))));
        assert!(matches!(action, HttpHopAction::Read { limit: 5 }));
        run.step(HttpHopEvent::Read(Ok(body.to_vec()))).1
    };
    assert!(matches!(read(b"four"), HttpHopAction::Finish(Ok(r)) if r.body == b"four"));
    assert!(matches!(
        read(b"fives"),
        HttpHopAction::Finish(Err(SafeHttpError::ResponseTooLarge(4)))
    ));
    let (_, action) = sent().step(HttpHopEvent::Answered(Err(SafeHttpError::Timeout)));
    assert!(matches!(action, HttpHopAction::Finish(Err(SafeHttpError::Timeout))));
}

fn responded(status: u16, html: &str) -> PageEvent {
    PageEvent::Responded(Ok(ReadResponse {
        response: SafeHttpResponse {
            status,
            content_type: Some(text("text/html")),
            headers: Vec::new(),
            body: html.as_bytes().to_vec(),
            final_url: Url::parse("https://example.com/end").unwrap(),
        },
        html: Ok(text("# Title\n\nA page with quite enough text to be worth reading.")),
        now_ms: 7,
    }))
}

const SHELL: &str = "<div id=\"root\"></div>";

#[test]
fn pages_come_from_the_cache_or_the_web() {
    let (_, action) = PageRun::start("http://", true);
    assert!(matches!(action, PageAction::Finish { result: Err(FetchError::Policy(_)), .. }));
    let (run, _) = PageRun::start("example.com", true);
    let (_, action) = run.step(PageEvent::Resolved(private()), &config(false));
    assert!(matches!(action, PageAction::Finish { result: Err(FetchError::SsrfBlocked(_)), .. }));
    let (run, action) = PageRun::start("example.com/?utm_source=x", true);
    assert!(matches!(action, PageAction::Resolve { host: Some(h) } if h == "example.com"));
    let (run, action) = run.step(PageEvent::Resolved(public()), &config(false));
    assert!(matches!(action, PageAction::LookUp { key } if key == "https://example.com/"));
    let (_, action) = run.step(PageEvent::Cached(Some(cached("kept"))), &config(false));
    assert!(matches!(
        action,
        PageAction::Finish { result: Ok(FetchOutcome::Fetched(p)), note: None, store: None }
            if p.extracted.markdown == "kept"
    ));

    let (run, _) = PageRun::start("example.com", false);
    let (run, action) = run.step(PageEvent::Resolved(public()), &config(false));
    let PageAction::Request { url, options } = action else {
        panic!("expected a request");
    };
    assert_eq!(url, "https://example.com/");
    assert_eq!(options.headers[1], (text("Accept-Language"), text("en-US,en;q=0.8")));
    let (_, action) = run.step(responded(200, "<h1>Title</h1>"), &config(false));
    let PageAction::Finish { result, note, store } = action else {
        panic!("expected a page");
    };
    assert!(matches!(result, Ok(FetchOutcome::Fetched(_))));
    let note = note.unwrap();
    assert_eq!((note.host, note.standing), (Some(text("example.com")), HostStanding::Rewarded));
    assert_eq!(store.unwrap().stored_at_unix_ms, 7);
}

#[test]
fn shells_need_a_browser() {
    let requested = |config: &WebResearchConfig| {
        let (run, _) = PageRun::start("example.com", false);
        run.step(PageEvent::Resolved(public()), config).0
    };
    let off = config(false);
    let (_, action) = requested(&off).step(responded(200, SHELL), &off);
    assert!(matches!(
        action,
        PageAction::Finish { result: Ok(FetchOutcome::NeedsBrowser { .. }), store: None, .. }
    ));
    let on = config(true);
    let (run, action) = requested(&on).step(responded(200, SHELL), &on);
    assert!(matches!(action, PageAction::Browse { url, .. } if url == "https://example.com/end"));
    let unavailable = Err(FetchError::BrowserUnavailable(text("none")));
    let (_, action) = run.step(PageEvent::Browsed(unavailable), &on);
    assert!(matches!(
        action,
        PageAction::Finish { result: Ok(FetchOutcome::NeedsBrowser { reason, .. }), .. }
            if reason.ends_with("; browser_unavailable: none")
    ));
    let (_, action) = requested(&on).step(responded(500, "down"), &on);
    assert!(matches!(action, PageAction::Finish { result: Err(FetchError::Other(_)), .. }));
    let failed = PageEvent::Responded(Err(SafeHttpError::ResponseTooLarge(9)));
    let (_, action) = requested(&on).step(failed, &on);
    assert!(matches!(
        action,
        PageAction::Finish { result: Err(FetchError::Other(m)), note: None, .. }
            if m == "response exceeded max_response_bytes (9)"
    ));
}

fn process_input(action: &str, pid: Option<u32>) -> ProcessControlToolInput {
    ProcessControlToolInput {
        action: text(action),
        pid,
        name_filter: Some(text("SH")),
        service_name: Some(text("spooler")),
    }
}

fn allowed(action: &str, pid: Option<u32>, windows: bool) -> (ProcessRun, ProcessStep) {
    let (run, step) = ProcessRun::start(&process_input(action, pid), true, 7, windows);
    assert!(matches!(step, ProcessStep::Ask(_)));
    run.step(ProcessEvent::Answered(Ok(())))
}

#[test]
fn processes_are_touched_once_allowed() {
    let (_, step) = ProcessRun::start(&process_input("list", None), false, 7, false);
    assert!(matches!(step, ProcessStep::Finish(Err(t)) if t == FULL_ACCESS_DISABLED));
    let (_, step) = ProcessRun::start(&process_input("kill", Some(7)), true, 7, false);
    assert!(matches!(step, ProcessStep::Finish(Err(t)) if t.starts_with("Refusing")));
    let (run, step) = ProcessRun::start(&process_input("kill", Some(8)), true, 7, false);
    assert!(matches!(step, ProcessStep::Ask(p) if p.always_prompt && p.input_value == "kill:8"));
    let (_, step) = run.step(ProcessEvent::Answered(Err(text("no"))));
    assert!(matches!(step, ProcessStep::Finish(Err(t)) if t == "no"));

    let (run, step) = allowed("kill", Some(8), false);
    assert!(matches!(step, ProcessStep::Kill { pid: 8 }));
    let (_, step) = run.step(ProcessEvent::Killed(Some(true)));
    assert!(matches!(
        step,
        ProcessStep::Finish(Ok(t)) if t == "Termination signal sent to process 8."
    ));
    let (run, step) = allowed("list", None, false);
    assert!(matches!(step, ProcessStep::List));
    let row = |pid, name: &str| ProcessRow { pid, name: text(name), memory: 1, command: Vec::new() };
    let (_, step) = run.step(ProcessEvent::Listed(vec![row(3, "Bash"), row(2, "vim"), row(1, "zsh")]));
    assert!(matches!(
        step,
        ProcessStep::Finish(Ok(t)) if t == "1\tzsh\t1 bytes\t\n3\tBash\t1 bytes\t"
    ));
    let (run, step) = allowed("info", Some(4), false);
    assert!(matches!(step, ProcessStep::Find { pid: 4 }));
    let (_, step) = run.step(ProcessEvent::Found(None));
    assert!(matches!(step, ProcessStep::Finish(Err(t)) if t == "Process 4 was not found."));
    let (run, _) = allowed("info", Some(4), false);
    let details = ProcessDetails {
        name: text("n"),
        status: text("Run"),
        memory: 2,
        cpu_percent: text("0"),
        command: Vec::new(),
    };
    let (_, step) = run.step(ProcessEvent::Found(Some(details)));
    assert!(matches!(step, ProcessStep::Finish(Ok(t)) if t.starts_with("pid: 4\nname: n\n")));
    let (run, step) = allowed("system_info", None, false);
    assert!(matches!(step, ProcessStep::Describe));
    let system = SystemDetails {
        host: None,
        os: None,
        os_version: None,
        kernel: None,
        architecture: text("x86_64"),
        physical_cores: None,
        total_memory: 2,
        available_memory: 1,
    };
    let (_, step) = run.step(ProcessEvent::Described(system));
    assert!(matches!(step, ProcessStep::Finish(Ok(t)) if t.starts_with("host: unknown\n")));
    let (_, step) = allowed("dance", None, false);
    assert!(matches!(step, ProcessStep::Finish(Err(t)) if t == UNSUPPORTED_ACTION));
}

#[test]
fn services_are_controlled_where_there_are_any() {
    let (_, step) = allowed("service_list", None, false);
    assert!(matches!(step, ProcessStep::Finish(Err(t)) if t == SERVICES_NOT_AVAILABLE));
    let (run, step) = allowed("service_start", None, true);
    assert!(matches!(step, ProcessStep::RunService { args } if args == vec!["start", "spooler"]));
    let output = ServiceOutput { success: true, status: text("0"), output: text("started") };
    let (_, step) = run.step(ProcessEvent::ServiceRan(Ok(output)));
    assert!(matches!(step, ProcessStep::Finish(Ok(t)) if t == "started"));
}

fn code_input(cd: Option<&str>) -> RunCodeToolInput {
    RunCodeToolInput {
        language: text("python"),
        code: text("print(1)"),
        cd: cd.map(str::to_string),
        timeout_ms: Some(u64::MAX),
    }
}

fn written() -> CodeRun {
    let (run, action) = CodeRun::start(code_input(Some("/x")), true, false);
    assert!(matches!(
        action,
        CodeAction::Write { suffix, code } if suffix == ".py" && code == "print(1)"
    ));
    let script = WrittenScript {
        path: text("/tmp/a.py"),
        shell: ShellKind::Posix,
        quoted: Some(text("/tmp/a.py")),
    };
    let (run, action) = run.step(CodeEvent::Written(Ok(script)));
    assert!(matches!(action, CodeAction::Place { cd: Some(cd) } if cd == "/x"));
    run
}

fn placed(directory: &str, enabled: bool) -> (CodeRun, CodeAction) {
    let mut settings = FullAccessSettings::default();
    settings.enabled = enabled;
    written().step(CodeEvent::Placed(Ok(Placement {
        directory: Some(text(directory)),
        worktrees: vec![text("/work")],
        settings,
    })))
}

#[test]
fn code_runs_once_allowed() {
    let (_, action) = CodeRun::start(code_input(None), false, false);
    assert!(matches!(action, CodeAction::Finish(Err(t)) if t == FULL_ACCESS_DISABLED));
    let (run, _) = CodeRun::start(code_input(None), true, false);
    let script = WrittenScript { path: text("/a"), shell: ShellKind::Posix, quoted: None };
    let (_, action) = run.step(CodeEvent::Written(Ok(script)));
    assert!(matches!(action, CodeAction::Finish(Err(t)) if t == QUOTING_FAILED));

    let (run, action) = placed("/work/sub", true);
    assert!(matches!(
        action,
        CodeAction::Ask { permission, escape: None } if permission.title == "Run python code"
    ));
    let (run, action) = run.step(CodeEvent::Answered(Ok(())));
    let CodeAction::Run { command, directory, output_limit, timeout_ms } = action else {
        panic!("expected the code to run");
    };
    assert_eq!(command, "python  '/tmp/a.py'");
    assert_eq!(directory.as_deref(), Some("/work/sub"));
    assert_eq!((output_limit, timeout_ms), (OUTPUT_LIMIT, MAX_TIMEOUT_MS));
    let (_, action) = run.step(CodeEvent::Ran(Ok(CodeOutcome::TimedOut)));
    assert!(matches!(
        action,
        CodeAction::Finish(Err(t)) if t == "Code execution timed out after 1800000 ms."
    ));
}

#[test]
fn code_outside_of_the_project_is_asked_about_twice() {
    let (_, action) = placed("/etc/x", false);
    assert!(matches!(action, CodeAction::Finish(Err(t)) if t == FULL_ACCESS_DISABLED));
    let (run, action) = placed("/home/x", true);
    let CodeAction::Ask { escape: Some(escape), .. } = action else {
        panic!("expected a second question");
    };
    assert_eq!(escape.title, "Run code outside project: /x");
    assert_eq!(escape.context.input_values, vec!["/home/x"]);
    let (run, action) = run.step(CodeEvent::EscapeAnswered(Ok(())));
    assert!(matches!(action, CodeAction::Wait));
    let (run, action) = run.step(CodeEvent::Answered(Ok(())));
    assert!(matches!(action, CodeAction::Wait));
    let (run, action) = run.step(CodeEvent::EscapeAnswered(Ok(())));
    assert!(matches!(action, CodeAction::Run { .. }));
    let (_, action) = run.step(CodeEvent::Ran(Err(text("no terminal"))));
    assert!(matches!(action, CodeAction::Finish(Err(t)) if t == "no terminal"));
    let (run, _) = placed("/home/x", true);
    let (run, _) = run.step(CodeEvent::Answered(Ok(())));
    let (_, action) = run.step(CodeEvent::EscapeAnswered(Err(text("no"))));
    assert!(matches!(action, CodeAction::Finish(Err(t)) if t == "no"));
}

fn research_input() -> ResearchWebToolInput {
    ResearchWebToolInput {
        query: text("q"),
        domains: Vec::new(),
        max_pages: None,
        max_depth: None,
        time_budget_secs: None,
        session_id: None,
        list_sessions: false,
        persist: None,
        ingest_to_rag: false,
    }
}

fn digest() -> ResearchDigest {
    ResearchDigest {
        query: text("q"),
        claims: Vec::new(),
        sources: Vec::new(),
        pages_fetched: 1,
        skipped: Vec::new(),
        stopped_reason: text("completed"),
        domain_allowlist: vec![text("a.org")],
        session_id: None,
    }
}

fn body(markdown: &str) -> ResearchPageBody {
    ResearchPageBody {
        url: text("https://a.org/1"),
        title: text("T"),
        source_id: text("web:0"),
        markdown: text(markdown),
        fetch_mode: text("http"),
    }
}

fn stored() -> StoredResearchSession {
    StoredResearchSession {
        id: text("12-abc"),
        created_at_unix_ms: 1,
        updated_at_unix_ms: 2,
        digest: digest(),
        pages: vec![body("text")],
    }
}

fn researching(input: ResearchWebToolInput) -> ResearchCall {
    let settings = settings();
    let (call, action) = ResearchCall::start(input, &settings, false);
    assert!(matches!(action, ResearchAction::Discover { query } if query == "q"));
    let seed =
        ResearchSeed { title: text("t"), url: text("https://a.org/1"), snippet: text("s") };
    let (call, action) = call.step(ResearchEvent::Discovered(Ok(vec![seed])), &settings);
    assert!(matches!(action, ResearchAction::Ask));
    let (call, action) = call.step(ResearchEvent::Answered(Ok(())), &settings);
    let ResearchAction::Research { plan, start, .. } = action else {
        panic!("expected research");
    };
    assert!(plan.max_pages >= 1);
    assert_eq!(start.domains, vec!["a.org"]);
    call
}

fn researched() -> ResearchEvent {
    let outcome = ResearchSessionOutcome { digest: digest(), pages: vec![body("text")] };
    ResearchEvent::Researched { outcome, id_ms: 5, now_ms: 6 }
}

#[test]
fn research_is_asked_about_after_discovery() {
    let settings = settings();
    let mut blank = research_input();
    blank.query = text(" ");
    let (_, action) = ResearchCall::start(blank, &settings, false);
    assert!(matches!(
        action,
        ResearchAction::Finish(Err(ResearchWebToolOutput::Error { error })) if error == QUERY_REQUIRED
    ));
    let start = || ResearchCall::start(research_input(), &settings, false).0;
    let ends = |event: ResearchEvent| match start().step(event, &settings).1 {
        ResearchAction::Finish(Err(output)) => output.into_text(),
        _ => panic!("expected an error"),
    };
    let failed = |failure| ends(ResearchEvent::Discovered(Err(failure)));
    assert_eq!(failed(DiscoveryFailure::NotInitialized), "Web search is not initialized.");
    assert_eq!(failed(DiscoveryFailure::NotAvailable), "Web search is not available.");
    assert_eq!(failed(DiscoveryFailure::Failed(text("e"))), "discovery_failed: e");
    assert_eq!(ends(ResearchEvent::Cancelled), RESEARCH_CANCELLED);
    assert_eq!(
        ends(ResearchEvent::Discovered(Ok(Vec::new()))),
        "discovery_failed: no search hits"
    );
    let seed = |url: &str| ResearchSeed { title: text("t"), url: text(url), snippet: text("s") };
    assert_eq!(
        ends(ResearchEvent::Discovered(Ok(vec![seed("https://10.0.0.1/")]))),
        NO_DOMAINS
    );
    let found = ResearchEvent::Discovered(Ok(vec![seed("https://a.org/")]));
    let (call, _) = start().step(found, &settings);
    let (_, action) = call.step(ResearchEvent::Answered(Err(text("no"))), &settings);
    assert!(matches!(
        action,
        ResearchAction::Finish(Err(ResearchWebToolOutput::Error { error }))
            if error == "research_denied_after_discovery: no"
    ));
}

#[test]
fn research_is_kept_and_indexed() {
    let settings = settings();
    let mut input = research_input();
    input.ingest_to_rag = true;
    let (call, action) = researching(input).step(researched(), &settings);
    assert!(matches!(action, ResearchAction::Save));
    let ResearchCall::Saving { stored, .. } = &call else {
        panic!("expected a session to save");
    };
    assert!(stored.id.starts_with("5-") && stored.created_at_unix_ms == 6);
    assert_eq!(stored.digest.session_id.as_deref(), Some(stored.id.as_str()));
    let (call, action) = call.step(ResearchEvent::Saved(Err(text("disk"))), &settings);
    assert!(matches!(action, ResearchAction::Ingest));
    let (_, action) = call.step(ResearchEvent::Ingested(Ok(text("done"))), &settings);
    assert!(matches!(
        action,
        ResearchAction::Finish(Ok(ResearchWebToolOutput::Success(d)))
            if d.stopped_reason == "completed | persist_failed: disk; done"
    ));

    let mut unkept = research_input();
    unkept.persist = Some(false);
    let (_, action) = researching(unkept).step(researched(), &settings);
    assert!(matches!(
        action,
        ResearchAction::Finish(Ok(ResearchWebToolOutput::Success(d)))
            if d.stopped_reason == "completed" && d.session_id.is_none()
    ));
    let (_, action) = researching(research_input()).step(ResearchEvent::Cancelled, &settings);
    assert!(matches!(action, ResearchAction::Finish(Err(_))));
}

#[test]
fn kept_sessions_are_listed_and_resumed() {
    let settings = settings();
    let mut listing = research_input();
    listing.list_sessions = true;
    let (call, action) = ResearchCall::start(listing, &settings, false);
    assert!(matches!(action, ResearchAction::List));
    let summary = |id: &str, updated| SessionSummary {
        id: text(id),
        query: text("q"),
        pages_fetched: 1,
        created_at_unix_ms: 0,
        updated_at_unix_ms: updated,
        stopped_reason: text("completed"),
    };
    let listed = ResearchEvent::Listed(Ok(vec![summary("old", 1), summary("new", 2)]));
    let (_, action) = call.step(listed, &settings);
    let ResearchAction::Finish(Ok(ResearchWebToolOutput::List { content })) = action else {
        panic!("expected a list");
    };
    assert!(content.find("`new`").unwrap() < content.find("`old`").unwrap());

    let mut resuming = research_input();
    resuming.session_id = Some(text("12-abc"));
    let (call, action) = ResearchCall::start(resuming, &settings, false);
    assert!(matches!(action, ResearchAction::Load { id } if id == "12-abc"));
    let (_, action) = call.step(ResearchEvent::Loaded(Ok(stored())), &settings);
    assert!(matches!(
        action,
        ResearchAction::Finish(Ok(ResearchWebToolOutput::Success(d)))
            if d.session_id.as_deref() == Some("12-abc") && d.stopped_reason == "completed"
    ));

    let mut ingesting = research_input();
    ingesting.session_id = Some(text("12-abc"));
    ingesting.ingest_to_rag = true;
    let (call, _) = ResearchCall::start(ingesting, &settings, false);
    let (call, action) = call.step(ResearchEvent::Loaded(Ok(stored())), &settings);
    assert!(matches!(action, ResearchAction::AskToIngest));
    let (call, action) = call.step(ResearchEvent::Answered(Ok(())), &settings);
    assert!(matches!(action, ResearchAction::Ingest));
    let (_, action) = call.step(ResearchEvent::Ingested(Ok(text("n"))), &settings);
    assert!(matches!(
        action,
        ResearchAction::Finish(Ok(ResearchWebToolOutput::Success(d)))
            if d.stopped_reason == "completed | n"
    ));
}

#[test]
fn pages_are_indexed_one_by_one() {
    let mut ingest = PageIngest::start(&vec![body("one"), body(" "), body("two"), body("three")]);
    let mut texts = Vec::new();
    while let Some((source, document)) = ingest.next() {
        assert_eq!(source, "web:https://a.org/1");
        texts.push(document.to_string());
        let chunks = if texts.len() == 2 { 0 } else { 3 };
        ingest.record(chunks);
    }
    assert_eq!(texts.len(), 3);
    assert_eq!(texts[0], "# T\nSource: https://a.org/1\nMode: http\n\none");
    let tally = ingest.finish();
    assert_eq!((tally.chunks, tally.sources), (6, 2));
}

fn ingest_input(path: Option<&str>, session: Option<&str>) -> RagIngestToolInput {
    RagIngestToolInput {
        path: path.map(str::to_string),
        research_session_id: session.map(str::to_string),
    }
}

fn placed_index(root: Option<&str>, url: &str) -> IngestEvent {
    IngestEvent::Placed {
        worktree_root: root.map(str::to_string),
        chat_api_url: text(url),
    }
}

fn tally(chunks: usize, sources: usize) -> IngestTally {
    IngestTally { chunks, sources }
}

#[test]
fn documents_are_indexed_step_by_step() {
    let error = |action: IngestAction| match action {
        IngestAction::Finish(Err(output)) => output.into_text(),
        _ => panic!("expected an error"),
    };
    let message = |action: IngestAction| match action {
        IngestAction::Finish(Ok(output)) => output.into_text(),
        _ => panic!("expected a message"),
    };
    assert_eq!(error(IngestCall::start(ingest_input(None, None)).1), INGEST_NEEDS_SUBJECT);
    let path = || IngestCall::start(ingest_input(Some("docs"), None)).0;
    assert_eq!(error(path().step(placed_index(None, "http://h")).1), NO_WORKTREE);
    assert_eq!(error(path().step(placed_index(Some("/w"), " ")).1), EMBEDDINGS_REQUIRED);
    let (call, action) = path().step(placed_index(Some("/w"), "http://h/api/v0"));
    let IngestAction::IngestPath { place, path: at } = action else {
        panic!("expected documents to be indexed");
    };
    assert_eq!((at.as_str(), place.api_base.as_str()), ("/w/docs", "http://h/v1"));
    let done = Ingested { tally: tally(4, 1), total: None };
    assert_eq!(
        message(call.step(IngestEvent::Ingested(Ok(done))).1),
        "Indexed 4 chunk(s) from 1 file(s). The index now holds 4 chunk(s)."
    );
    let failed = |failure| {
        let (call, _) = path().step(placed_index(Some("/w"), "http://h"));
        error(call.step(IngestEvent::Ingested(Err(failure))).1)
    };
    assert_eq!(failed(IngestFailure::Open(text("e"))), "Failed to open RAG index: e");
    assert_eq!(failed(IngestFailure::Documents(text("e"))), "Failed to ingest documents: e");
    assert_eq!(
        failed(IngestFailure::Page { source: text("s"), error: text("e") }),
        "Failed to ingest s: e"
    );

    let (call, action) = IngestCall::start(ingest_input(Some("docs"), Some("1-a")));
    assert!(matches!(action, IngestAction::Ask(p) if p.title == "Index research session 1-a into RAG"));
    let (call, action) = call.step(IngestEvent::Answered(Ok(())));
    assert!(matches!(action, IngestAction::Load { session_id } if session_id == "1-a"));
    let (call, action) = call.step(IngestEvent::Loaded(Ok(2)));
    assert!(matches!(action, IngestAction::Place));
    let (call, action) = call.step(placed_index(Some("/w"), "http://h"));
    assert!(matches!(action, IngestAction::IngestSession(_)));
    let done = Ingested { tally: tally(5, 2), total: Some(9) };
    assert_eq!(
        message(call.step(IngestEvent::Ingested(Ok(done))).1),
        "Indexed 5 chunk(s) from 2 web page(s) in session `1-a` as source=web:…. The index now holds 9 chunk(s)."
    );
    let (call, _) = IngestCall::start(ingest_input(None, Some("1-a")));
    let (call, _) = call.step(IngestEvent::Answered(Ok(())));
    assert_eq!(
        message(call.step(IngestEvent::Loaded(Ok(0))).1),
        "Research session `1-a` has no fetched page bodies to ingest."
    );
    let (call, _) = IngestCall::start(ingest_input(None, Some("1-a")));
    assert_eq!(error(call.step(IngestEvent::Answered(Err(text("no")))).1), "no");
}

#[test]
fn documents_are_searched_step_by_step() {
    let opening = || {
        let input = RagSearchToolInput { query: text("q"), k: None };
        let (call, action) = SearchCall::start(input);
        assert!(matches!(action, SearchCallAction::Place));
        call.step(SearchCallEvent::Placed {
            worktree_root: Some(text("/w")),
            chat_api_url: text("http://h"),
        })
    };
    let (call, action) = opening();
    assert!(matches!(action, SearchCallAction::Open { worktree_root } if worktree_root == "/w"));
    let (call, action) = call.step(SearchCallEvent::Opened(Ok(Some(3))));
    assert!(matches!(action, SearchCallAction::Search { k: 5, .. }));
    let found = FoundPassage {
        source: text("/w/a.md"),
        chunk_index: 0,
        score: text("0.500"),
        text: text("t"),
    };
    let said = |action: SearchCallAction| match action {
        SearchCallAction::Finish(Ok(output)) => output.into_text(),
        SearchCallAction::Finish(Err(output)) => format!("error: {}", output.into_text()),
        _ => panic!("expected the end"),
    };
    assert_eq!(
        said(call.step(SearchCallEvent::Found(Ok(vec![found]))).1),
        "[1] a.md (chunk 0, score 0.500)\nt"
    );
    for count in [None, Some(0)] {
        assert_eq!(said(opening().0.step(SearchCallEvent::Opened(Ok(count))).1), EMPTY_INDEX);
    }
    assert_eq!(
        said(opening().0.step(SearchCallEvent::Opened(Err(text("e")))).1),
        "error: Failed to open RAG index: e"
    );
}

#[test]
fn a_failed_scenario_is_tried_once_more() {
    let options = ToolCallSmokeOptions { skip_warmup: false, stream_timeout_secs: 1 };
    let mut run = SmokeRun::start(text("p/m"), &options);
    let mut calls = Vec::new();
    while let Some(case) = run.next() {
        calls.push(case.name);
        let passed = case.name != "read_file";
        let result = ToolCallSmokeCaseResult {
            case: case.name,
            got_tool: passed,
            tool_name: case.expected_tools.first().map(|name| name.to_string()),
            json_parse_errors: Vec::new(),
            streamed_text_preview: String::new(),
            expected_tools: case.expected_tools.clone(),
        };
        run.record(result);
    }
    assert_eq!(calls[0], "warmup");
    assert_eq!(calls.iter().filter(|name| **name == "read_file").count(), MAX_ATTEMPTS);
    assert_eq!(calls.len(), 1 + SMOKE_CASE_COUNT + 1);
    let report = run.finish();
    assert_eq!(report.model_label, "p/m");
    assert_eq!(report.results.len(), SMOKE_CASE_COUNT);
    assert_eq!(report.failure_count(), 1);
}
