use unleashed_agent::tool_call_smoke::{
    should_retry, smoke_cases, smoke_tools_for, warmup_case, ToolCallSmokeCaseResult,
    ToolCallSmokeOptions, ToolCallSmokeReport,
};
use unleashed_agent::tool_call_smoke_modal::{
    Severity, ToolCallSmokeModal, ToolCallSmokeModalPhase,
};

fn passing() -> ToolCallSmokeCaseResult {
    ToolCallSmokeCaseResult {
        case: "read_file",
        got_tool: true,
        tool_name: Some("read_file".into()),
        json_parse_errors: Vec::new(),
        streamed_text_preview: String::new(),
        expected_tools: vec!["read_file"],
    }
}

fn failing() -> ToolCallSmokeCaseResult {
    ToolCallSmokeCaseResult {
        case: "terminal_git_status",
        got_tool: false,
        tool_name: None,
        json_parse_errors: vec!["timeout".into()],
        streamed_text_preview: String::new(),
        expected_tools: vec!["terminal"],
    }
}

#[test]
fn smoke_case_result_passes_when_tool_matches() {
    let result = ToolCallSmokeCaseResult {
        case: "read_file",
        got_tool: true,
        tool_name: Some("read_file".into()),
        json_parse_errors: Vec::new(),
        streamed_text_preview: String::new(),
        expected_tools: vec!["read_file"],
    };
    assert!(result.passed());
}

#[test]
fn smoke_report_counts_failures() {
    let report = ToolCallSmokeReport {
        model_label: "lmstudio/test".into(),
        results: vec![
            ToolCallSmokeCaseResult {
                case: "read_file",
                got_tool: true,
                tool_name: Some("read_file".into()),
                json_parse_errors: Vec::new(),
                streamed_text_preview: String::new(),
                expected_tools: vec!["read_file"],
            },
            ToolCallSmokeCaseResult {
                case: "terminal_git_status",
                got_tool: false,
                tool_name: None,
                json_parse_errors: vec!["timeout".into()],
                streamed_text_preview: String::new(),
                expected_tools: vec!["terminal"],
            },
        ],
    };
    assert!(!report.passed());
    assert_eq!(report.failure_count(), 1);
    assert!(report.summary().contains("1/2 smoke cases failed"));
}

#[test]
fn a_report_passes_without_failures() {
    let report = ToolCallSmokeReport { model_label: "m".into(), results: vec![passing()] };
    assert!(report.passed());
    assert_eq!(report.failure_count(), 0);
    assert!(report.summary().ends_with("All 1 smoke cases passed.\n"));
}

#[test]
fn another_tool_or_broken_input_fails_a_case() {
    let mut result = passing();
    result.tool_name = Some("grep".into());
    assert!(!result.passed());
    let mut result = passing();
    result.json_parse_errors.push("bad".into());
    assert!(!result.passed());
    assert!(should_retry(1, &result));
    assert!(!should_retry(usize::MAX, &result));
    assert!(!should_retry(1, &passing()));
    assert!(result.to_text().contains("  - bad\n"));
    assert!(result.to_text().contains("Expected one of: [\"read_file\"]"));
}

#[test]
fn there_are_five_scenarios_and_a_warm_up() {
    assert_eq!(smoke_cases().len(), 5);
    assert_eq!(warmup_case().expected_tools, vec!["list_directory"]);
}

#[test]
fn a_scenario_offers_known_expected_tools_only() {
    let available = vec!["grep".to_string(), "fetch".to_string(), "terminal".to_string()];
    assert_eq!(smoke_tools_for(&available, &vec!["grep", "fetch"]), vec!["grep".to_string()]);
}

#[test]
fn the_environment_sets_the_options() {
    let options = ToolCallSmokeOptions::from_environment(true, Some("7"));
    assert!(options.skip_warmup);
    assert_eq!(options.stream_timeout_secs, 7);
    let default = ToolCallSmokeOptions::default();
    let unread = ToolCallSmokeOptions::from_environment(false, Some("soon"));
    assert_eq!(unread.stream_timeout_secs, default.stream_timeout_secs);
    assert!(!unread.skip_warmup);
}

#[test]
fn the_window_follows_the_run() {
    let mut modal = ToolCallSmokeModal::new("lmstudio", "qwen");
    assert_eq!(modal.model_label, "lmstudio/qwen");
    assert_eq!(modal.log, "Model: lmstudio/qwen\n\nRunning tool-call smoke test…\n");
    assert_eq!(modal.texts().button, "Cancel");
    assert_eq!(modal.texts().severity, Severity::Info);

    let report = ToolCallSmokeReport {
        model_label: "lmstudio/qwen".into(),
        results: vec![passing(), failing()],
    };
    modal.finish(&Ok(report));
    assert_eq!(modal.phase, ToolCallSmokeModalPhase::Complete);
    assert_eq!(modal.passed, Some(false));
    assert_eq!(modal.texts().headline, "Tool Calling Test Failed");
    assert_eq!(modal.texts().severity, Severity::Warning);

    let report = ToolCallSmokeReport { model_label: "m".into(), results: vec![passing()] };
    modal.finish(&Ok(report));
    assert_eq!(modal.texts().headline, "Tool Calling Test Passed");
    assert_eq!(modal.texts().banner, "All smoke cases passed.");
}

#[test]
fn a_missing_key_comes_with_a_hint() {
    let mut modal = ToolCallSmokeModal::new("lmstudio", "qwen");
    modal.finish(&Err("No API key found".to_string()));
    assert_eq!(modal.phase, ToolCallSmokeModalPhase::Failed);
    assert!(modal.log.starts_with("Model: lmstudio/qwen\n\nError: No API key found\n\nHint: "));
    modal.finish(&Err("connection refused".to_string()));
    assert_eq!(modal.log, "Model: lmstudio/qwen\n\nError: connection refused");
    assert_eq!(modal.texts().severity, Severity::Error);
    assert_eq!(modal.texts().button, "Close");
}
