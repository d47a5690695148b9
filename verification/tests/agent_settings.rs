use unleashed_agent::agent_settings::{
    compile_anti_loop_settings, compile_auto_thread_rollover, compile_network_agent,
    compile_web_research_settings, language_model_to_selection, AgentSettings, AntiLoopSettings,
    LanguageModelFacts, NetworkAgentDelegationMode, NetworkAgentSettings,
    NetworkAgentWorkerEndpoint, NetworkAgentWorkers, WorkerScheduling, NETWORK_AGENT_PROVIDER_ID,
};
use unleashed_agent::assoc::Assoc;
use unleashed_agent::layout::{
    PanelContent, PanelLayout, SettingsContent, SidePanelContent, WindowLayout,
};
use unleashed_agent::network_agent_health::{check_hybrid_models_in_registry, ModelHealth};
use unleashed_agent::repetition_watchdog::ROLLING_WINDOW_CHARS;
use unleashed_agent::security_rules::{
    check_hardcoded_security_rules, expand_rm_to_single_path_commands, CompiledRegex,
    HARDCODED_SECURITY_DENIAL_MESSAGE,
};
use unleashed_agent::settings_content::{
    AgentSettingsContent, AntiLoopSettingsContent, AutoThreadRolloverContent, DockPosition,
    DockSide, ExtendingVec, FullAccessSettingsContent, LanguageModelParameters,
    LanguageModelProviderSetting,
    LanguageModelSelection, NetworkAgentSettingsContent, NetworkAgentWorkerEndpointContent,
    NetworkAgentWorkersContent, NotifyWhenAgentWaiting, SandboxPermissionsContent,
    SidebarDockPosition, SingleBits, ThinkingBlockDisplay, ToolPermissionMode,
    ToolPermissionsContent, ToolRegexRule, ToolRulesContent, WebResearchSettingsContent,
};
use unleashed_agent::tool_permissions::{
    compile_full_access_settings, compile_sandbox_permissions, compile_tool_permissions,
    SandboxPermissions, ToolRules,
};

fn mode(value: &serde_json::Value) -> Option<ToolPermissionMode> {
    match value.get("default")?.as_str()? {
        "allow" => Some(ToolPermissionMode::Allow),
        "deny" => Some(ToolPermissionMode::Deny),
        "confirm" => Some(ToolPermissionMode::Confirm),
        other => panic!("unknown mode {other}"),
    }
}

fn rule_list(value: &serde_json::Value, key: &str) -> Option<ExtendingVec<ToolRegexRule>> {
    let rules = value.get(key)?.as_array()?;
    Some(ExtendingVec(
        rules
            .iter()
            .map(|rule| ToolRegexRule {
                pattern: rule
                    .get("pattern")
                    .and_then(|pattern| pattern.as_str())
                    .unwrap_or_default()
                    .to_string(),
                case_sensitive: rule.get("case_sensitive").and_then(|flag| flag.as_bool()),
            })
            .collect(),
    ))
}

fn permissions_content(json: &str) -> ToolPermissionsContent {
    let value: serde_json::Value = serde_json::from_str(json).unwrap();
    let mut tools = Assoc::new();
    if let Some(map) = value.get("tools").and_then(|tools| tools.as_object()) {
        for (name, rules) in map {
            tools.insert(
                name,
                ToolRulesContent {
                    default: mode(rules),
                    always_allow: rule_list(rules, "always_allow"),
                    always_deny: rule_list(rules, "always_deny"),
                    always_confirm: rule_list(rules, "always_confirm"),
                },
            );
        }
    }
    ToolPermissionsContent { default: mode(&value), tools }
}

fn sandbox(json: &str) -> SandboxPermissionsContent {
    let value: serde_json::Value = serde_json::from_str(json).unwrap();
    let flag = |key: &str| value.get(key).and_then(|flag| flag.as_bool());
    SandboxPermissionsContent {
        allow_network: flag("allow_network"),
        allow_fs_write_all: flag("allow_fs_write_all"),
        allow_unsandboxed: flag("allow_unsandboxed"),
        write_paths: value.get("write_paths").and_then(|paths| paths.as_array()).map(|paths| {
            ExtendingVec(paths.iter().map(|path| path.as_str().unwrap().to_string()).collect())
        }),
    }
}

fn selection(provider: &str, model: &str) -> LanguageModelSelection {
    LanguageModelSelection {
        provider: LanguageModelProviderSetting(provider.to_string()),
        model: model.to_string(),
        enable_thinking: false,
        effort: None,
        speed: None,
    }
}

fn complete_content() -> AgentSettingsContent {
    let mut c = AgentSettingsContent::default();
    c.enabled = Some(false);
    c.button = Some(false);
    c.dock = Some(DockPosition::Right);
    c.starts_open = Some(false);
    c.sidebar_side = Some(SidebarDockPosition::Left);
    c.default_width = Some(SingleBits(300f32.to_bits()));
    c.default_height = Some(SingleBits(600f32.to_bits()));
    c.limit_content_width = Some(false);
    c.flexible = Some(true);
    c.default_model = Some(selection("lmstudio", "local-model"));
    c.default_profile = Some("write".to_string());
    c.profiles = Some(Assoc::new());
    c.notify_when_agent_waiting = Some(NotifyWhenAgentWaiting::PrimaryScreen);
    c.single_file_review = Some(false);
    c.enable_feedback = Some(false);
    c.expand_edit_card = Some(true);
    c.expand_terminal_card = Some(true);
    c.thinking_display = Some(ThinkingBlockDisplay::Auto);
    c.cancel_generation_on_terminal_stop = Some(true);
    c.use_modifier_to_send = Some(false);
    c.message_editor_min_lines = Some(1);
    c.show_turn_stats = Some(false);
    c.show_merge_conflict_indicator = Some(true);
    c
}

fn settings() -> AgentSettings {
    AgentSettings::from_settings(complete_content())
}

fn docks(agent: Option<DockPosition>, project: Option<DockSide>) -> SettingsContent {
    let mut content = SettingsContent::default();
    if agent.is_some() {
        let mut settings = AgentSettingsContent::default();
        settings.dock = agent;
        content.agent = Some(settings);
    }
    if project.is_some() {
        content.project_panel = Some(SidePanelContent { dock: project });
    }
    content
}

fn written(layout: PanelLayout) -> SettingsContent {
    let mut content = SettingsContent::default();
    layout.write_to(&mut content);
    content
}

fn merged(defaults: &SettingsContent, user: &SettingsContent) -> SettingsContent {
    let low = PanelLayout::read_from(defaults);
    let high = PanelLayout::read_from(user);
    written(PanelLayout {
        agent_dock: high.agent_dock.or(low.agent_dock),
        project_panel_dock: high.project_panel_dock.or(low.project_panel_dock),
        outline_panel_dock: high.outline_panel_dock.or(low.outline_panel_dock),
        collaboration_panel_dock: high.collaboration_panel_dock.or(low.collaboration_panel_dock),
        git_panel_dock: high.git_panel_dock.or(low.git_panel_dock),
    })
}

#[test]
fn test_compiled_regex_case_insensitive() {
    let regex = CompiledRegex::new("rm\\s+-rf", false).unwrap();
    assert!(regex.is_match("rm -rf /"));
    assert!(regex.is_match("RM -RF /"));
    assert!(regex.is_match("Rm -Rf /"));
}

#[test]
fn test_compiled_regex_case_sensitive() {
    let regex = CompiledRegex::new("DROP\\s+TABLE", true).unwrap();
    assert!(regex.is_match("DROP TABLE users"));
    assert!(!regex.is_match("drop table users"));
}

#[test]
fn test_invalid_regex_returns_none() {
    let result = CompiledRegex::new("[invalid(regex", false);
    assert!(result.is_none());
}

#[test]
fn test_tool_permissions_parsing() {
    let json = r#"{
        "tools": {
            "terminal": {
                "default": "allow",
                "always_deny": [
                    { "pattern": "rm\\s+-rf" }
                ],
                "always_allow": [
                    { "pattern": "^git\\s" }
                ]
            }
        }
    }"#;

    let content = permissions_content(json);
    let permissions = compile_tool_permissions(Some(content));

    let terminal_rules = permissions.tools.get("terminal").unwrap();
    assert_eq!(terminal_rules.default, Some(ToolPermissionMode::Allow));
    assert_eq!(terminal_rules.always_deny.len(), 1);
    assert_eq!(terminal_rules.always_allow.len(), 1);
    assert!(terminal_rules.always_deny[0].is_match("rm -rf /"));
    assert!(terminal_rules.always_allow[0].is_match("git status"));
}

#[test]
fn test_tool_rules_default() {
    let json = r#"{
        "tools": {
            "edit_file": {
                "default": "deny"
            }
        }
    }"#;

    let content = permissions_content(json);
    let permissions = compile_tool_permissions(Some(content));

    let rules = permissions.tools.get("edit_file").unwrap();
    assert_eq!(rules.default, Some(ToolPermissionMode::Deny));
}

#[test]
fn test_tool_permissions_empty() {
    let permissions = compile_tool_permissions(None);
    assert!(permissions.tools.entries.is_empty());
    assert_eq!(permissions.default, ToolPermissionMode::Confirm);
}

#[test]
fn test_sandbox_permissions_empty() {
    let permissions = compile_sandbox_permissions(None);
    assert_eq!(permissions, SandboxPermissions::default());
}

#[test]
fn test_full_access_settings_require_absolute_normalized_roots() {
    let content = FullAccessSettingsContent {
        enabled: Some(true),
        allowed_roots: Some(ExtendingVec(vec![
            "/tmp/agent/../agent".to_string(),
            "relative/path".to_string(),
        ])),
        denied_roots: Some(ExtendingVec(vec!["/protected".to_string()])),
    };
    let settings = compile_full_access_settings(Some(content));

    assert!(settings.enabled);
    assert_eq!(settings.allowed_roots, vec!["/tmp/agent".to_string()]);
    assert_eq!(settings.denied_roots, vec!["/protected".to_string()]);
}

#[test]
fn test_sandbox_permissions_parsing_and_pruning() {
    let json = r#"{
        "allow_network": true,
        "allow_unsandboxed": true,
        "write_paths": [
            "/tmp/build/cache",
            "/tmp/build",
            "/var/log"
        ]
    }"#;

    let content = sandbox(json);
    let permissions = compile_sandbox_permissions(Some(content));

    assert!(permissions.allow_network);
    assert!(!permissions.allow_fs_write_all);
    assert!(permissions.allow_unsandboxed);
    assert_eq!(
        permissions.write_paths,
        vec![String::from("/tmp/build"), String::from("/var/log")]
    );
}

#[test]
fn test_sandbox_permissions_normalizes_and_prunes_parent_traversal() {
    let json = r#"{
        "write_paths": [
            "/tmp/build/../build/cache",
            "/tmp/build"
        ]
    }"#;

    let content = sandbox(json);
    let permissions = compile_sandbox_permissions(Some(content));

    // `/tmp/build/../build/cache` normalizes to `/tmp/build/cache`, which is
    // then pruned as a redundant child of `/tmp/build`.
    assert_eq!(permissions.write_paths, vec![String::from("/tmp/build")]);
}

#[test]
fn test_tool_rules_default_returns_confirm() {
    let default_rules = ToolRules::default();
    assert_eq!(default_rules.default, None);
    assert!(default_rules.always_allow.is_empty());
    assert!(default_rules.always_deny.is_empty());
    assert!(default_rules.always_confirm.is_empty());
}

#[test]
fn test_tool_permissions_with_multiple_tools() {
    let json = r#"{
        "tools": {
            "terminal": {
                "default": "allow",
                "always_deny": [{ "pattern": "rm\\s+-rf" }]
            },
            "edit_file": {
                "default": "confirm",
                "always_deny": [{ "pattern": "\\.env$" }]
            },
            "delete_path": {
                "default": "deny"
            }
        }
    }"#;

    let content = permissions_content(json);
    let permissions = compile_tool_permissions(Some(content));

    assert_eq!(permissions.tools.entries.len(), 3);

    let terminal = permissions.tools.get("terminal").unwrap();
    assert_eq!(terminal.default, Some(ToolPermissionMode::Allow));
    assert_eq!(terminal.always_deny.len(), 1);

    let edit_file = permissions.tools.get("edit_file").unwrap();
    assert_eq!(edit_file.default, Some(ToolPermissionMode::Confirm));
    assert!(edit_file.always_deny[0].is_match("secrets.env"));

    let delete_path = permissions.tools.get("delete_path").unwrap();
    assert_eq!(delete_path.default, Some(ToolPermissionMode::Deny));
}

#[test]
fn test_tool_permissions_with_all_rule_types() {
    let json = r#"{
        "tools": {
            "terminal": {
                "always_deny": [{ "pattern": "rm\\s+-rf" }],
                "always_confirm": [{ "pattern": "sudo\\s" }],
                "always_allow": [{ "pattern": "^git\\s+status" }]
            }
        }
    }"#;

    let content = permissions_content(json);
    let permissions = compile_tool_permissions(Some(content));

    let terminal = permissions.tools.get("terminal").unwrap();
    assert_eq!(terminal.always_deny.len(), 1);
    assert_eq!(terminal.always_confirm.len(), 1);
    assert_eq!(terminal.always_allow.len(), 1);

    assert!(terminal.always_deny[0].is_match("rm -rf /"));
    assert!(terminal.always_confirm[0].is_match("sudo apt install"));
    assert!(terminal.always_allow[0].is_match("git status"));
}

#[test]
fn test_invalid_regex_is_tracked_and_valid_ones_still_compile() {
    let json = r#"{
        "tools": {
            "terminal": {
                "always_deny": [
                    { "pattern": "[invalid(regex" },
                    { "pattern": "valid_pattern" }
                ],
                "always_allow": [
                    { "pattern": "[another_bad" }
                ]
            }
        }
    }"#;

    let content = permissions_content(json);
    let permissions = compile_tool_permissions(Some(content));

    let terminal = permissions.tools.get("terminal").unwrap();

    // Valid patterns should still be compiled
    assert_eq!(terminal.always_deny.len(), 1);
    assert!(terminal.always_deny[0].is_match("valid_pattern"));

    // Invalid patterns should be tracked (order depends on processing order)
    assert_eq!(terminal.invalid_patterns.len(), 2);

    let deny_invalid = terminal
        .invalid_patterns
        .iter()
        .find(|p| p.rule_type == "always_deny")
        .expect("should have invalid pattern from always_deny");
    assert_eq!(deny_invalid.pattern, "[invalid(regex");
    assert!(!deny_invalid.error.is_empty());

    let allow_invalid = terminal
        .invalid_patterns
        .iter()
        .find(|p| p.rule_type == "always_allow")
        .expect("should have invalid pattern from always_allow");
    assert_eq!(allow_invalid.pattern, "[another_bad");

    // ToolPermissions helper methods should work
    assert!(permissions.has_invalid_patterns());
    assert_eq!(permissions.invalid_patterns().len(), 2);
}

#[test]
fn test_deny_takes_precedence_over_allow_and_confirm() {
    let json = r#"{
        "tools": {
            "terminal": {
                "default": "allow",
                "always_deny": [{ "pattern": "dangerous" }],
                "always_confirm": [{ "pattern": "dangerous" }],
                "always_allow": [{ "pattern": "dangerous" }]
            }
        }
    }"#;

    let content = permissions_content(json);
    let permissions = compile_tool_permissions(Some(content));
    let terminal = permissions.tools.get("terminal").unwrap();

    assert!(
        terminal.always_deny[0].is_match("run dangerous command"),
        "Deny rule should match"
    );
    assert!(
        terminal.always_allow[0].is_match("run dangerous command"),
        "Allow rule should also match (but deny takes precedence at evaluation time)"
    );
    assert!(
        terminal.always_confirm[0].is_match("run dangerous command"),
        "Confirm rule should also match (but deny takes precedence at evaluation time)"
    );
}

#[test]
fn test_confirm_takes_precedence_over_allow() {
    let json = r#"{
        "tools": {
            "terminal": {
                "default": "allow",
                "always_confirm": [{ "pattern": "risky" }],
                "always_allow": [{ "pattern": "risky" }]
            }
        }
    }"#;

    let content = permissions_content(json);
    let permissions = compile_tool_permissions(Some(content));
    let terminal = permissions.tools.get("terminal").unwrap();

    assert!(
        terminal.always_confirm[0].is_match("do risky thing"),
        "Confirm rule should match"
    );
    assert!(
        terminal.always_allow[0].is_match("do risky thing"),
        "Allow rule should also match (but confirm takes precedence at evaluation time)"
    );
}

#[test]
fn test_regex_matches_anywhere_in_string_not_just_anchored() {
    let json = r#"{
        "tools": {
            "terminal": {
                "always_deny": [
                    { "pattern": "rm\\s+-rf" },
                    { "pattern": "/etc/passwd" }
                ]
            }
        }
    }"#;

    let content = permissions_content(json);
    let permissions = compile_tool_permissions(Some(content));
    let terminal = permissions.tools.get("terminal").unwrap();

    assert!(
        terminal.always_deny[0].is_match("echo hello && rm -rf /"),
        "Should match rm -rf in the middle of a command chain"
    );
    assert!(
        terminal.always_deny[0].is_match("cd /tmp; rm -rf *"),
        "Should match rm -rf after semicolon"
    );
    assert!(
        terminal.always_deny[1].is_match("cat /etc/passwd | grep root"),
        "Should match /etc/passwd in a pipeline"
    );
    assert!(
        terminal.always_deny[1].is_match("vim /etc/passwd"),
        "Should match /etc/passwd as argument"
    );
}

#[test]
fn test_fork_bomb_pattern_matches() {
    let fork_bomb_regex = CompiledRegex::new(r":\(\)\{\s*:\|:&\s*\};:", false).unwrap();
    assert!(
        fork_bomb_regex.is_match(":(){ :|:& };:"),
        "Should match the classic fork bomb"
    );
    assert!(
        fork_bomb_regex.is_match(":(){ :|:&};:"),
        "Should match fork bomb without spaces"
    );
}

#[test]
fn test_compiled_regex_stores_case_sensitivity() {
    let case_sensitive = CompiledRegex::new("test", true).unwrap();
    let case_insensitive = CompiledRegex::new("test", false).unwrap();

    assert!(case_sensitive.case_sensitive);
    assert!(!case_insensitive.case_sensitive);
}

#[test]
fn test_invalid_regex_is_skipped_not_fail() {
    let json = r#"{
        "tools": {
            "terminal": {
                "always_deny": [
                    { "pattern": "[invalid(regex" },
                    { "pattern": "valid_pattern" }
                ]
            }
        }
    }"#;

    let content = permissions_content(json);
    let permissions = compile_tool_permissions(Some(content));

    let terminal = permissions.tools.get("terminal").unwrap();
    assert_eq!(terminal.always_deny.len(), 1);
    assert!(terminal.always_deny[0].is_match("valid_pattern"));
}

#[test]
fn test_unconfigured_tool_not_in_permissions() {
    let json = r#"{
        "tools": {
            "terminal": {
                "default": "allow"
            }
        }
    }"#;

    let content = permissions_content(json);
    let permissions = compile_tool_permissions(Some(content));

    assert!(permissions.tools.get("terminal").is_some());
    assert!(!permissions.tools.get("edit_file").is_some());
    assert!(!permissions.tools.get("fetch").is_some());
}

#[test]
fn test_always_allow_pattern_only_matches_specified_commands() {
    // Reproduces user-reported bug: when always_allow has pattern "^echo\s",
    // only "echo hello" should be allowed, not "git status".
    //
    // User config:
    //   always_allow_tool_actions: false
    //   tool_permissions.tools.terminal.always_allow: [{ pattern: "^echo\\s" }]
    let json = r#"{
        "tools": {
            "terminal": {
                "always_allow": [
                    { "pattern": "^echo\\s" }
                ]
            }
        }
    }"#;

    let content = permissions_content(json);
    let permissions = compile_tool_permissions(Some(content));

    let terminal = permissions.tools.get("terminal").unwrap();

    // Verify the pattern was compiled
    assert_eq!(
        terminal.always_allow.len(),
        1,
        "Should have one always_allow pattern"
    );

    // Verify the pattern matches "echo hello"
    assert!(
        terminal.always_allow[0].is_match("echo hello"),
        "Pattern ^echo\\s should match 'echo hello'"
    );

    // Verify the pattern does NOT match "git status"
    assert!(
        !terminal.always_allow[0].is_match("git status"),
        "Pattern ^echo\\s should NOT match 'git status'"
    );

    // Verify the pattern does NOT match "echoHello" (no space)
    assert!(
        !terminal.always_allow[0].is_match("echoHello"),
        "Pattern ^echo\\s should NOT match 'echoHello' (requires whitespace)"
    );

    assert_eq!(
        terminal.default, None,
        "default should be None when not specified"
    );
}

#[test]
fn test_empty_regex_pattern_is_invalid() {
    let json = r#"{
        "tools": {
            "terminal": {
                "always_allow": [
                    { "pattern": "" }
                ],
                "always_deny": [
                    { "case_sensitive": true }
                ],
                "always_confirm": [
                    { "pattern": "" },
                    { "pattern": "valid_pattern" }
                ]
            }
        }
    }"#;

    let content = permissions_content(json);
    let permissions = compile_tool_permissions(Some(content));

    let terminal = permissions.tools.get("terminal").unwrap();

    assert_eq!(terminal.always_allow.len(), 0);
    assert_eq!(terminal.always_deny.len(), 0);
    assert_eq!(terminal.always_confirm.len(), 1);
    assert!(terminal.always_confirm[0].is_match("valid_pattern"));

    assert_eq!(terminal.invalid_patterns.len(), 3);
    for invalid in &terminal.invalid_patterns {
        assert_eq!(invalid.pattern, "");
        assert!(invalid.error.contains("empty"));
    }
}

#[test]
fn test_tool_permissions_explicit_global_default() {
    let json_allow = r#"{
        "default": "allow"
    }"#;
    let content = permissions_content(json_allow);
    let permissions = compile_tool_permissions(Some(content));
    assert_eq!(permissions.default, ToolPermissionMode::Allow);

    let json_deny = r#"{
        "default": "deny"
    }"#;
    let content = permissions_content(json_deny);
    let permissions = compile_tool_permissions(Some(content));
    assert_eq!(permissions.default, ToolPermissionMode::Deny);
}

#[test]
fn test_auto_thread_rollover_defaults_and_overrides() {
    let defaults = compile_auto_thread_rollover(None);
    assert!(defaults.enabled);
    assert_eq!(f32::from_bits(defaults.context_fraction.0), 0.5);

    let overridden = compile_auto_thread_rollover(Some(AutoThreadRolloverContent {
        enabled: Some(false),
        context_fraction: Some(SingleBits(5.0f32.to_bits())),
    }));
    assert!(!overridden.enabled);
    assert_eq!(f32::from_bits(overridden.context_fraction.0), 0.95);
}

#[test]
fn test_anti_loop_defaults_and_bounds() {
    let defaults = compile_anti_loop_settings(None);
    assert!(defaults.enabled);
    assert_eq!(defaults.max_recoveries_per_turn, 1);
    assert_eq!(defaults.min_block_chars, 64);
    assert_eq!(defaults.max_block_chars, 1_024);
    assert_eq!(defaults.min_repeats, 3);
    assert_eq!(defaults.min_text_chars_before_trip, 256);
    assert!(defaults.watch_thinking);
    assert_eq!(defaults.thinking_min_block_chars, 128);
    assert_eq!(defaults.thinking_max_block_chars, 1_024);
    assert_eq!(defaults.thinking_min_repeats, 4);
    assert_eq!(defaults.thinking_min_text_chars_before_trip, 512);

    let bounded = compile_anti_loop_settings(Some(AntiLoopSettingsContent {
        enabled: Some(false),
        max_recoveries_per_turn: Some(99),
        min_block_chars: Some(1),
        max_block_chars: Some(2),
        min_repeats: Some(1),
        min_text_chars_before_trip: Some(1),
        watch_thinking: Some(false),
        thinking_min_block_chars: Some(1),
        thinking_max_block_chars: Some(2),
        thinking_min_repeats: Some(1),
        thinking_min_text_chars_before_trip: Some(1),
    }));
    assert!(!bounded.enabled);
    assert_eq!(bounded.max_recoveries_per_turn, 1);
    assert_eq!(bounded.min_block_chars, 64);
    assert_eq!(bounded.max_block_chars, 1_024);
    assert_eq!(bounded.min_repeats, 3);
    assert_eq!(bounded.min_text_chars_before_trip, 256);
    assert!(!bounded.watch_thinking);
    assert_eq!(bounded.thinking_min_block_chars, 128);
    assert_eq!(bounded.thinking_max_block_chars, 1_024);
    assert_eq!(bounded.thinking_min_repeats, 4);
    assert_eq!(bounded.thinking_min_text_chars_before_trip, 512);
}

#[test]
fn test_get_layout() {
    let defaults = written(PanelLayout::agent());
    let empty = SettingsContent::default();
    let layout = AgentSettings::get_layout(&merged(&defaults, &empty), Some(&empty));
    let WindowLayout::Agent(Some(user_layout)) = layout else {
        panic!("expected Agent(Some), got {layout:?}");
    };
    assert_eq!(user_layout, PanelLayout::default());

    let user = docks(Some(DockPosition::Left), None);
    let layout = AgentSettings::get_layout(&merged(&defaults, &user), Some(&user));
    let WindowLayout::Agent(Some(user_layout)) = layout else {
        panic!("expected Agent(Some), got {layout:?}");
    };
    assert_eq!(user_layout.agent_dock, Some(DockPosition::Left));
    assert_eq!(user_layout.project_panel_dock, None);
    assert_eq!(user_layout.outline_panel_dock, None);
    assert_eq!(user_layout.collaboration_panel_dock, None);
    assert_eq!(user_layout.git_panel_dock, None);

    let user = docks(Some(DockPosition::Left), Some(DockSide::Left));
    let layout = AgentSettings::get_layout(&merged(&defaults, &user), Some(&user));
    let WindowLayout::Custom(user_layout) = layout else {
        panic!("expected Custom, got {layout:?}");
    };
    assert_eq!(user_layout.agent_dock, Some(DockPosition::Left));
    assert_eq!(user_layout.project_panel_dock, Some(DockSide::Left));
}

#[test]
fn test_set_layout_round_trip() {
    let defaults = written(PanelLayout::agent());
    let mut user = docks(Some(DockPosition::Right), Some(DockSide::Right));
    let original = AgentSettings::get_layout(&merged(&defaults, &user), Some(&user));
    let WindowLayout::Custom(original_user_layout) = original else {
        panic!("expected Custom, got {original:?}");
    };
    assert_eq!(original_user_layout.agent_dock, Some(DockPosition::Right));
    assert_eq!(original_user_layout.project_panel_dock, Some(DockSide::Right));
    assert_eq!(original_user_layout.outline_panel_dock, None);

    PanelLayout::agent().write_to(&mut user);
    let layout = AgentSettings::get_layout(&merged(&defaults, &user), Some(&user));
    assert!(matches!(layout, WindowLayout::Agent(_)));

    original_user_layout.write_to(&mut user);
    let restored = AgentSettings::get_layout(&merged(&defaults, &user), Some(&user));
    let WindowLayout::Custom(restored_user_layout) = restored else {
        panic!("expected Custom, got {restored:?}");
    };
    assert_eq!(restored_user_layout.agent_dock, Some(DockPosition::Right));
    assert_eq!(restored_user_layout.project_panel_dock, Some(DockSide::Right));
    assert_eq!(restored_user_layout.outline_panel_dock, None);
}

#[test]
fn test_set_layout_minimal_diff() {
    let defaults = written(PanelLayout::agent());
    let mut user = docks(Some(DockPosition::Left), Some(DockSide::Left));
    let in_force = merged(&defaults, &user);
    let layout = AgentSettings::get_layout(&in_force, Some(&user));
    assert!(matches!(layout, WindowLayout::Custom(_)));

    AgentSettings::set_layout(WindowLayout::agent(), &in_force, &mut user);

    let user_layout = PanelLayout::read_from(&user);
    assert_eq!(user_layout.agent_dock, Some(DockPosition::Left));
    assert_eq!(user_layout.project_panel_dock, Some(DockSide::Right));
    assert_eq!(user_layout.outline_panel_dock, None);

    let layout = AgentSettings::get_layout(&merged(&defaults, &user), Some(&user));
    assert!(matches!(layout, WindowLayout::Agent(_)));
}

#[test]
fn test_backfill_editor_layout() {
    let before = docks(None, Some(DockSide::Right));
    let mut user = before.clone();
    AgentSettings::backfill_editor_layout(Some(&before), &mut user);

    let user_layout = PanelLayout::read_from(&user);
    assert_eq!(user_layout.agent_dock, Some(DockPosition::Right));
    assert_eq!(user_layout.project_panel_dock, Some(DockSide::Right));
    assert_eq!(user_layout.outline_panel_dock, Some(DockSide::Left));
    assert_eq!(user_layout.collaboration_panel_dock, Some(DockPosition::Left));
    assert_eq!(user_layout.git_panel_dock, Some(DockPosition::Left));

    let defaults = written(PanelLayout::agent());
    let layout = AgentSettings::get_layout(&merged(&defaults, &user), Some(&user));
    let WindowLayout::Custom(user_layout) = layout else {
        panic!("expected Custom (editor values override agent defaults), got {layout:?}");
    };
    assert_eq!(user_layout.agent_dock, Some(DockPosition::Right));
    assert_eq!(user_layout.project_panel_dock, Some(DockSide::Right));
}

#[test]
fn test_effective_default_model_uses_network_when_active() {
    let mut settings = settings();
    settings.network_agent = NetworkAgentSettings {
        enabled: true,
        model: Some("net-model".into()),
        delegation_mode: NetworkAgentDelegationMode::Balanced,
        workers: NetworkAgentWorkers::default(),
    };

    let effective = settings.effective_default_model().unwrap();
    assert_eq!(effective.provider.0, NETWORK_AGENT_PROVIDER_ID);
    assert_eq!(effective.model, "net-model");

    let subagent = settings.effective_subagent_model().unwrap();
    assert_eq!(subagent.provider.0, "lmstudio");
    assert_eq!(subagent.model, "local-model");
}

#[test]
fn test_delegation_mode_parsing() {
    assert_eq!(
        NetworkAgentDelegationMode::parse("balanced"),
        NetworkAgentDelegationMode::Balanced
    );
    assert_eq!(
        NetworkAgentDelegationMode::parse("manual"),
        NetworkAgentDelegationMode::Manual
    );
    assert_eq!(
        NetworkAgentDelegationMode::parse("unknown"),
        NetworkAgentDelegationMode::Balanced
    );
}

#[test]
fn names_are_read_back() {
    for mode in [NetworkAgentDelegationMode::Balanced, NetworkAgentDelegationMode::Manual] {
        assert_eq!(NetworkAgentDelegationMode::parse(mode.as_str()), mode);
    }
    for scheduling in
        [WorkerScheduling::Pool, WorkerScheduling::RoundRobin, WorkerScheduling::LeastBusy]
    {
        assert_eq!(WorkerScheduling::parse(scheduling.as_str()), scheduling);
    }
}

#[test]
fn anti_loop_blocks_fit_the_window() {
    let mut content = AntiLoopSettingsContent::default();
    content.max_block_chars = Some(usize::MAX);
    content.min_repeats = Some(usize::MAX);
    let s: AntiLoopSettings = compile_anti_loop_settings(Some(content));
    assert!(s.max_block_chars * s.min_repeats <= ROLLING_WINDOW_CHARS);
    let mut content = AntiLoopSettingsContent::default();
    content.min_block_chars = Some(4_096);
    content.min_repeats = Some(8);
    content.thinking_min_block_chars = Some(2_049);
    content.thinking_max_block_chars = Some(4_096);
    content.thinking_min_repeats = Some(8);
    let s: AntiLoopSettings = compile_anti_loop_settings(Some(content));
    assert_eq!((s.min_block_chars, s.max_block_chars, s.min_repeats), (64, 1_024, 8));
    assert_eq!(
        (s.thinking_min_block_chars, s.thinking_max_block_chars, s.thinking_min_repeats),
        (128, 1_024, 8)
    );
    let mut content = AntiLoopSettingsContent::default();
    content.min_block_chars = Some(2_048);
    content.min_repeats = Some(8);
    let s: AntiLoopSettings = compile_anti_loop_settings(Some(content));
    assert_eq!((s.min_block_chars, s.max_block_chars), (2_048, 2_048));
    assert_eq!(s.min_text_chars_before_trip, ROLLING_WINDOW_CHARS);
}

#[test]
fn web_research_settings_are_bounded() {
    let mut content = WebResearchSettingsContent::default();
    content.max_search_results = Some(usize::MAX);
    content.preferred_provider = Some("  ".to_string());
    let s = compile_web_research_settings(Some(content));
    let d = compile_web_research_settings(None);
    assert!(s.max_search_results < usize::MAX);
    assert_eq!(s.max_pages, d.max_pages);
}

#[test]
fn incomplete_worker_endpoints_are_left_out() {
    let endpoint = |provider: Option<&str>| NetworkAgentWorkerEndpointContent {
        id: Some("w".to_string()),
        provider: provider.map(|p| p.to_string()),
        model: Some("m".to_string()),
        max_concurrent: None,
        enabled: None,
    };
    let compiled = compile_network_agent(Some(NetworkAgentSettingsContent {
        enabled: Some(true),
        model: Some("net".to_string()),
        delegation_mode: Some("manual".to_string()),
        workers: Some(NetworkAgentWorkersContent {
            scheduling: Some("round_robin".to_string()),
            max_workers: None,
            include_default_model: None,
            endpoints: Some(vec![endpoint(Some("p")), endpoint(None)]),
        }),
    }));
    assert_eq!(compiled.workers.endpoints.len(), 1);
    assert_eq!(compiled.delegation_mode, NetworkAgentDelegationMode::Manual);
    assert_eq!(compiled.workers.scheduling, WorkerScheduling::RoundRobin);
}

#[test]
fn hybrid_models_are_judged() {
    let mut s = settings();
    let (orchestrator, worker) = check_hybrid_models_in_registry(&s, true, true);
    assert_eq!(orchestrator, ModelHealth::Ready);
    assert_eq!(worker.label(), "Unknown");
    s.network_agent.enabled = true;
    s.network_agent.model = Some("net".to_string());
    let (orchestrator, worker) = check_hybrid_models_in_registry(&s, false, false);
    assert_eq!(
        orchestrator.label(),
        "Network orchestrator model not available — check Configure Network Agent"
    );
    assert_eq!(
        worker.label(),
        "Local worker `lmstudio/local-model` unavailable — start LM Studio"
    );
    s.default_model = Some(selection("openai", "gpt"));
    let (_, worker) = check_hybrid_models_in_registry(&s, true, true);
    assert!(matches!(worker, ModelHealth::Warning(_)));
    s.default_model = None;
    let (_, worker) = check_hybrid_models_in_registry(&s, true, true);
    assert_eq!(worker.label(), "Set agent.default_model to your LM Studio worker model");
    s.network_agent.enabled = false;
    let (orchestrator, _) = check_hybrid_models_in_registry(&s, true, true);
    assert_eq!(orchestrator.label(), "Network orchestrator not configured");
}

#[test]
fn a_model_is_selected_with_what_it_supports() {
    let facts = LanguageModelFacts {
        provider_id: "p".to_string(),
        id: "m".to_string(),
        supports_thinking: false,
        supports_fast_mode: false,
        supported_effort_levels: Vec::new(),
        default_effort_level: None,
    };
    let selected = language_model_to_selection(&facts, None);
    assert_eq!(selected.provider.0, "p");
    assert_eq!(selected.model, "m");
    assert!(!selected.enable_thinking);
}

#[test]
fn removal_is_judged_path_by_path() {
    assert_eq!(
        expand_rm_to_single_path_commands("rm -rf /tmp/a /"),
        vec!["rm -rf /tmp/a".to_string(), "rm -rf /".to_string()]
    );
    assert_eq!(
        check_hardcoded_security_rules("terminal", "terminal", "rm -rf /tmp/a /", None),
        Some(HARDCODED_SECURITY_DENIAL_MESSAGE.to_string())
    );
    assert_eq!(check_hardcoded_security_rules("terminal", "terminal", "ls", None), None);
    assert_eq!(check_hardcoded_security_rules("fetch", "terminal", "rm -rf /", None), None);
}

#[test]
fn panels_can_be_docked_below() {
    let mut content = SettingsContent::default();
    content.git_panel = Some(PanelContent { dock: Some(DockPosition::Bottom) });
    assert_eq!(PanelLayout::read_from(&content).git_panel_dock, Some(DockPosition::Bottom));
    assert!(!PanelLayout::read_from(&content).is_editor_layout());
    assert!(PanelLayout::editor().is_editor_layout());
}

#[test]
fn the_last_parameters_that_fit_a_model_count() {
    let parameters = |provider: Option<&str>, model: Option<&str>, bits: u32| {
        LanguageModelParameters {
            provider: provider.map(|name| LanguageModelProviderSetting(name.to_string())),
            model: model.map(|name| name.to_string()),
            temperature: Some(SingleBits(bits)),
        }
    };
    let mut s = settings();
    s.model_parameters = vec![
        parameters(None, None, 1),
        parameters(Some("p"), None, 2),
        parameters(Some("p"), Some("m"), 3),
        parameters(Some("q"), Some("m"), 4),
    ];
    assert_eq!(s.temperature_for_model("p", "m"), Some(SingleBits(3)));
    assert_eq!(s.temperature_for_model("p", "other"), Some(SingleBits(2)));
    assert_eq!(s.temperature_for_model("r", "m"), Some(SingleBits(1)));
    s.model_parameters = vec![parameters(Some("q"), None, 4)];
    assert_eq!(s.temperature_for_model("p", "m"), None);
}

#[test]
fn settings_tell_what_they_hold() {
    let mut s = settings();
    s.message_editor_min_lines = 4;
    assert_eq!(s.set_message_editor_max_lines(), 8);
    s.favorite_models = vec![selection("a", "x"), selection("b", "y"), selection("a", "x")];
    assert_eq!(s.favorite_model_ids(), vec!["a/x".to_string(), "b/y".to_string()]);
    assert!(!s.full_access_enabled());
    s.full_access.enabled = true;
    assert!(s.full_access_enabled());
    assert_eq!(s.hybrid_worker_model_label().as_deref(), Some("lmstudio/local-model"));
    s.network_agent = NetworkAgentSettings {
        enabled: true,
        model: Some("net".to_string()),
        delegation_mode: NetworkAgentDelegationMode::Manual,
        workers: NetworkAgentWorkers::default(),
    };
    assert_eq!(s.network_agent_delegation_mode(), NetworkAgentDelegationMode::Manual);
    assert_eq!(s.hybrid_worker_model_label().as_deref(), Some("lmstudio/local-model"));
    s.network_agent.workers.endpoints = vec![NetworkAgentWorkerEndpoint {
        id: "w".to_string(),
        provider: LanguageModelProviderSetting("remote".to_string()),
        model: "m".to_string(),
        max_concurrent: 1,
        enabled: true,
    }];
    assert_eq!(
        s.hybrid_worker_model_label().as_deref(),
        Some("lmstudio/local-model, remote/m")
    );
    s.network_agent.workers.max_workers = 0;
    assert_eq!(s.hybrid_worker_model_label(), None);
}
