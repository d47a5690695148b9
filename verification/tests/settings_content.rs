use unleashed_agent::request::Speed;
use unleashed_agent::settings_content::{
    AgentSettingsContent, DockPosition, LanguageModelProviderSetting, LanguageModelSelection,
    PlaySoundWhenAgentDone, SidebarDockPosition, ToolPermissionMode,
};

fn selection(provider: &str, model: &str) -> LanguageModelSelection {
    LanguageModelSelection {
        provider: LanguageModelProviderSetting(provider.to_string()),
        model: model.to_string(),
        enable_thinking: false,
        effort: None,
        speed: None,
    }
}

#[test]
fn test_set_tool_default_permission_creates_structure() {
    let mut settings = AgentSettingsContent::default();
    assert!(settings.tool_permissions.is_none());

    settings.set_tool_default_permission("terminal", ToolPermissionMode::Allow);

    let tool_permissions = settings.tool_permissions.as_ref().unwrap();
    let terminal_rules = tool_permissions.tools.get("terminal").unwrap();
    assert_eq!(terminal_rules.default, Some(ToolPermissionMode::Allow));
}

#[test]
fn test_set_tool_default_permission_updates_existing() {
    let mut settings = AgentSettingsContent::default();

    settings.set_tool_default_permission("terminal", ToolPermissionMode::Confirm);
    settings.set_tool_default_permission("terminal", ToolPermissionMode::Allow);

    let tool_permissions = settings.tool_permissions.as_ref().unwrap();
    let terminal_rules = tool_permissions.tools.get("terminal").unwrap();
    assert_eq!(terminal_rules.default, Some(ToolPermissionMode::Allow));
}

#[test]
fn test_set_tool_default_permission_for_mcp_tool() {
    let mut settings = AgentSettingsContent::default();

    settings.set_tool_default_permission("mcp:github:create_issue", ToolPermissionMode::Allow);

    let tool_permissions = settings.tool_permissions.as_ref().unwrap();
    let mcp_rules = tool_permissions
        .tools
        .get("mcp:github:create_issue")
        .unwrap();
    assert_eq!(mcp_rules.default, Some(ToolPermissionMode::Allow));
}

#[test]
fn test_add_tool_allow_pattern_creates_structure() {
    let mut settings = AgentSettingsContent::default();
    assert!(settings.tool_permissions.is_none());

    settings.add_tool_allow_pattern("terminal", "^cargo\\s".to_string());

    let tool_permissions = settings.tool_permissions.as_ref().unwrap();
    let terminal_rules = tool_permissions.tools.get("terminal").unwrap();
    let always_allow = terminal_rules.always_allow.as_ref().unwrap();
    assert_eq!(always_allow.0.len(), 1);
    assert_eq!(always_allow.0[0].pattern, "^cargo\\s");
}

#[test]
fn test_add_tool_allow_pattern_appends_to_existing() {
    let mut settings = AgentSettingsContent::default();

    settings.add_tool_allow_pattern("terminal", "^cargo\\s".to_string());
    settings.add_tool_allow_pattern("terminal", "^npm\\s".to_string());

    let tool_permissions = settings.tool_permissions.as_ref().unwrap();
    let terminal_rules = tool_permissions.tools.get("terminal").unwrap();
    let always_allow = terminal_rules.always_allow.as_ref().unwrap();
    assert_eq!(always_allow.0.len(), 2);
    assert_eq!(always_allow.0[0].pattern, "^cargo\\s");
    assert_eq!(always_allow.0[1].pattern, "^npm\\s");
}

#[test]
fn test_add_tool_allow_pattern_does_not_duplicate() {
    let mut settings = AgentSettingsContent::default();

    settings.add_tool_allow_pattern("terminal", "^cargo\\s".to_string());
    settings.add_tool_allow_pattern("terminal", "^cargo\\s".to_string());
    settings.add_tool_allow_pattern("terminal", "^cargo\\s".to_string());

    let tool_permissions = settings.tool_permissions.as_ref().unwrap();
    let terminal_rules = tool_permissions.tools.get("terminal").unwrap();
    let always_allow = terminal_rules.always_allow.as_ref().unwrap();
    assert_eq!(
        always_allow.0.len(),
        1,
        "Duplicate patterns should not be added"
    );
}

#[test]
fn test_add_tool_allow_pattern_for_different_tools() {
    let mut settings = AgentSettingsContent::default();

    settings.add_tool_allow_pattern("terminal", "^cargo\\s".to_string());
    settings.add_tool_allow_pattern("fetch", "^https?://github\\.com".to_string());

    let tool_permissions = settings.tool_permissions.as_ref().unwrap();

    let terminal_rules = tool_permissions.tools.get("terminal").unwrap();
    assert_eq!(
        terminal_rules.always_allow.as_ref().unwrap().0[0].pattern,
        "^cargo\\s"
    );

    let fetch_rules = tool_permissions.tools.get("fetch").unwrap();
    assert_eq!(
        fetch_rules.always_allow.as_ref().unwrap().0[0].pattern,
        "^https?://github\\.com"
    );
}

#[test]
fn test_add_tool_deny_pattern_creates_structure() {
    let mut settings = AgentSettingsContent::default();
    assert!(settings.tool_permissions.is_none());

    settings.add_tool_deny_pattern("terminal", "^rm\\s".to_string());

    let tool_permissions = settings.tool_permissions.as_ref().unwrap();
    let terminal_rules = tool_permissions.tools.get("terminal").unwrap();
    let always_deny = terminal_rules.always_deny.as_ref().unwrap();
    assert_eq!(always_deny.0.len(), 1);
    assert_eq!(always_deny.0[0].pattern, "^rm\\s");
}

#[test]
fn test_add_tool_deny_pattern_appends_to_existing() {
    let mut settings = AgentSettingsContent::default();

    settings.add_tool_deny_pattern("terminal", "^rm\\s".to_string());
    settings.add_tool_deny_pattern("terminal", "^sudo\\s".to_string());

    let tool_permissions = settings.tool_permissions.as_ref().unwrap();
    let terminal_rules = tool_permissions.tools.get("terminal").unwrap();
    let always_deny = terminal_rules.always_deny.as_ref().unwrap();
    assert_eq!(always_deny.0.len(), 2);
    assert_eq!(always_deny.0[0].pattern, "^rm\\s");
    assert_eq!(always_deny.0[1].pattern, "^sudo\\s");
}

#[test]
fn test_add_tool_deny_pattern_does_not_duplicate() {
    let mut settings = AgentSettingsContent::default();

    settings.add_tool_deny_pattern("terminal", "^rm\\s".to_string());
    settings.add_tool_deny_pattern("terminal", "^rm\\s".to_string());
    settings.add_tool_deny_pattern("terminal", "^rm\\s".to_string());

    let tool_permissions = settings.tool_permissions.as_ref().unwrap();
    let terminal_rules = tool_permissions.tools.get("terminal").unwrap();
    let always_deny = terminal_rules.always_deny.as_ref().unwrap();
    assert_eq!(
        always_deny.0.len(),
        1,
        "Duplicate patterns should not be added"
    );
}

#[test]
fn test_add_tool_deny_and_allow_patterns_separate() {
    let mut settings = AgentSettingsContent::default();

    settings.add_tool_allow_pattern("terminal", "^cargo\\s".to_string());
    settings.add_tool_deny_pattern("terminal", "^rm\\s".to_string());

    let tool_permissions = settings.tool_permissions.as_ref().unwrap();
    let terminal_rules = tool_permissions.tools.get("terminal").unwrap();

    let always_allow = terminal_rules.always_allow.as_ref().unwrap();
    assert_eq!(always_allow.0.len(), 1);
    assert_eq!(always_allow.0[0].pattern, "^cargo\\s");

    let always_deny = terminal_rules.always_deny.as_ref().unwrap();
    assert_eq!(always_deny.0.len(), 1);
    assert_eq!(always_deny.0[0].pattern, "^rm\\s");
}

#[test]
fn test_allow_sandbox_permissions_create_structure() {
    let mut settings = AgentSettingsContent::default();
    assert!(settings.sandbox_permissions.is_none());

    settings.allow_sandbox_network();
    settings.allow_sandbox_fs_write_all();
    settings.allow_sandbox_unsandboxed();
    settings.add_sandbox_write_path(String::from("/tmp/build"));

    let sandbox_permissions = settings.sandbox_permissions.as_ref().unwrap();
    assert_eq!(sandbox_permissions.allow_network, Some(true));
    assert_eq!(sandbox_permissions.allow_fs_write_all, Some(true));
    assert_eq!(sandbox_permissions.allow_unsandboxed, Some(true));
    assert_eq!(
        sandbox_permissions
            .write_paths
            .as_ref()
            .unwrap()
            .0
            .as_slice(),
        &[String::from("/tmp/build")]
    );
}

#[test]
fn test_add_sandbox_write_path_prunes_redundant_paths() {
    let mut settings = AgentSettingsContent::default();

    settings.add_sandbox_write_path(String::from("/tmp/build/cache"));
    settings.add_sandbox_write_path(String::from("/tmp/build"));
    settings.add_sandbox_write_path(String::from("/tmp/build/output"));

    let write_paths = settings
        .sandbox_permissions
        .as_ref()
        .unwrap()
        .write_paths
        .as_ref()
        .unwrap()
        .0
        .as_slice();
    assert_eq!(write_paths, &[String::from("/tmp/build")]);
}

#[test]
fn favorites_are_kept_once() {
    let mut settings = AgentSettingsContent::default();
    settings.add_favorite_model(selection("a", "x"));
    settings.add_favorite_model(selection("a", "x"));
    settings.add_favorite_model(selection("b", "y"));
    assert_eq!(settings.favorite_models.len(), 2);
    settings.update_favorite_model("b", "y", |mut m| {
        m.speed = Some(Speed::Fast);
        m
    });
    assert_eq!(settings.favorite_models[1].speed, Some(Speed::Fast));
    settings.remove_favorite_model(&selection("a", "x"));
    assert_eq!(settings.favorite_models.len(), 1);
    assert_eq!(settings.favorite_models[0].model, "y");
}

#[test]
fn setters_set_one_field() {
    let mut settings = AgentSettingsContent::default();
    settings.set_dock(DockPosition::Bottom);
    settings.set_sidebar_side(SidebarDockPosition::Right);
    settings.set_flexible_size(true);
    settings.set_model(selection("a", "x"));
    settings.set_inline_assistant_model("b".to_string(), "y".to_string());
    settings.set_profile("write".to_string());
    assert_eq!(settings.dock, Some(DockPosition::Bottom));
    assert_eq!(settings.sidebar_side, Some(SidebarDockPosition::Right));
    assert_eq!(settings.flexible, Some(true));
    assert_eq!(settings.default_model, Some(selection("a", "x")));
    assert_eq!(settings.inline_assistant_model, Some(selection("b", "y")));
    assert_eq!(settings.default_profile.as_deref(), Some("write"));
    assert!(settings.button.is_none());
}

#[test]
fn a_sound_is_played_when_asked_for() {
    assert!(!PlaySoundWhenAgentDone::Never.should_play(false));
    assert!(PlaySoundWhenAgentDone::WhenHidden.should_play(false));
    assert!(!PlaySoundWhenAgentDone::WhenHidden.should_play(true));
    assert!(PlaySoundWhenAgentDone::Always.should_play(true));
}

#[test]
fn a_favorite_that_was_added_can_be_removed() {
    let mut settings = AgentSettingsContent::default();
    settings.add_favorite_model(selection("p", "m"));
    let before = settings.favorite_models.clone();
    settings.add_favorite_model(selection("p", "n"));
    let mut thinking = selection("p", "n");
    thinking.enable_thinking = true;
    settings.add_favorite_model(thinking.clone());
    assert_eq!(settings.favorite_models.len(), 2);
    settings.remove_favorite_model(&thinking);
    assert_eq!(settings.favorite_models, before);
}
