//! The settings of the agent as a user writes them, where each may be missing.
use crate::assoc::Assoc;
use crate::paths::{insert_subtree, with_subtree};
use crate::request::Speed;
use crate::text::{str_eq, views};
use vstd::prelude::*;

verus! {

/// A single-precision number, kept as its bits.
#[derive(Clone, Copy, Debug, PartialEq, Eq, Structural)]
pub struct SingleBits(pub u32);

#[derive(Clone, Copy, Debug, PartialEq, Eq, Structural)]
pub enum DockPosition {
    Left,
    Bottom,
    Right,
}

#[derive(Clone, Copy, Debug, PartialEq, Eq, Structural)]
pub enum DockSide {
    Left,
    Right,
}

#[derive(Clone, Copy, Debug, PartialEq, Eq, Structural)]
pub enum SidebarDockPosition {
    Left,
    Right,
}

impl Default for SidebarDockPosition {
    fn default() -> (r: Self)
        ensures
            r == SidebarDockPosition::Left,
    {
        SidebarDockPosition::Left
    }
}

#[derive(Clone, Copy, Debug, PartialEq, Eq, Structural)]
pub enum SidebarSide {
    Left,
    Right,
}

impl Default for SidebarSide {
    fn default() -> (r: Self)
        ensures
            r == SidebarSide::Left,
    {
        SidebarSide::Left
    }
}

#[derive(Clone, Copy, Debug, PartialEq, Eq, Structural)]
pub enum ThinkingBlockDisplay {
    Auto,
    Preview,
    AlwaysExpanded,
    AlwaysCollapsed,
}

impl Default for ThinkingBlockDisplay {
    fn default() -> (r: Self)
        ensures
            r == ThinkingBlockDisplay::Auto,
    {
        ThinkingBlockDisplay::Auto
    }
}

#[derive(Clone, Copy, Debug, PartialEq, Eq, Structural)]
pub enum AgentPromptStyle {
    Auto,
    Compact,
    Full,
}

impl Default for AgentPromptStyle {
    fn default() -> (r: Self)
        ensures
            r == AgentPromptStyle::Auto,
    {
        AgentPromptStyle::Auto
    }
}

#[derive(Clone, Copy, Debug, PartialEq, Eq, Structural)]
pub enum NotifyWhenAgentWaiting {
    PrimaryScreen,
    AllScreens,
    Never,
}

impl Default for NotifyWhenAgentWaiting {
    fn default() -> (r: Self)
        ensures
            r == NotifyWhenAgentWaiting::PrimaryScreen,
    {
        NotifyWhenAgentWaiting::PrimaryScreen
    }
}

#[derive(Clone, Copy, Debug, PartialEq, Eq, Structural)]
pub enum PlaySoundWhenAgentDone {
    Never,
    WhenHidden,
    Always,
}

impl Default for PlaySoundWhenAgentDone {
    fn default() -> (r: Self)
        ensures
            r == PlaySoundWhenAgentDone::Never,
    {
        PlaySoundWhenAgentDone::Never
    }
}

impl PlaySoundWhenAgentDone {
    pub fn should_play(&self, visible: bool) -> (r: bool)
        ensures
            r == match *self {
                PlaySoundWhenAgentDone::Never => false,
                PlaySoundWhenAgentDone::WhenHidden => !visible,
                PlaySoundWhenAgentDone::Always => true,
            },
    {
        match self {
            PlaySoundWhenAgentDone::Never => false,
            PlaySoundWhenAgentDone::WhenHidden => !visible,
            PlaySoundWhenAgentDone::Always => true,
        }
    }
}

#[derive(Clone, Copy, Debug, PartialEq, Eq, Structural)]
pub enum ToolPermissionMode {
    Allow,
    Deny,
    Confirm,
}

impl Default for ToolPermissionMode {
    fn default() -> (r: Self)
        ensures
            r == ToolPermissionMode::Confirm,
    {
        ToolPermissionMode::Confirm
    }
}

impl ToolPermissionMode {
    /// The mode as a user reads it.
    pub fn label(self) -> (r: &'static str)
        ensures
            r@ == match self {
                ToolPermissionMode::Allow => "Allow"@,
                ToolPermissionMode::Deny => "Deny"@,
                ToolPermissionMode::Confirm => "Confirm"@,
            },
    {
        match self {
            ToolPermissionMode::Allow => "Allow",
            ToolPermissionMode::Deny => "Deny",
            ToolPermissionMode::Confirm => "Confirm",
        }
    }
}

#[derive(Debug, PartialEq)]
pub struct LanguageModelProviderSetting(pub String);

impl Clone for LanguageModelProviderSetting {
    fn clone(&self) -> (r: Self)
        ensures
            r == *self,
    {
        LanguageModelProviderSetting(self.0.clone())
    }
}

#[derive(Debug, PartialEq)]
pub struct LanguageModelSelection {
    pub provider: LanguageModelProviderSetting,
    pub model: String,
    pub enable_thinking: bool,
    pub effort: Option<String>,
    pub speed: Option<Speed>,
}

impl Clone for LanguageModelSelection {
    fn clone(&self) -> (r: Self)
        ensures
            r == *self,
    {
        LanguageModelSelection {
            provider: self.provider.clone(),
            model: self.model.clone(),
            enable_thinking: self.enable_thinking,
            effort: match &self.effort {
                Some(effort) => Some(effort.clone()),
                None => None,
            },
            speed: self.speed,
        }
    }
}

#[derive(Clone, Debug, PartialEq)]
pub struct LanguageModelParameters {
    pub provider: Option<LanguageModelProviderSetting>,
    pub model: Option<String>,
    pub temperature: Option<SingleBits>,
}

#[derive(Clone, Debug, PartialEq)]
pub struct ContextServerPresetContent {
    pub tools: Assoc<bool>,
}

#[derive(Clone, Debug, PartialEq)]
pub struct AgentProfileContent {
    pub name: String,
    pub tools: Assoc<bool>,
    pub enable_all_context_servers: Option<bool>,
    pub context_servers: Assoc<ContextServerPresetContent>,
    pub default_model: Option<LanguageModelSelection>,
}

#[derive(Clone, Debug, PartialEq)]
pub struct AntiLoopSettingsContent {
    pub enabled: Option<bool>,
    pub max_recoveries_per_turn: Option<usize>,
    pub min_block_chars: Option<usize>,
    pub max_block_chars: Option<usize>,
    pub min_repeats: Option<usize>,
    pub min_text_chars_before_trip: Option<usize>,
    pub watch_thinking: Option<bool>,
    pub thinking_min_block_chars: Option<usize>,
    pub thinking_max_block_chars: Option<usize>,
    pub thinking_min_repeats: Option<usize>,
    pub thinking_min_text_chars_before_trip: Option<usize>,
}

impl Default for AntiLoopSettingsContent {
    fn default() -> (r: Self)
        ensures
            r == (AntiLoopSettingsContent {
                enabled: None,
                max_recoveries_per_turn: None,
                min_block_chars: None,
                max_block_chars: None,
                min_repeats: None,
                min_text_chars_before_trip: None,
                watch_thinking: None,
                thinking_min_block_chars: None,
                thinking_max_block_chars: None,
                thinking_min_repeats: None,
                thinking_min_text_chars_before_trip: None,
            }),
    {
        AntiLoopSettingsContent {
            enabled: None,
            max_recoveries_per_turn: None,
            min_block_chars: None,
            max_block_chars: None,
            min_repeats: None,
            min_text_chars_before_trip: None,
            watch_thinking: None,
            thinking_min_block_chars: None,
            thinking_max_block_chars: None,
            thinking_min_repeats: None,
            thinking_min_text_chars_before_trip: None,
        }
    }
}

#[derive(Clone, Debug, PartialEq)]
pub struct WebResearchSettingsContent {
    pub enabled: Option<bool>,
    pub preferred_provider: Option<String>,
    pub max_search_results: Option<usize>,
    pub max_snippet_chars: Option<usize>,
    pub max_fetch_chars: Option<usize>,
    pub max_response_bytes: Option<u64>,
    pub max_redirects: Option<u32>,
    pub request_timeout_ms: Option<u64>,
    pub max_concurrency: Option<usize>,
    pub per_host_delay_ms: Option<u64>,
    pub browser_fallback_enabled: Option<bool>,
    pub browser_timeout_secs: Option<u64>,
    pub max_pages: Option<usize>,
    pub max_depth: Option<usize>,
    pub research_wall_clock_secs: Option<u64>,
    pub cache_ttl_serp_secs: Option<u64>,
    pub cache_ttl_page_secs: Option<u64>,
}

impl Default for WebResearchSettingsContent {
    fn default() -> (r: Self)
        ensures
            r == (WebResearchSettingsContent {
                enabled: None,
                preferred_provider: None,
                max_search_results: None,
                max_snippet_chars: None,
                max_fetch_chars: None,
                max_response_bytes: None,
                max_redirects: None,
                request_timeout_ms: None,
                max_concurrency: None,
                per_host_delay_ms: None,
                browser_fallback_enabled: None,
                browser_timeout_secs: None,
                max_pages: None,
                max_depth: None,
                research_wall_clock_secs: None,
                cache_ttl_serp_secs: None,
                cache_ttl_page_secs: None,
            }),
    {
        WebResearchSettingsContent {
            enabled: None,
            preferred_provider: None,
            max_search_results: None,
            max_snippet_chars: None,
            max_fetch_chars: None,
            max_response_bytes: None,
            max_redirects: None,
            request_timeout_ms: None,
            max_concurrency: None,
            per_host_delay_ms: None,
            browser_fallback_enabled: None,
            browser_timeout_secs: None,
            max_pages: None,
            max_depth: None,
            research_wall_clock_secs: None,
            cache_ttl_serp_secs: None,
            cache_ttl_page_secs: None,
        }
    }
}

#[derive(Clone, Debug, PartialEq)]
pub struct AutoThreadRolloverContent {
    pub enabled: Option<bool>,
    pub context_fraction: Option<SingleBits>,
}

#[derive(Clone, Debug, PartialEq)]
pub struct NetworkAgentWorkerEndpointContent {
    pub id: Option<String>,
    pub provider: Option<String>,
    pub model: Option<String>,
    pub max_concurrent: Option<u32>,
    pub enabled: Option<bool>,
}

#[derive(Clone, Debug, PartialEq)]
pub struct NetworkAgentWorkersContent {
    pub scheduling: Option<String>,
    pub max_workers: Option<u32>,
    pub include_default_model: Option<bool>,
    pub endpoints: Option<Vec<NetworkAgentWorkerEndpointContent>>,
}

#[derive(Clone, Debug, PartialEq)]
pub struct NetworkAgentSettingsContent {
    pub enabled: Option<bool>,
    pub model: Option<String>,
    pub delegation_mode: Option<String>,
    pub workers: Option<NetworkAgentWorkersContent>,
}

/// A list that a later settings file extends.
#[derive(Clone, Debug, PartialEq)]
pub struct ExtendingVec<T>(pub Vec<T>);

#[derive(Clone, Debug, PartialEq)]
pub struct SandboxPermissionsContent {
    pub allow_network: Option<bool>,
    pub allow_fs_write_all: Option<bool>,
    pub allow_unsandboxed: Option<bool>,
    pub write_paths: Option<ExtendingVec<String>>,
}

impl Default for SandboxPermissionsContent {
    fn default() -> (r: Self)
        ensures
            r == no_sandbox_permissions(),
    {
        SandboxPermissionsContent {
            allow_network: None,
            allow_fs_write_all: None,
            allow_unsandboxed: None,
            write_paths: None,
        }
    }
}

/// An agent that runs as a program of its own.
#[derive(Clone, Debug, PartialEq)]
pub enum CustomAgentServerSettings {
    /// A program, started with these arguments.
    Custom {
        path: String,
        args: Vec<String>,
        env: Assoc<String>,
        default_mode: Option<String>,
        default_config_options: Assoc<String>,
        favorite_config_option_values: Assoc<Vec<String>>,
    },
    /// A program that is known by its name.
    Registry {
        env: Assoc<String>,
        default_mode: Option<String>,
        default_config_options: Assoc<String>,
        favorite_config_option_values: Assoc<Vec<String>>,
    },
}

/// The agents that run as programs of their own, by their names.
#[derive(Clone, Debug, PartialEq)]
pub struct AllAgentServersSettings(pub Assoc<CustomAgentServerSettings>);

#[derive(Clone, Debug, PartialEq)]
pub struct FullAccessSettingsContent {
    pub enabled: Option<bool>,
    pub allowed_roots: Option<ExtendingVec<String>>,
    pub denied_roots: Option<ExtendingVec<String>>,
}

#[derive(Debug, PartialEq)]
pub struct ToolRegexRule {
    pub pattern: String,
    pub case_sensitive: Option<bool>,
}

impl Clone for ToolRegexRule {
    fn clone(&self) -> (r: Self)
        ensures
            r == *self,
    {
        ToolRegexRule { pattern: self.pattern.clone(), case_sensitive: self.case_sensitive }
    }
}

#[derive(Clone, Debug, PartialEq)]
pub struct ToolRulesContent {
    pub default: Option<ToolPermissionMode>,
    pub always_allow: Option<ExtendingVec<ToolRegexRule>>,
    pub always_deny: Option<ExtendingVec<ToolRegexRule>>,
    pub always_confirm: Option<ExtendingVec<ToolRegexRule>>,
}

impl Default for ToolRulesContent {
    fn default() -> (r: Self)
        ensures
            r == no_tool_rules(),
    {
        ToolRulesContent {
            default: None,
            always_allow: None,
            always_deny: None,
            always_confirm: None,
        }
    }
}

#[derive(Clone, Debug, PartialEq)]
pub struct ToolPermissionsContent {
    pub default: Option<ToolPermissionMode>,
    pub tools: Assoc<ToolRulesContent>,
}

impl Default for ToolPermissionsContent {
    fn default() -> (r: Self)
        ensures
            r.default is None,
            r.tools.entries@.len() == 0,
    {
        ToolPermissionsContent { default: None, tools: Assoc::new() }
    }
}

pub open spec fn no_sandbox_permissions() -> SandboxPermissionsContent {
    SandboxPermissionsContent {
        allow_network: None,
        allow_fs_write_all: None,
        allow_unsandboxed: None,
        write_paths: None,
    }
}

pub open spec fn no_tool_rules() -> ToolRulesContent {
    ToolRulesContent { default: None, always_allow: None, always_deny: None, always_confirm: None }
}

/// The rules of a list that may be missing.
pub open spec fn rule_list(rules: Option<ExtendingVec<ToolRegexRule>>) -> Seq<ToolRegexRule> {
    match rules {
        Some(v) => v.0@,
        None => Seq::empty(),
    }
}

/// Whether a rule with that pattern is in the list.
pub open spec fn has_pattern(rules: Seq<ToolRegexRule>, pattern: Seq<char>) -> bool {
    exists|i: int| 0 <= i < rules.len() && (#[trigger] rules[i]).pattern@ == pattern
}

/// The rules with one more pattern, unless it is there already.
pub open spec fn with_pattern(rules: Seq<ToolRegexRule>, pattern: String) -> Seq<ToolRegexRule> {
    if has_pattern(rules, pattern@) {
        rules
    } else {
        rules.push(ToolRegexRule { pattern, case_sensitive: None })
    }
}

fn add_pattern(rules: Option<ExtendingVec<ToolRegexRule>>, pattern: String) -> (r: ExtendingVec<
    ToolRegexRule,
>)
    ensures
        r.0@ == with_pattern(rule_list(rules), pattern),
{
    let mut list = match rules {
        Some(v) => v.0,
        None => Vec::new(),
    };
    assert(list@ =~= rule_list(rules));
    let ghost all = list@;
    let mut i: usize = 0;
    let n: usize = list.len();
    while i < n
        invariant
            n == list@.len(),
            i <= n,
            list@ == rule_list(rules),
            forall|j: int| 0 <= j < i ==> (#[trigger] list@[j]).pattern@ != pattern@,
        decreases n - i,
    {
        if str_eq(list[i].pattern.as_str(), pattern.as_str()) {
            return ExtendingVec(list);
        }
        i = i + 1;
    }
    list.push(ToolRegexRule { pattern, case_sensitive: None });
    ExtendingVec(list)
}

impl ToolPermissionsContent {
    /// The rules of a tool; none of them where the tool is not mentioned.
    pub open spec fn rules_of(content: Option<Self>, tool: Seq<char>) -> ToolRulesContent {
        match content {
            Some(c) => match c.tools.get_spec(tool) {
                Some(rules) => rules,
                None => no_tool_rules(),
            },
            None => no_tool_rules(),
        }
    }

    /// Whether `after` mentions no other tool in another way than `before`, and has the same
    /// default.
    pub open spec fn same_but_tool(before: Option<Self>, after: Self, tool: Seq<char>) -> bool {
        &&& after.default == match before {
            Some(c) => c.default,
            None => None,
        }
        &&& forall|k: Seq<char>|
            k != tool ==> #[trigger] after.tools.get_spec(k) == match before {
                Some(c) => c.tools.get_spec(k),
                None => None,
            }
    }
}

#[derive(Clone, Debug, PartialEq)]
pub struct AgentSettingsContent {
    pub enabled: Option<bool>,
    pub button: Option<bool>,
    pub dock: Option<DockPosition>,
    pub starts_open: Option<bool>,
    pub flexible: Option<bool>,
    pub sidebar_side: Option<SidebarDockPosition>,
    pub default_width: Option<SingleBits>,
    pub default_height: Option<SingleBits>,
    pub limit_content_width: Option<bool>,
    pub max_content_width: Option<SingleBits>,
    pub default_model: Option<LanguageModelSelection>,
    pub subagent_model: Option<LanguageModelSelection>,
    pub favorite_models: Vec<LanguageModelSelection>,
    pub inline_assistant_model: Option<LanguageModelSelection>,
    pub inline_assistant_use_streaming_tools: Option<bool>,
    pub commit_message_model: Option<LanguageModelSelection>,
    pub commit_message_instructions: Option<String>,
    pub thread_summary_model: Option<LanguageModelSelection>,
    pub inline_alternatives: Option<Vec<LanguageModelSelection>>,
    pub default_profile: Option<String>,
    pub prompt_style: Option<AgentPromptStyle>,
    pub profiles: Option<Assoc<AgentProfileContent>>,
    pub notify_when_agent_waiting: Option<NotifyWhenAgentWaiting>,
    pub play_sound_when_agent_done: Option<PlaySoundWhenAgentDone>,
    pub single_file_review: Option<bool>,
    pub model_parameters: Vec<LanguageModelParameters>,
    pub enable_feedback: Option<bool>,
    pub expand_edit_card: Option<bool>,
    pub expand_terminal_card: Option<bool>,
    pub thinking_display: Option<ThinkingBlockDisplay>,
    pub cancel_generation_on_terminal_stop: Option<bool>,
    pub use_modifier_to_send: Option<bool>,
    pub message_editor_min_lines: Option<usize>,
    pub show_turn_stats: Option<bool>,
    pub show_merge_conflict_indicator: Option<bool>,
    pub tool_permissions: Option<ToolPermissionsContent>,
    pub sandbox_permissions: Option<SandboxPermissionsContent>,
    pub full_access: Option<FullAccessSettingsContent>,
    pub network_agent: Option<NetworkAgentSettingsContent>,
    pub auto_thread_rollover: Option<AutoThreadRolloverContent>,
    pub anti_loop: Option<AntiLoopSettingsContent>,
    pub web_research: Option<WebResearchSettingsContent>,
}

impl Default for AgentSettingsContent {
    /// Nothing is set.
    fn default() -> (r: Self)
        ensures
            r.sets_only_dock(),
            r.dock is None,
    {
        AgentSettingsContent {
            enabled: None,
            button: None,
            dock: None,
            starts_open: None,
            flexible: None,
            sidebar_side: None,
            default_width: None,
            default_height: None,
            limit_content_width: None,
            max_content_width: None,
            default_model: None,
            subagent_model: None,
            favorite_models: Vec::new(),
            inline_assistant_model: None,
            inline_assistant_use_streaming_tools: None,
            commit_message_model: None,
            commit_message_instructions: None,
            thread_summary_model: None,
            inline_alternatives: None,
            default_profile: None,
            prompt_style: None,
            profiles: None,
            notify_when_agent_waiting: None,
            play_sound_when_agent_done: None,
            single_file_review: None,
            model_parameters: Vec::new(),
            enable_feedback: None,
            expand_edit_card: None,
            expand_terminal_card: None,
            thinking_display: None,
            cancel_generation_on_terminal_stop: None,
            use_modifier_to_send: None,
            message_editor_min_lines: None,
            show_turn_stats: None,
            show_merge_conflict_indicator: None,
            tool_permissions: None,
            sandbox_permissions: None,
            full_access: None,
            network_agent: None,
            auto_thread_rollover: None,
            anti_loop: None,
            web_research: None,
        }
    }
}

/// Whether two selections name the same model; how it is to be used does not matter.
pub open spec fn same_model(m: LanguageModelSelection, provider: Seq<char>, model: Seq<char>) -> bool {
    m.provider.0@ == provider && m.model@ == model
}

fn names_model(m: &LanguageModelSelection, provider: &str, model: &str) -> (r: bool)
    ensures
        r == same_model(*m, provider@, model@),
{
    str_eq(m.provider.0.as_str(), provider) && str_eq(m.model.as_str(), model)
}

/// Where the model stands in the list, at `i` or behind it.
pub open spec fn model_position(
    models: Seq<LanguageModelSelection>,
    provider: Seq<char>,
    model: Seq<char>,
    i: int,
) -> Option<int>
    decreases models.len() - i,
{
    if i < 0 || i >= models.len() {
        None
    } else if same_model(models[i], provider, model) {
        Some(i)
    } else {
        model_position(models, provider, model, i + 1)
    }
}

fn find_model(models: &Vec<LanguageModelSelection>, provider: &str, model: &str) -> (r: Option<
    usize,
>)
    ensures
        match r {
            Some(k) => k < models@.len() && model_position(models@, provider@, model@, 0) == Some(
                k as int,
            ),
            None => model_position(models@, provider@, model@, 0) is None,
        },
{
    let mut i: usize = 0;
    while i < models.len()
        invariant
            i <= models@.len(),
            model_position(models@, provider@, model@, i as int) == model_position(
                models@,
                provider@,
                model@,
                0,
            ),
        decreases models@.len() - i,
    {
        if names_model(&models[i], provider, model) {
            return Some(i);
        }
        i = i + 1;
    }
    None
}

/// The models without the one that is named.
pub open spec fn without_model(
    models: Seq<LanguageModelSelection>,
    provider: Seq<char>,
    model: Seq<char>,
) -> Seq<LanguageModelSelection>
    decreases models.len(),
{
    if models.len() == 0 {
        Seq::empty()
    } else {
        let before = without_model(models.drop_last(), provider, model);
        if same_model(models.last(), provider, model) {
            before
        } else {
            before.push(models.last())
        }
    }
}

/// The models with one more, unless a model of that name is among them.
pub open spec fn with_model(
    models: Seq<LanguageModelSelection>,
    m: LanguageModelSelection,
) -> Seq<LanguageModelSelection> {
    if model_position(models, m.provider.0@, m.model@, 0) is None {
        models.push(m)
    } else {
        models
    }
}

/// Whether no model is listed twice.
pub open spec fn are_distinct_models(models: Seq<LanguageModelSelection>) -> bool {
    forall|i: int, j: int|
        0 <= i < j < models.len() ==> !same_model(
            #[trigger] models[i],
            (#[trigger] models[j]).provider.0@,
            models[j].model@,
        )
}

proof fn lemma_model_position(
    models: Seq<LanguageModelSelection>,
    provider: Seq<char>,
    model: Seq<char>,
    i: int,
    k: int,
)
    requires
        0 <= i <= k < models.len(),
        same_model(models[k], provider, model),
    ensures
        model_position(models, provider, model, i) is Some,
    decreases k - i,
{
    if !same_model(models[i], provider, model) {
        lemma_model_position(models, provider, model, i + 1, k);
    }
}

/// However favorites are added, no model is listed twice, though two entries may ask for it in
/// different ways.
pub proof fn lemma_favorites_stay_distinct(
    models: Seq<LanguageModelSelection>,
    m: LanguageModelSelection,
)
    requires
        are_distinct_models(models),
    ensures
        are_distinct_models(with_model(models, m)),
{
    let after = with_model(models, m);
    assert forall|i: int, j: int| 0 <= i < j < after.len() implies !same_model(
        #[trigger] after[i],
        (#[trigger] after[j]).provider.0@,
        after[j].model@,
    ) by {
        if j < models.len() {
            assert(!same_model(models[i], models[j].provider.0@, models[j].model@));
        } else if same_model(models[i], m.provider.0@, m.model@) {
            lemma_model_position(models, m.provider.0@, m.model@, 0, i);
        }
    }
}

proof fn lemma_without_absent_model(
    models: Seq<LanguageModelSelection>,
    provider: Seq<char>,
    model: Seq<char>,
)
    requires
        forall|i: int| 0 <= i < models.len() ==> !same_model(#[trigger] models[i], provider, model),
    ensures
        without_model(models, provider, model) == models,
    decreases models.len(),
{
    if models.len() > 0 {
        let rest = models.drop_last();
        assert forall|i: int| 0 <= i < rest.len() implies !same_model(
            #[trigger] rest[i],
            provider,
            model,
        ) by {
            assert(!same_model(models[i], provider, model));
        }
        lemma_without_absent_model(rest, provider, model);
        assert(!same_model(models[models.len() - 1], provider, model));
        assert(rest.push(models.last()) =~= models);
    } else {
        assert(without_model(models, provider, model) =~= models);
    }
}

/// A favorite that was not there before is removed as it was added.
pub proof fn lemma_removing_favorite_undoes_adding(
    models: Seq<LanguageModelSelection>,
    m: LanguageModelSelection,
)
    requires
        model_position(models, m.provider.0@, m.model@, 0) is None,
    ensures
        without_model(with_model(models, m), m.provider.0@, m.model@) == models,
{
    let after = with_model(models, m);
    assert(after.drop_last() =~= models);
    assert forall|i: int| 0 <= i < models.len() implies !same_model(
        #[trigger] models[i],
        m.provider.0@,
        m.model@,
    ) by {
        if same_model(models[i], m.provider.0@, m.model@) {
            lemma_model_position(models, m.provider.0@, m.model@, 0, i);
        }
    }
    lemma_without_absent_model(models, m.provider.0@, m.model@);
}

/// A favorite that was removed is gone, and all others are left.
pub proof fn lemma_removed_favorites_are_gone(
    models: Seq<LanguageModelSelection>,
    provider: Seq<char>,
    model: Seq<char>,
)
    ensures
        forall|m: LanguageModelSelection| #[trigger]
            without_model(models, provider, model).contains(m) <==> models.contains(m)
                && !same_model(m, provider, model),
    decreases models.len(),
{
    if models.len() > 0 {
        let rest = models.drop_last();
        let before = without_model(rest, provider, model);
        let after = without_model(models, provider, model);
        let last = models.last();
        lemma_removed_favorites_are_gone(rest, provider, model);
        assert forall|m: LanguageModelSelection| #[trigger] after.contains(m) <==> models.contains(
            m,
        ) && !same_model(m, provider, model) by {
            assert(before.contains(m) <==> rest.contains(m) && !same_model(m, provider, model));
            if models.contains(m) {
                let i = choose|i: int| 0 <= i < models.len() && models[i] == m;
                if i < rest.len() {
                    assert(rest[i] == m);
                }
            }
            if rest.contains(m) {
                let i = choose|i: int| 0 <= i < rest.len() && rest[i] == m;
                assert(models[i] == m);
            }
            if before.contains(m) {
                let i = choose|i: int| 0 <= i < before.len() && before[i] == m;
                assert(after[i] == m);
            }
            if after.contains(m) {
                let i = choose|i: int| 0 <= i < after.len() && after[i] == m;
                if i < before.len() {
                    assert(before[i] == m);
                }
            }
            if m == last {
                assert(models[models.len() - 1] == m);
                if !same_model(last, provider, model) {
                    assert(after[after.len() - 1] == m);
                }
            }
        }
    }
}

/// A pattern that is added a second time changes nothing.
pub proof fn lemma_patterns_are_added_once(rules: Seq<ToolRegexRule>, pattern: String)
    ensures
        with_pattern(with_pattern(rules, pattern), pattern) == with_pattern(rules, pattern),
{
    if !has_pattern(rules, pattern@) {
        let after = with_pattern(rules, pattern);
        assert(after[after.len() - 1].pattern@ == pattern@);
    }
}

impl AgentSettingsContent {
    /// Nothing is set, but for where the agent is docked.
    pub open spec fn sets_only_dock(&self) -> bool {
        &&& self.favorite_models@.len() == 0
        &&& self.model_parameters@.len() == 0
        &&& *self == (AgentSettingsContent {
            enabled: None,
            button: None,
            dock: self.dock,
            starts_open: None,
            flexible: None,
            sidebar_side: None,
            default_width: None,
            default_height: None,
            limit_content_width: None,
            max_content_width: None,
            default_model: None,
            subagent_model: None,
            favorite_models: self.favorite_models,
            inline_assistant_model: None,
            inline_assistant_use_streaming_tools: None,
            commit_message_model: None,
            commit_message_instructions: None,
            thread_summary_model: None,
            inline_alternatives: None,
            default_profile: None,
            prompt_style: None,
            profiles: None,
            notify_when_agent_waiting: None,
            play_sound_when_agent_done: None,
            single_file_review: None,
            model_parameters: self.model_parameters,
            enable_feedback: None,
            expand_edit_card: None,
            expand_terminal_card: None,
            thinking_display: None,
            cancel_generation_on_terminal_stop: None,
            use_modifier_to_send: None,
            message_editor_min_lines: None,
            show_turn_stats: None,
            show_merge_conflict_indicator: None,
            tool_permissions: None,
            sandbox_permissions: None,
            full_access: None,
            network_agent: None,
            auto_thread_rollover: None,
            anti_loop: None,
            web_research: None,
        })
    }

    pub fn set_dock(&mut self, dock: DockPosition)
        ensures
            *final(self) == (AgentSettingsContent { dock: Some(dock), ..*old(self) }),
    {
        self.dock = Some(dock);
    }

    pub fn set_sidebar_side(&mut self, position: SidebarDockPosition)
        ensures
            *final(self) == (AgentSettingsContent { sidebar_side: Some(position), ..*old(self) }),
    {
        self.sidebar_side = Some(position);
    }

    pub fn set_flexible_size(&mut self, flexible: bool)
        ensures
            *final(self) == (AgentSettingsContent { flexible: Some(flexible), ..*old(self) }),
    {
        self.flexible = Some(flexible);
    }

    pub fn set_model(&mut self, language_model: LanguageModelSelection)
        ensures
            *final(self) == (AgentSettingsContent {
                default_model: Some(language_model),
                ..*old(self)
            }),
    {
        self.default_model = Some(language_model);
    }

    pub fn set_inline_assistant_model(&mut self, provider: String, model: String)
        ensures
            *final(self) == (AgentSettingsContent {
                inline_assistant_model: Some(
                    LanguageModelSelection {
                        provider: LanguageModelProviderSetting(provider),
                        model,
                        enable_thinking: false,
                        effort: None,
                        speed: None,
                    },
                ),
                ..*old(self)
            }),
    {
        self.inline_assistant_model = Some(
            LanguageModelSelection {
                provider: LanguageModelProviderSetting(provider),
                model,
                enable_thinking: false,
                effort: None,
                speed: None,
            },
        );
    }

    pub fn set_profile(&mut self, profile_id: String)
        ensures
            *final(self) == (AgentSettingsContent { default_profile: Some(profile_id), ..*old(self) }),
    {
        self.default_profile = Some(profile_id);
    }

    /// Adds a favorite, unless a favorite of that provider and name is there.
    pub fn add_favorite_model(&mut self, model: LanguageModelSelection)
        ensures
            *final(self) == (AgentSettingsContent {
                favorite_models: final(self).favorite_models,
                ..*old(self)
            }),
            final(self).favorite_models@ == with_model(old(self).favorite_models@, model),
    {
        if find_model(
            &self.favorite_models,
            model.provider.0.as_str(),
            model.model.as_str(),
        ).is_none() {
            self.favorite_models.push(model);
        }
    }

    /// Removes the favorites of that provider and name.
    pub fn remove_favorite_model(&mut self, model: &LanguageModelSelection)
        ensures
            *final(self) == (AgentSettingsContent {
                favorite_models: final(self).favorite_models,
                ..*old(self)
            }),
            final(self).favorite_models@ == without_model(
                old(self).favorite_models@,
                model.provider.0@,
                model.model@,
            ),
    {
        let mut kept: Vec<LanguageModelSelection> = Vec::new();
        let mut i: usize = 0;
        assert(self.favorite_models@.take(0) =~= Seq::<LanguageModelSelection>::empty());
        while i < self.favorite_models.len()
            invariant
                *self == *old(self),
                i <= self.favorite_models@.len(),
                kept@ == without_model(
                    self.favorite_models@.take(i as int),
                    model.provider.0@,
                    model.model@,
                ),
            decreases self.favorite_models@.len() - i,
        {
            assert(self.favorite_models@.take(i + 1).drop_last() =~= self.favorite_models@.take(
                i as int,
            ));
            assert(self.favorite_models@.take(i + 1).last() == self.favorite_models@[i as int]);
            if !names_model(
                &self.favorite_models[i],
                model.provider.0.as_str(),
                model.model.as_str(),
            ) {
                kept.push(self.favorite_models[i].clone());
            }
            i = i + 1;
        }
        assert(self.favorite_models@.take(self.favorite_models@.len() as int)
            =~= self.favorite_models@);
        self.favorite_models = kept;
    }

    /// Changes the first favorite of that provider and name.
    pub fn update_favorite_model<F>(&mut self, provider: &str, model: &str, f: F) where
        F: FnOnce(LanguageModelSelection) -> LanguageModelSelection,

        requires
            forall|m: LanguageModelSelection| call_requires(f, (m,)),
        ensures
            *final(self) == (AgentSettingsContent {
                favorite_models: final(self).favorite_models,
                ..*old(self)
            }),
            match model_position(old(self).favorite_models@, provider@, model@, 0) {
                Some(k) => {
                    let m = final(self).favorite_models@[k];
                    &&& call_ensures(f, (old(self).favorite_models@[k],), m)
                    &&& final(self).favorite_models@ == old(self).favorite_models@.update(k, m)
                },
                None => final(self).favorite_models == old(self).favorite_models,
            },
    {
        match find_model(&self.favorite_models, provider, model) {
            Some(k) => {
                let entry = self.favorite_models[k].clone();
                let updated = f(entry);
                self.favorite_models.set(k, updated);
            },
            None => {},
        }
    }

    /// Sets what is done with calls of a tool that no pattern settles.
    pub fn set_tool_default_permission(&mut self, tool_id: &str, mode: ToolPermissionMode)
        ensures
            *final(self) == (AgentSettingsContent {
                tool_permissions: final(self).tool_permissions,
                ..*old(self)
            }),
            final(self).tool_permissions matches Some(after)
                && ToolPermissionsContent::same_but_tool(
                old(self).tool_permissions,
                after,
                tool_id@,
            ),
            ToolPermissionsContent::rules_of(final(self).tool_permissions, tool_id@) == (
            ToolRulesContent {
                default: Some(mode),
                ..ToolPermissionsContent::rules_of(old(self).tool_permissions, tool_id@)
            }),
    {
        let (mut permissions, rules) = take_rules(self.tool_permissions.take(), tool_id);
        let mut rules = rules;
        rules.default = Some(mode);
        permissions.tools.insert(tool_id, rules);
        self.tool_permissions = Some(permissions);
    }

    /// Adds a pattern whose calls a tool may make without asking.
    pub fn add_tool_allow_pattern(&mut self, tool_name: &str, pattern: String)
        ensures
            *final(self) == (AgentSettingsContent {
                tool_permissions: final(self).tool_permissions,
                ..*old(self)
            }),
            final(self).tool_permissions matches Some(after)
                && ToolPermissionsContent::same_but_tool(
                old(self).tool_permissions,
                after,
                tool_name@,
            ),
            ({
                let before = ToolPermissionsContent::rules_of(
                    old(self).tool_permissions,
                    tool_name@,
                );
                let after = ToolPermissionsContent::rules_of(
                    final(self).tool_permissions,
                    tool_name@,
                );
                &&& after == (ToolRulesContent { always_allow: after.always_allow, ..before })
                &&& after.always_allow is Some
                &&& rule_list(after.always_allow) == with_pattern(
                    rule_list(before.always_allow),
                    pattern,
                )
            }),
    {
        let (mut permissions, rules) = take_rules(self.tool_permissions.take(), tool_name);
        let mut rules = rules;
        let list = add_pattern(rules.always_allow.take(), pattern);
        rules.always_allow = Some(list);
        permissions.tools.insert(tool_name, rules);
        self.tool_permissions = Some(permissions);
    }

    /// Adds a pattern whose calls a tool may never make.
    pub fn add_tool_deny_pattern(&mut self, tool_name: &str, pattern: String)
        ensures
            *final(self) == (AgentSettingsContent {
                tool_permissions: final(self).tool_permissions,
                ..*old(self)
            }),
            final(self).tool_permissions matches Some(after)
                && ToolPermissionsContent::same_but_tool(
                old(self).tool_permissions,
                after,
                tool_name@,
            ),
            ({
                let before = ToolPermissionsContent::rules_of(
                    old(self).tool_permissions,
                    tool_name@,
                );
                let after = ToolPermissionsContent::rules_of(
                    final(self).tool_permissions,
                    tool_name@,
                );
                &&& after == (ToolRulesContent { always_deny: after.always_deny, ..before })
                &&& after.always_deny is Some
                &&& rule_list(after.always_deny) == with_pattern(
                    rule_list(before.always_deny),
                    pattern,
                )
            }),
    {
        let (mut permissions, rules) = take_rules(self.tool_permissions.take(), tool_name);
        let mut rules = rules;
        let list = add_pattern(rules.always_deny.take(), pattern);
        rules.always_deny = Some(list);
        permissions.tools.insert(tool_name, rules);
        self.tool_permissions = Some(permissions);
    }

    /// The sandbox grants, or none of them.
    pub open spec fn sandbox(&self) -> SandboxPermissionsContent {
        match self.sandbox_permissions {
            Some(s) => s,
            None => no_sandbox_permissions(),
        }
    }

    fn take_sandbox(&mut self) -> (r: SandboxPermissionsContent)
        ensures
            r == old(self).sandbox(),
            *final(self) == (AgentSettingsContent { sandbox_permissions: None, ..*old(self) }),
    {
        match self.sandbox_permissions.take() {
            Some(s) => s,
            None => SandboxPermissionsContent::default(),
        }
    }

    pub fn allow_sandbox_network(&mut self)
        ensures
            *final(self) == (AgentSettingsContent {
                sandbox_permissions: Some(
                    SandboxPermissionsContent { allow_network: Some(true), ..old(self).sandbox() },
                ),
                ..*old(self)
            }),
    {
        let mut sandbox = self.take_sandbox();
        sandbox.allow_network = Some(true);
        self.sandbox_permissions = Some(sandbox);
    }

    pub fn allow_sandbox_fs_write_all(&mut self)
        ensures
            *final(self) == (AgentSettingsContent {
                sandbox_permissions: Some(
                    SandboxPermissionsContent {
                        allow_fs_write_all: Some(true),
                        ..old(self).sandbox()
                    },
                ),
                ..*old(self)
            }),
    {
        let mut sandbox = self.take_sandbox();
        sandbox.allow_fs_write_all = Some(true);
        self.sandbox_permissions = Some(sandbox);
    }

    pub fn allow_sandbox_unsandboxed(&mut self)
        ensures
            *final(self) == (AgentSettingsContent {
                sandbox_permissions: Some(
                    SandboxPermissionsContent {
                        allow_unsandboxed: Some(true),
                        ..old(self).sandbox()
                    },
                ),
                ..*old(self)
            }),
    {
        let mut sandbox = self.take_sandbox();
        sandbox.allow_unsandboxed = Some(true);
        self.sandbox_permissions = Some(sandbox);
    }

    /// Grants writing below a path; what the grants cover already is not listed twice.
    pub fn add_sandbox_write_path(&mut self, path: String)
        ensures
            ({
                let before = old(self).sandbox();
                &&& final(self).sandbox_permissions is Some
                &&& *final(self) == (AgentSettingsContent {
                    sandbox_permissions: Some(
                        SandboxPermissionsContent {
                            write_paths: final(self).sandbox().write_paths,
                            ..before
                        },
                    ),
                    ..*old(self)
                })
                &&& final(self).sandbox().write_paths is Some
                &&& path_list(final(self).sandbox().write_paths) == with_subtree(
                    path_list(before.write_paths),
                    path@,
                )
            }),
    {
        let mut sandbox = self.take_sandbox();
        let mut paths = match sandbox.write_paths.take() {
            Some(v) => v.0,
            None => Vec::new(),
        };
        assert(views(paths@) =~= path_list(old(self).sandbox().write_paths));
        insert_subtree(&mut paths, path);
        sandbox.write_paths = Some(ExtendingVec(paths));
        self.sandbox_permissions = Some(sandbox);
    }
}

/// The paths of a list that may be missing.
pub open spec fn path_list(paths: Option<ExtendingVec<String>>) -> Seq<Seq<char>> {
    match paths {
        Some(v) => views(v.0@),
        None => Seq::empty(),
    }
}

fn take_rules(content: Option<ToolPermissionsContent>, tool: &str) -> (r: (
    ToolPermissionsContent,
    ToolRulesContent,
))
    ensures
        r.1 == ToolPermissionsContent::rules_of(content, tool@),
        ToolPermissionsContent::same_but_tool(content, r.0, tool@),
{
    match content {
        Some(c) => {
            let mut c = c;
            match c.tools.position(tool) {
                Some(i) => {
                    let ghost before = c.tools.entries@;
                    proof {
                        crate::assoc::lemma_position(before, tool@, 0);
                    }
                    let (_key, rules) = c.tools.entries.remove(i);
                    proof {
                        let after = c.tools.entries@;
                        assert forall|k: Seq<char>| k != tool@ implies
                            #[trigger] crate::assoc::lookup(after, k) == crate::assoc::lookup(
                            before,
                            k,
                        ) by {
                            crate::assoc::lemma_position(before, k, 0);
                            match crate::assoc::position_from(before, k, 0) {
                                Some(j) => {
                                    let m = if j < i {
                                        j
                                    } else {
                                        j - 1
                                    };
                                    assert forall|x: int| 0 <= x < m implies (
                                    #[trigger] after[x]).0@ != k by {
                                        if x < i {
                                            assert(after[x] == before[x]);
                                        } else {
                                            assert(after[x] == before[x + 1]);
                                        }
                                    }
                                    crate::assoc::lemma_position_is(after, k, m);
                                },
                                None => {
                                    crate::assoc::lemma_position(after, k, 0);
                                    let p = crate::assoc::position_from(after, k, 0);
                                    if p is Some {
                                        let x = p->0;
                                        if x < i {
                                            assert(after[x] == before[x]);
                                        } else {
                                            assert(after[x] == before[x + 1]);
                                        }
                                    }
                                },
                            }
                        }
                    }
                    (c, rules)
                },
                None => (c, ToolRulesContent::default()),
            }
        },
        None => {
            let c = ToolPermissionsContent::default();
            assert forall|k: Seq<char>| #[trigger] c.tools.get_spec(k) is None by {
                crate::assoc::lemma_position(c.tools.entries@, k, 0);
            }
            (c, ToolRulesContent::default())
        },
    }
}

} // verus!
