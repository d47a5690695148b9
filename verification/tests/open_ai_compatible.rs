use unleashed_agent::goal_mode_selector::{
    apply_goal_mode_to_contents, ContentBlock, PromptInputMode,
};
use unleashed_agent::network_agent::{
    read_network_agent_input, save_network_agent_to_settings, set_network_agent_enabled,
    NetworkAgentInput, BAD_CONTEXT_WINDOW, EMPTY_ENDPOINT, EMPTY_MODEL,
};
use unleashed_agent::open_ai_compatible::{
    api_key_env_var_name, api_key_label, complete_tool_parameters, entered_api_key,
    normalize_local_openai_tool_parameters, normalize_openai_compatible_api_url,
    normalize_settings, plan_completion, provider_name, sanitize_local_openai_compatible_request,
    tool_input_format, Authentication, AvailableModel, ChatRequest, CompletionPlan, FunctionTool,
    LanguageModelToolSchemaFormat, LocalToolParameters, ModelCapabilities,
    OpenAiCompatibleSettings, State,
};
use unleashed_agent::request::LanguageModelToolChoice;
use unleashed_agent::settings_content::AgentSettingsContent;

fn model() -> AvailableModel {
    AvailableModel {
        name: "qwen".to_string(),
        display_name: None,
        max_tokens: 10,
        max_output_tokens: None,
        max_completion_tokens: None,
        reasoning_effort: None,
        capabilities: ModelCapabilities {
            tools: false,
            images: false,
            parallel_tool_calls: false,
            prompt_cache_key: false,
            chat_completions: true,
            interleaved_reasoning: false,
        },
    }
}

fn settings(api_url: &str) -> OpenAiCompatibleSettings {
    OpenAiCompatibleSettings {
        api_url: api_url.to_string(),
        available_models: vec![model()],
        custom_headers: Vec::new(),
    }
}

fn state(id: &str) -> State {
    State { id: id.to_string(), settings: settings("http://h/v1"), key: None, has_key: false }
}

fn form() -> NetworkAgentInput {
    NetworkAgentInput {
        api_url: "http://h:1234".to_string(),
        api_key: String::new(),
        model: "qwen".to_string(),
        max_tokens: "+4096".to_string(),
    }
}

#[test]
fn normalize_openai_compatible_api_url_appends_v1() {
    assert_eq!(
        normalize_openai_compatible_api_url("http://192.168.1.50:1234"),
        "http://192.168.1.50:1234/v1"
    );
    assert_eq!(
        normalize_openai_compatible_api_url("http://192.168.1.50:1234/v1"),
        "http://192.168.1.50:1234/v1"
    );
}

#[test]
fn normalize_openai_compatible_api_url_strips_chat_completions_suffix() {
    assert_eq!(
        normalize_openai_compatible_api_url("http://192.168.1.50:1234/v1/chat/completions"),
        "http://192.168.1.50:1234/v1"
    );
}

#[test]
fn sanitize_local_openai_compatible_request_requests_usage() {
    let mut request = ChatRequest { tools: Vec::new(), include_usage: None, temperature: None };
    sanitize_local_openai_compatible_request(&mut request);
    assert_eq!(request.include_usage, Some(true));
}

#[test]
fn a_normalized_address_stays() {
    for url in ["", " / ", "h/", " http://h/embeddings/ ", "/completions", "http://h//v1"] {
        let once = normalize_openai_compatible_api_url(url);
        assert_eq!(normalize_openai_compatible_api_url(&once), once);
        assert!(once.is_empty() || once.ends_with("/v1"));
    }
    assert_eq!(normalize_openai_compatible_api_url(" / "), "");
    assert_eq!(normalize_settings(settings("http://h/")).api_url, "http://h/v1");
}

#[test]
fn schemas_are_completed_for_local_servers() {
    let empty = normalize_local_openai_tool_parameters("[1]");
    assert!(!empty.minify);
    let value: serde_json::Value = serde_json::from_str(&empty.schema).unwrap();
    assert_eq!(value["type"], "object");
    let full = normalize_local_openai_tool_parameters(r#"{"required": ["a\"b"]}"#);
    assert!(full.minify);
    let value: serde_json::Value = serde_json::from_str(&full.schema).unwrap();
    assert_eq!(value["required"][0], "a\"b");
    assert!(value["properties"].as_object().unwrap().is_empty());
    assert_eq!(value["type"], "object");
    let kept = complete_tool_parameters(Some(vec![
        ("type".to_string(), "\"string\"".to_string()),
        ("properties".to_string(), "{\"x\":{}}".to_string()),
    ]));
    assert_eq!(kept.schema, "{\"type\":\"string\",\"properties\":{\"x\":{}}}");
}

#[test]
fn requests_are_sanitized() {
    let mut request = ChatRequest {
        tools: vec![FunctionTool {
            name: "t".to_string(),
            parameters: Some(LocalToolParameters { schema: "{}".to_string(), minify: false }),
        }],
        include_usage: Some(false),
        temperature: Some(1.0f32.to_bits()),
    };
    sanitize_local_openai_compatible_request(&mut request);
    assert_eq!(request.temperature, None);
    let parameters = request.tools[0].parameters.as_ref().unwrap();
    assert_eq!(parameters.schema, "{\"properties\":{},\"type\":\"object\"}");
    request.temperature = Some(0.5f32.to_bits());
    sanitize_local_openai_compatible_request(&mut request);
    assert_eq!(request.temperature, Some(0.5f32.to_bits()));
}

#[test]
fn the_network_agent_needs_no_key() {
    let mut agent = state("network-agent");
    assert!(agent.is_authenticated());
    assert_eq!(agent.api_key_for_request().as_deref(), Some("network-agent"));
    assert_eq!(agent.authenticate(), Authentication::ReadyAndLoad);
    assert_eq!(agent.key.as_deref(), Some("network-agent"));
    agent.settings.available_models.clear();
    assert_eq!(agent.authenticate(), Authentication::CredentialsNotFound);

    let mut other = state("openrouter");
    assert!(!other.is_authenticated());
    assert_eq!(other.api_key_for_request(), None);
    assert_eq!(other.authenticate(), Authentication::Load);
    other.apply_settings(settings("http://z"), Some("k".to_string()));
    assert_eq!(other.settings.api_url, "http://z/v1");
    assert!(other.is_authenticated());
    assert_eq!(other.api_key_for_request().as_deref(), Some("k"));
}

#[test]
fn providers_have_names_and_variables() {
    assert_eq!(provider_name("network-agent"), "Network Agent");
    assert_eq!(provider_name("openrouter"), "openrouter");
    assert_eq!(api_key_env_var_name("network-agent"), "NETWORK_AGENT_API_KEY");
    assert_eq!(api_key_env_var_name("myHost"), "MY_HOST_API_KEY");
    assert_eq!(tool_input_format("network-agent"), LanguageModelToolSchemaFormat::JsonSchema);
    assert_eq!(tool_input_format("x"), LanguageModelToolSchemaFormat::JsonSchemaSubset);
    assert_eq!(entered_api_key("  "), None);
    assert_eq!(entered_api_key(" k "), Some("k".to_string()));
    assert_eq!(
        api_key_label(true, "X_API_KEY", "u"),
        "API key set in X_API_KEY environment variable"
    );
    assert_eq!(api_key_label(false, "X_API_KEY", "u"), "API key configured for u");
}

#[test]
fn models_say_what_they_support() {
    let mut m = model();
    assert_eq!(m.display(), "qwen");
    m.display_name = Some("Qwen".to_string());
    assert_eq!(m.display(), "Qwen");
    assert_eq!(m.telemetry_id(), "openai/qwen");
    assert!(!m.supports_tool_choice(LanguageModelToolChoice::Auto));
    assert!(m.supports_tool_choice(LanguageModelToolChoice::NoTool));
}

#[test]
fn the_form_is_checked_field_by_field() {
    let mut input = form();
    let setup = read_network_agent_input(&input).unwrap_or_else(|error| panic!("{error}"));
    assert_eq!(setup.api_key, "network-agent");
    let saved = &setup.provider.available_models[0];
    assert_eq!(saved.display_name.as_deref(), Some("qwen (network)"));
    assert_eq!(saved.max_tokens, 4096);
    assert!(saved.capabilities.tools && saved.capabilities.chat_completions);
    let opened = NetworkAgentInput::new(Some(&setup.provider));
    assert_eq!((opened.model.as_str(), opened.max_tokens.as_str()), ("qwen", "4096"));
    assert_eq!(NetworkAgentInput::new(None).max_tokens, "32768");

    input.max_tokens = "0".to_string();
    assert_eq!(read_network_agent_input(&input).err().unwrap(), BAD_CONTEXT_WINDOW);
    input.model.clear();
    assert_eq!(read_network_agent_input(&input).err().unwrap(), EMPTY_MODEL);
    input.api_url.clear();
    assert_eq!(read_network_agent_input(&input).err().unwrap(), EMPTY_ENDPOINT);
}

#[test]
fn saving_turns_the_agent_on() {
    let mut content = AgentSettingsContent::default();
    let id = save_network_agent_to_settings(&mut content, "qwen".to_string());
    assert_eq!(id, "network-agent");
    set_network_agent_enabled(&mut content, false);
    let agent = content.network_agent.as_ref().unwrap();
    assert_eq!(agent.enabled, Some(false));
    assert_eq!(agent.model.as_deref(), Some("qwen"));
}

#[test]
fn apply_goal_mode_prefixes_plain_text() {
    let contents = vec![ContentBlock::Text("read README".to_string())];
    let result = apply_goal_mode_to_contents(contents);
    let ContentBlock::Text(text) = &result[0] else {
        panic!("expected text block");
    };
    assert_eq!(text, "/goal read README");
}

#[test]
fn apply_goal_mode_skips_existing_goal_command() {
    let contents = vec![ContentBlock::Text("/goal pause".to_string())];
    let result = apply_goal_mode_to_contents(contents);
    let ContentBlock::Text(text) = &result[0] else {
        panic!("expected text block");
    };
    assert_eq!(text, "/goal pause");
}

#[test]
fn goal_mode_changes_the_first_text_only() {
    let blocks = vec![
        ContentBlock::Text(" a ".to_string()),
        ContentBlock::Text("b".to_string()),
    ];
    let once = apply_goal_mode_to_contents(blocks);
    assert_eq!(
        once,
        vec![ContentBlock::Text("/goal a".to_string()), ContentBlock::Text("b".to_string())]
    );
    let other = vec![ContentBlock::Other("image".to_string())];
    assert_eq!(
        apply_goal_mode_to_contents(other),
        vec![ContentBlock::Other("image".to_string())]
    );
    assert!(apply_goal_mode_to_contents(Vec::new()).is_empty());
    assert_eq!(PromptInputMode::default().label(), "Chat");
    assert_eq!(PromptInputMode::Goal.label(), "Goal");
}

#[test]
fn completions_are_asked_for_as_the_model_allows() {
    let mut model = model();
    model.reasoning_effort = Some("none".to_string());
    assert!(matches!(
        plan_completion(&model, "network-agent"),
        CompletionPlan::Chat { sanitize: true, reasoning_effort: Some(e), .. } if e == "none"
    ));
    assert!(matches!(
        plan_completion(&model, "other"),
        CompletionPlan::Chat { sanitize: false, .. }
    ));
    model.capabilities.chat_completions = false;
    assert!(matches!(
        plan_completion(&model, "network-agent"),
        CompletionPlan::Response { reasoning_effort: None, no_reasoning: true, .. }
    ));
    model.reasoning_effort = Some("high".to_string());
    assert!(matches!(
        plan_completion(&model, "network-agent"),
        CompletionPlan::Response { reasoning_effort: Some(e), no_reasoning: false, .. } if e == "high"
    ));
}

#[test]
fn requests_go_where_the_settings_say() {
    assert!(state("other").connection().is_none());
    let mut state = state("other");
    state.key = Some("k".to_string());
    state.settings.custom_headers = vec![("a".to_string(), "b".to_string())];
    let connection = state.connection().unwrap();
    assert_eq!(connection.api_key, "k");
    assert_eq!(connection.api_url, "http://h/v1");
    assert_eq!(connection.custom_headers, state.settings.custom_headers);
    assert_eq!(state.default_model().map(|model| model.name.as_str()), Some("qwen"));
    state.settings.available_models.clear();
    assert!(state.default_model().is_none());
}
