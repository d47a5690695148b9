//! The form that sets up the Network Agent, and the switch that turns it on.
use crate::agent_settings::NETWORK_AGENT_PROVIDER_ID;
use crate::open_ai_compatible::{
    AvailableModel, ModelCapabilities, OpenAiCompatibleSettings,
    LOCAL_OPENAI_COMPATIBLE_PLACEHOLDER_API_KEY,
};
use crate::settings_content::{AgentSettingsContent, NetworkAgentSettingsContent};
use crate::text::{dec, dec_str, parse_u64, parsed_unsigned};
use vstd::prelude::*;

verus! {

pub const DEFAULT_MAX_TOKENS: u64 = 32_768;

pub const EMPTY_ENDPOINT: &'static str = "Endpoint URL cannot be empty";

pub const EMPTY_MODEL: &'static str = "Model cannot be empty";

pub const BAD_CONTEXT_WINDOW: &'static str = "Context Window must be a positive number";

/// The Network Agent as the settings have it, or as nothing has set it.
pub open spec fn network_agent_or_default(
    content: Option<NetworkAgentSettingsContent>,
) -> NetworkAgentSettingsContent {
    match content {
        Some(c) => c,
        None => NetworkAgentSettingsContent {
            enabled: None,
            model: None,
            delegation_mode: None,
            workers: None,
        },
    }
}

fn take_network_agent(settings: &mut AgentSettingsContent) -> (r: NetworkAgentSettingsContent)
    ensures
        r == network_agent_or_default(old(settings).network_agent),
        *final(settings) == (AgentSettingsContent { network_agent: None, ..*old(settings) }),
{
    match settings.network_agent.take() {
        Some(c) => c,
        None => NetworkAgentSettingsContent {
            enabled: None,
            model: None,
            delegation_mode: None,
            workers: None,
        },
    }
}

/// Turns the Network Agent on or off and leaves everything else as it is.
pub fn set_network_agent_enabled(settings: &mut AgentSettingsContent, enabled: bool)
    ensures
        *final(settings) == (AgentSettingsContent {
            network_agent: Some(
                (NetworkAgentSettingsContent {
                    enabled: Some(enabled),
                    ..network_agent_or_default(old(settings).network_agent)
                }),
            ),
            ..*old(settings)
        }),
{
    let mut network_agent = take_network_agent(settings);
    network_agent.enabled = Some(enabled);
    settings.network_agent = Some(network_agent);
}

/// The form as it was filled in.
pub struct NetworkAgentInput {
    pub api_url: String,
    pub api_key: String,
    pub model: String,
    pub max_tokens: String,
}

impl NetworkAgentInput {
    /// The form as it opens, with what is configured already. The key is never shown.
    pub fn new(existing: Option<&OpenAiCompatibleSettings>) -> (r: Self)
        ensures
            r.api_key@.len() == 0,
            match existing {
                None => r.api_url@.len() == 0 && r.model@.len() == 0 && r.max_tokens@ == dec(
                    DEFAULT_MAX_TOKENS as nat,
                ),
                Some(s) => r.api_url@ == s.api_url@ && if s.available_models@.len() > 0 {
                    r.model@ == s.available_models@[0].name@ && r.max_tokens@ == dec(
                        s.available_models@[0].max_tokens as nat,
                    )
                } else {
                    r.model@.len() == 0 && r.max_tokens@ == dec(DEFAULT_MAX_TOKENS as nat)
                },
            },
    {
        let mut api_url = String::new();
        let mut model = String::new();
        let mut max_tokens: u64 = DEFAULT_MAX_TOKENS;
        if let Some(s) = existing {
            api_url = s.api_url.clone();
            if s.available_models.len() > 0 {
                model = s.available_models[0].name.clone();
                max_tokens = s.available_models[0].max_tokens;
            }
        }
        NetworkAgentInput {
            api_url,
            api_key: String::new(),
            model,
            max_tokens: dec_str(max_tokens),
        }
    }
}

/// What a filled-in form sets up: the provider's settings, and the key that is written to the
/// keychain for its address.
pub struct NetworkAgentSetup {
    pub provider: OpenAiCompatibleSettings,
    pub api_key: String,
}

/// The size of the context window that was typed.
pub open spec fn context_window(text: Seq<char>) -> Option<nat> {
    match parsed_unsigned(text, u64::MAX as nat) {
        Some(n) => if n > 0 {
            Some(n)
        } else {
            None
        },
        None => None,
    }
}

/// The first thing that is wrong with a form.
pub open spec fn form_error(input: NetworkAgentInput) -> Option<Seq<char>> {
    if input.api_url@.len() == 0 {
        Some(EMPTY_ENDPOINT@)
    } else if input.model@.len() == 0 {
        Some(EMPTY_MODEL@)
    } else if context_window(input.max_tokens@) is None {
        Some(BAD_CONTEXT_WINDOW@)
    } else {
        None
    }
}

/// The model that a form describes: one that uses tools through chat completions.
pub open spec fn is_described_by(model: AvailableModel, input: NetworkAgentInput) -> bool {
    &&& model.name@ == input.model@
    &&& model.display_name matches Some(name) && name@ == input.model@ + " (network)"@
    &&& Some(model.max_tokens as nat) == context_window(input.max_tokens@)
    &&& model.max_completion_tokens is None
    &&& model.max_output_tokens is None
    &&& model.reasoning_effort is None
    &&& model.capabilities == ModelCapabilities {
        tools: true,
        images: false,
        parallel_tool_calls: false,
        prompt_cache_key: false,
        chat_completions: true,
        interleaved_reasoning: false,
    }
}

/// Reads a form. Servers that ask for no key get a placeholder, since a provider counts as signed
/// in only where a key is stored.
pub fn read_network_agent_input(input: &NetworkAgentInput) -> (r: Result<NetworkAgentSetup, String>)
    ensures
        match r {
            Err(e) => form_error(*input) == Some(e@),
            Ok(s) => {
                &&& form_error(*input) is None
                &&& s.provider.api_url@ == input.api_url@
                &&& s.provider.available_models@.len() == 1
                &&& is_described_by(s.provider.available_models@[0], *input)
                &&& s.provider.custom_headers@.len() == 0
                &&& s.api_key@ == (if input.api_key@.len() == 0 {
                    LOCAL_OPENAI_COMPATIBLE_PLACEHOLDER_API_KEY@
                } else {
                    input.api_key@
                })
            },
        },
{
    if input.api_url.as_str().is_empty() {
        return Err(EMPTY_ENDPOINT.to_string());
    }
    if input.model.as_str().is_empty() {
        return Err(EMPTY_MODEL.to_string());
    }
    let max_tokens: u64 = match parse_u64(input.max_tokens.as_str()) {
        Some(n) => if n > 0 {
            n
        } else {
            return Err(BAD_CONTEXT_WINDOW.to_string());
        },
        None => return Err(BAD_CONTEXT_WINDOW.to_string()),
    };
    let api_key = if input.api_key.as_str().is_empty() {
        LOCAL_OPENAI_COMPATIBLE_PLACEHOLDER_API_KEY.to_string()
    } else {
        input.api_key.clone()
    };
    let mut display = input.model.clone();
    display.append(" (network)");
    let model = AvailableModel {
        name: input.model.clone(),
        display_name: Some(display),
        max_tokens,
        max_output_tokens: None,
        max_completion_tokens: None,
        reasoning_effort: None,
        capabilities: ModelCapabilities {
            tools: true,
            images: false,
            parallel_tool_calls: false,
            prompt_cache_key: false,
            chat_completions: true,
            interleaved_reasoning: false,
        },
    };
    let mut available_models: Vec<AvailableModel> = Vec::new();
    available_models.push(model);
    Ok(
        NetworkAgentSetup {
            provider: OpenAiCompatibleSettings {
                api_url: input.api_url.clone(),
                available_models,
                custom_headers: Vec::new(),
            },
            api_key,
        },
    )
}

/// Names the model that was set up and turns the Network Agent on. The provider's own settings
/// belong under `NETWORK_AGENT_PROVIDER_ID`.
pub fn save_network_agent_to_settings(settings: &mut AgentSettingsContent, model: String) -> (r:
    &'static str)
    ensures
        r@ == NETWORK_AGENT_PROVIDER_ID@,
        *final(settings) == (AgentSettingsContent {
            network_agent: Some(
                (NetworkAgentSettingsContent {
                    enabled: Some(true),
                    model: Some(model),
                    ..network_agent_or_default(old(settings).network_agent)
                }),
            ),
            ..*old(settings)
        }),
{
    let mut network_agent = take_network_agent(settings);
    network_agent.model = Some(model);
    network_agent.enabled = Some(true);
    settings.network_agent = Some(network_agent);
    NETWORK_AGENT_PROVIDER_ID
}

/// What the form saves, it shows when it opens again; the size is then written in plain digits.
pub proof fn lemma_form_shows_what_it_saved(input: NetworkAgentInput, saved: AvailableModel)
    requires
        form_error(input) is None,
        is_described_by(saved, input),
    ensures
        saved.name@ == input.model@,
        context_window(dec(saved.max_tokens as nat)) == context_window(input.max_tokens@),
{
    crate::text::lemma_dec_round_trip(saved.max_tokens as nat);
    crate::text::lemma_dec_digits(saved.max_tokens as nat);
}

} // verus!
