//! Providers that speak the OpenAI protocol: the address they are reached under, the key they are
//! sent, and what a request to a local server may hold.
use crate::agent_settings::NETWORK_AGENT_PROVIDER_ID;
use crate::json::{
    clone_pairs, entry, find_entry, json_entries, json_quoted, pair_views, parse_entries,
    quote_json,
};
use crate::rag::{trim_trailing_slashes, without_trailing_slashes};
use crate::request::LanguageModelToolChoice;
use crate::text::{
    ends_with, ends_with_str, is_ws, join, join_strs, lemma_trim_end_prefix, lemma_trim_start_first,
    opt_text, str_eq, strip_suffix_str, trim, trim_end, trim_start, trim_str, views,
};
use vstd::prelude::*;

verus! {

/// The key that is sent to local servers, which ask for none.
pub const LOCAL_OPENAI_COMPATIBLE_PLACEHOLDER_API_KEY: &'static str = "network-agent";

#[derive(Clone, Debug, PartialEq)]
pub struct ModelCapabilities {
    pub tools: bool,
    pub images: bool,
    pub parallel_tool_calls: bool,
    pub prompt_cache_key: bool,
    pub chat_completions: bool,
    pub interleaved_reasoning: bool,
}

#[derive(Clone, Debug, PartialEq)]
pub struct AvailableModel {
    pub name: String,
    pub display_name: Option<String>,
    pub max_tokens: u64,
    pub max_output_tokens: Option<u64>,
    pub max_completion_tokens: Option<u64>,
    pub reasoning_effort: Option<String>,
    pub capabilities: ModelCapabilities,
}

/// A provider's settings; `custom_headers` are pairs of a name and a value.
#[derive(Clone, Debug, PartialEq)]
pub struct OpenAiCompatibleSettings {
    pub api_url: String,
    pub available_models: Vec<AvailableModel>,
    pub custom_headers: Vec<(String, String)>,
}

/// `url` without the path of an endpoint at its end.
pub open spec fn without_endpoint(url: Seq<char>) -> Seq<char> {
    if ends_with(url, "/chat/completions"@) {
        without_trailing_slashes(url.take(url.len() - "/chat/completions"@.len()))
    } else if ends_with(url, "/completions"@) {
        without_trailing_slashes(url.take(url.len() - "/completions"@.len()))
    } else if ends_with(url, "/embeddings"@) {
        without_trailing_slashes(url.take(url.len() - "/embeddings"@.len()))
    } else {
        url
    }
}

pub open spec fn versioned(url: Seq<char>) -> Seq<char> {
    if ends_with(url, "/v1"@) {
        url
    } else {
        url + "/v1"@
    }
}

/// The base that `/chat/completions` is appended to. It ends in `/v1`, unless nothing was given.
pub open spec fn normalized_api_url(api_url: Seq<char>) -> Seq<char> {
    let trimmed = without_trailing_slashes(trim(api_url));
    if trimmed.len() == 0 {
        Seq::empty()
    } else {
        versioned(without_endpoint(trimmed))
    }
}

fn strip_endpoint(url: &str) -> (r: String)
    ensures
        r@ == without_endpoint(url@),
{
    match strip_suffix_str(url, "/chat/completions") {
        Some(base) => trim_trailing_slashes(base.as_str()),
        None => match strip_suffix_str(url, "/completions") {
            Some(base) => trim_trailing_slashes(base.as_str()),
            None => match strip_suffix_str(url, "/embeddings") {
                Some(base) => trim_trailing_slashes(base.as_str()),
                None => url.to_string(),
            },
        },
    }
}

pub fn normalize_openai_compatible_api_url(api_url: &str) -> (r: String)
    ensures
        r@ == normalized_api_url(api_url@),
{
    let trimmed = trim_trailing_slashes(trim_str(api_url).as_str());
    if trimmed.as_str().is_empty() {
        let empty = String::new();
        assert(empty@ =~= Seq::<char>::empty());
        return empty;
    }
    let mut url = strip_endpoint(trimmed.as_str());
    if !ends_with_str(url.as_str(), "/v1") {
        url.append("/v1");
    }
    url
}

proof fn lemma_slashes_prefix(s: Seq<char>)
    ensures
        without_trailing_slashes(s).len() <= s.len(),
        without_trailing_slashes(s) == s.take(without_trailing_slashes(s).len() as int),
    decreases s.len(),
{
    if s.len() > 0 && s.last() == '/' {
        lemma_slashes_prefix(s.drop_last());
        let n = without_trailing_slashes(s).len() as int;
        assert(s.drop_last().take(n) =~= s.take(n));
    } else {
        assert(s.take(s.len() as int) =~= s);
    }
}

proof fn lemma_endpoint_prefix(s: Seq<char>)
    ensures
        without_endpoint(s).len() <= s.len(),
        without_endpoint(s) == s.take(without_endpoint(s).len() as int),
{
    let b = without_endpoint(s);
    if ends_with(s, "/chat/completions"@) {
        lemma_slashes_prefix(s.take(s.len() - "/chat/completions"@.len()));
    } else if ends_with(s, "/completions"@) {
        lemma_slashes_prefix(s.take(s.len() - "/completions"@.len()));
    } else if ends_with(s, "/embeddings"@) {
        lemma_slashes_prefix(s.take(s.len() - "/embeddings"@.len()));
    }
    assert(b =~= s.take(b.len() as int));
}

/// A normalized address is its own normal form, and all but the empty one end in `/v1`.
pub proof fn lemma_normalized_url_is_stable(api_url: Seq<char>)
    ensures
        normalized_api_url(normalized_api_url(api_url)) == normalized_api_url(api_url),
        normalized_api_url(api_url).len() > 0 ==> ends_with(normalized_api_url(api_url), "/v1"@),
{
    reveal_strlit("/v1");
    reveal_strlit("/chat/completions");
    reveal_strlit("/completions");
    reveal_strlit("/embeddings");
    let start = trim_start(api_url);
    let whole = trim(api_url);
    let trimmed = without_trailing_slashes(whole);
    lemma_trim_start_first(api_url);
    lemma_trim_end_prefix(start);
    lemma_slashes_prefix(whole);
    let n = normalized_api_url(api_url);
    if trimmed.len() == 0 {
        assert(n =~= Seq::<char>::empty());
        assert(trim(n) =~= n);
    } else {
        let base = without_endpoint(trimmed);
        lemma_endpoint_prefix(trimmed);
        assert(trimmed[0] == start[0]);
        if base.len() > 0 {
            assert(base[0] == trimmed[0]);
        }
        if !ends_with(base, "/v1"@) {
            assert(n.skip(n.len() - 3) =~= "/v1"@);
            assert(n[0] == (if base.len() > 0 {
                base[0]
            } else {
                '/'
            }));
        }
        assert(n.skip(n.len() - 3) == "/v1"@);
        assert(n.skip(n.len() - 3)[2] == '1');
        assert(n.last() == '1');
        assert(!is_ws(n[0]) && !is_ws(n.last()));
        assert(trim_start(n) == n);
        assert(trim_end(n) == n);
        assert(without_trailing_slashes(n) == n);
        if ends_with(n, "/chat/completions"@) {
            assert(n.skip(n.len() - 17)[16] == n.last());
        }
        if ends_with(n, "/completions"@) {
            assert(n.skip(n.len() - 12)[11] == n.last());
        }
        if ends_with(n, "/embeddings"@) {
            assert(n.skip(n.len() - 11)[10] == n.last());
        }
        assert(without_endpoint(n) == n);
    }
}

/// What a tool takes where its schema is no object.
pub const EMPTY_TOOL_PARAMETERS: &'static str = "{\"type\":\"object\",\"properties\":{}}";

/// An entry as JSON writes it, its value being JSON already.
pub open spec fn member(e: (Seq<char>, Seq<char>)) -> Seq<char> {
    json_quoted(e.0) + ":"@ + e.1
}

pub open spec fn members(entries: Seq<(Seq<char>, Seq<char>)>) -> Seq<Seq<char>> {
    entries.map_values(|e: (Seq<char>, Seq<char>)| member(e))
}

/// The JSON object of the entries.
pub open spec fn written_object(entries: Seq<(Seq<char>, Seq<char>)>) -> Seq<char> {
    "{"@ + join(members(entries), ","@) + "}"@
}

/// The entries, with one for `key` where they have none.
pub open spec fn with_default(
    entries: Seq<(Seq<char>, Seq<char>)>,
    key: Seq<char>,
    value: Seq<char>,
) -> Seq<(Seq<char>, Seq<char>)> {
    if entry(entries, key, 0) is Some {
        entries
    } else {
        entries.push((key, value))
    }
}

fn add_default(entries: &mut Vec<(String, String)>, key: &str, value: &str)
    ensures
        pair_views(final(entries)@) == with_default(pair_views(old(entries)@), key@, value@),
{
    if find_entry(entries, key).is_none() {
        let ghost before = pair_views(entries@);
        entries.push((key.to_string(), value.to_string()));
        assert(pair_views(entries@) =~= before.push((key@, value@)));
    }
}

fn write_object(entries: &Vec<(String, String)>) -> (r: String)
    ensures
        r@ == written_object(pair_views(entries@)),
{
    let ghost all = members(pair_views(entries@));
    let mut written: Vec<String> = Vec::new();
    let mut i: usize = 0;
    assert(views(written@) =~= all.take(0));
    while i < entries.len()
        invariant
            i <= entries@.len(),
            all == members(pair_views(entries@)),
            views(written@) == all.take(i as int),
        decreases entries@.len() - i,
    {
        let ghost before = views(written@);
        let mut text = quote_json(entries[i].0.as_str());
        text.append(":");
        text.append(entries[i].1.as_str());
        written.push(text);
        assert(all[i as int] == member((entries@[i as int].0@, entries@[i as int].1@)));
        assert(views(written@) =~= before.push(all[i as int]));
        assert(all.take(i + 1) =~= before.push(all[i as int]));
        i = i + 1;
    }
    assert(all.take(entries@.len() as int) =~= all);
    let mut object = "{".to_string();
    object.append(join_strs(&written, ",").as_str());
    object.append("}");
    object
}

/// The schema of a tool's parameters as a local server wants it: an object with a `properties`
/// map. `minify` says whether it is one that the schema shortener goes over next.
pub struct LocalToolParameters {
    pub schema: String,
    pub minify: bool,
}

pub open spec fn local_parameters(schema: Seq<char>) -> (Seq<char>, bool) {
    match json_entries(schema) {
        None => (EMPTY_TOOL_PARAMETERS@, false),
        Some(entries) => (
            written_object(
                with_default(
                    with_default(entries, "properties"@, "{}"@),
                    "type"@,
                    "\"object\""@,
                ),
            ),
            true,
        ),
    }
}

/// `local_parameters` of what was read from the schema.
pub fn complete_tool_parameters(entries: Option<Vec<(String, String)>>) -> (r: LocalToolParameters)
    ensures
        match entries {
            None => r.schema@ == EMPTY_TOOL_PARAMETERS@ && !r.minify,
            Some(entries) => r.schema@ == written_object(
                with_default(
                    with_default(pair_views(entries@), "properties"@, "{}"@),
                    "type"@,
                    "\"object\""@,
                ),
            ) && r.minify,
        },
{
    match entries {
        None => LocalToolParameters { schema: EMPTY_TOOL_PARAMETERS.to_string(), minify: false },
        Some(mut entries) => {
            add_default(&mut entries, "properties", "{}");
            add_default(&mut entries, "type", "\"object\"");
            LocalToolParameters { schema: write_object(&entries), minify: true }
        },
    }
}

pub fn normalize_local_openai_tool_parameters(schema: &str) -> (r: LocalToolParameters)
    ensures
        (r.schema@, r.minify) == local_parameters(schema@),
{
    complete_tool_parameters(parse_entries(schema))
}

/// A function that a request offers to the model.
pub struct FunctionTool {
    pub name: String,
    pub parameters: Option<LocalToolParameters>,
}

pub ghost struct FunctionToolView {
    pub name: Seq<char>,
    pub parameters: Option<(Seq<char>, bool)>,
}

impl View for FunctionTool {
    type V = FunctionToolView;

    open spec fn view(&self) -> FunctionToolView {
        FunctionToolView {
            name: self.name@,
            parameters: match self.parameters {
                Some(p) => Some((p.schema@, p.minify)),
                None => None,
            },
        }
    }
}

pub open spec fn tool_views(tools: Seq<FunctionTool>) -> Seq<FunctionToolView> {
    tools.map_values(|t: FunctionTool| t@)
}

/// The part of a chat request that local servers are particular about; the temperature is given by
/// the bits of an `f32`.
pub struct ChatRequest {
    pub tools: Vec<FunctionTool>,
    pub include_usage: Option<bool>,
    pub temperature: Option<u32>,
}

/// The bits of the `f32` that is one.
pub const TEMPERATURE_ONE: u32 = 0x3f80_0000;

pub open spec fn localized_tool(t: FunctionToolView) -> FunctionToolView {
    FunctionToolView {
        name: t.name,
        parameters: match t.parameters {
            Some(p) => Some(local_parameters(p.0)),
            None => None,
        },
    }
}

pub open spec fn localized_tools(tools: Seq<FunctionToolView>) -> Seq<FunctionToolView> {
    tools.map_values(|t: FunctionToolView| localized_tool(t))
}

/// Adjusts a chat request for local servers: schemas are objects, usage is asked for, and the
/// temperature that is anyway the default is left out.
pub fn sanitize_local_openai_compatible_request(request: &mut ChatRequest)
    ensures
        tool_views(final(request).tools@) == localized_tools(tool_views(old(request).tools@)),
        final(request).include_usage == Some(true),
        final(request).temperature == (if old(request).temperature == Some(TEMPERATURE_ONE) {
            None
        } else {
            old(request).temperature
        }),
{
    let ghost all = localized_tools(tool_views(request.tools@));
    let mut tools: Vec<FunctionTool> = Vec::new();
    let mut i: usize = 0;
    assert(tool_views(tools@) =~= all.take(0));
    while i < request.tools.len()
        invariant
            *request == *old(request),
            i <= request.tools@.len(),
            all == localized_tools(tool_views(request.tools@)),
            tool_views(tools@) == all.take(i as int),
        decreases request.tools@.len() - i,
    {
        let ghost before = tool_views(tools@);
        let tool = &request.tools[i];
        let parameters = match &tool.parameters {
            Some(p) => Some(normalize_local_openai_tool_parameters(p.schema.as_str())),
            None => None,
        };
        tools.push(FunctionTool { name: tool.name.clone(), parameters });
        assert(all[i as int] == localized_tool(request.tools@[i as int]@));
        assert(tool_views(tools@) =~= before.push(all[i as int]));
        assert(all.take(i + 1) =~= before.push(all[i as int]));
        i = i + 1;
    }
    assert(all.take(request.tools@.len() as int) =~= all);
    request.tools = tools;
    request.include_usage = Some(true);
    if let Some(bits) = request.temperature {
        if bits == TEMPERATURE_ONE {
            request.temperature = None;
        }
    }
}

/// What `convert_case` makes of a name in capitals that underscores part.
pub uninterp spec fn upper_snake(name: Seq<char>) -> Seq<char>;

/// `convert_case::Casing::to_case` with `Case::UpperSnake`. The result depends on the name alone.
#[verifier::external_body]
fn to_upper_snake(name: &str) -> (r: String)
    ensures
        r@ == upper_snake(name@),
{
    convert_case::Casing::to_case(&name, convert_case::Case::UpperSnake)
}

/// The environment variable that may hold the key of a provider.
pub fn api_key_env_var_name(id: &str) -> (r: String)
    ensures
        r@ == upper_snake(id@ + "_API_KEY"@),
{
    let mut name = id.to_string();
    name.append("_API_KEY");
    to_upper_snake(name.as_str())
}

/// The name a provider is shown under.
pub fn provider_name(id: &str) -> (r: String)
    ensures
        r@ == (if id@ == NETWORK_AGENT_PROVIDER_ID@ {
            "Network Agent"@
        } else {
            id@
        }),
{
    if str_eq(id, NETWORK_AGENT_PROVIDER_ID) {
        "Network Agent".to_string()
    } else {
        id.to_string()
    }
}

pub fn normalize_settings(settings: OpenAiCompatibleSettings) -> (r: OpenAiCompatibleSettings)
    ensures
        r.api_url@ == normalized_api_url(settings.api_url@),
        r.available_models == settings.available_models,
        r.custom_headers == settings.custom_headers,
{
    OpenAiCompatibleSettings {
        api_url: normalize_openai_compatible_api_url(settings.api_url.as_str()),
        available_models: settings.available_models,
        custom_headers: settings.custom_headers,
    }
}

/// A provider: its settings, the key held for their address, and whether a key is held for any.
pub struct State {
    pub id: String,
    pub settings: OpenAiCompatibleSettings,
    pub key: Option<String>,
    pub has_key: bool,
}

/// What signing in comes to.
#[derive(Clone, Copy, Debug, PartialEq, Eq, Structural)]
pub enum Authentication {
    /// There is nothing to sign in to.
    CredentialsNotFound,
    /// The provider is ready; the stored key is loaded beside that.
    ReadyAndLoad,
    /// The provider is ready once the stored key is loaded.
    Load,
}

impl State {
    pub open spec fn networked(&self) -> bool {
        self.id@ == NETWORK_AGENT_PROVIDER_ID@
    }

    pub open spec fn configured(&self) -> bool {
        self.settings.api_url@.len() > 0 && self.settings.available_models@.len() > 0
    }

    pub open spec fn authenticated(&self) -> bool {
        if self.networked() {
            self.configured()
        } else {
            self.has_key
        }
    }

    pub open spec fn request_key(&self) -> Option<Seq<char>> {
        match self.key {
            Some(key) => Some(key@),
            None => if self.networked() {
                Some(LOCAL_OPENAI_COMPATIBLE_PLACEHOLDER_API_KEY@)
            } else {
                None
            },
        }
    }

    /// Whether the placeholder is put where no key is held.
    pub open spec fn lacks_placeholder(&self) -> bool {
        self.networked() && self.settings.api_url@.len() > 0 && self.key is None
    }

    pub fn is_network_agent(&self) -> (r: bool)
        ensures
            r == self.networked(),
    {
        str_eq(self.id.as_str(), NETWORK_AGENT_PROVIDER_ID)
    }

    pub fn is_configured(&self) -> (r: bool)
        ensures
            r == self.configured(),
    {
        !self.settings.api_url.as_str().is_empty() && self.settings.available_models.len() > 0
    }

    pub fn is_authenticated(&self) -> (r: bool)
        ensures
            r == self.authenticated(),
    {
        if self.is_network_agent() {
            return self.is_configured();
        }
        self.has_key
    }

    /// The key a request is sent with; without one there is no request.
    pub fn api_key_for_request(&self) -> (r: Option<String>)
        ensures
            opt_text(r) == self.request_key(),
    {
        match &self.key {
            Some(key) => Some(key.clone()),
            None => if self.is_network_agent() {
                Some(LOCAL_OPENAI_COMPATIBLE_PLACEHOLDER_API_KEY.to_string())
            } else {
                None
            },
        }
    }

    pub fn ensure_network_agent_api_key(&mut self)
        ensures
            final(self).id == old(self).id,
            final(self).settings == old(self).settings,
            if old(self).lacks_placeholder() {
                opt_text(final(self).key) == Some(LOCAL_OPENAI_COMPATIBLE_PLACEHOLDER_API_KEY@)
                    && final(self).has_key
            } else {
                *final(self) == *old(self)
            },
    {
        if !self.is_network_agent() || self.settings.api_url.as_str().is_empty() {
            return;
        }
        if self.key.is_some() {
            return;
        }
        self.key = Some(LOCAL_OPENAI_COMPATIBLE_PLACEHOLDER_API_KEY.to_string());
        self.has_key = true;
    }

    pub fn authenticate(&mut self) -> (r: Authentication)
        ensures
            r == (if !old(self).networked() {
                Authentication::Load
            } else if old(self).configured() {
                Authentication::ReadyAndLoad
            } else {
                Authentication::CredentialsNotFound
            }),
            final(self).id == old(self).id,
            final(self).settings == old(self).settings,
            if old(self).configured() && old(self).lacks_placeholder() {
                opt_text(final(self).key) == Some(LOCAL_OPENAI_COMPATIBLE_PLACEHOLDER_API_KEY@)
                    && final(self).has_key
            } else {
                *final(self) == *old(self)
            },
    {
        if self.is_network_agent() {
            if !self.is_configured() {
                return Authentication::CredentialsNotFound;
            }
            self.ensure_network_agent_api_key();
            return Authentication::ReadyAndLoad;
        }
        Authentication::Load
    }

    /// Takes over settings that have changed, with the key held for their address.
    pub fn apply_settings(&mut self, settings: OpenAiCompatibleSettings, key: Option<String>)
        ensures
            final(self).id == old(self).id,
            final(self).settings.api_url@ == normalized_api_url(settings.api_url@),
            final(self).settings.available_models == settings.available_models,
            final(self).settings.custom_headers == settings.custom_headers,
            opt_text(final(self).key) == (if key is None && old(self).networked()
                && normalized_api_url(settings.api_url@).len() > 0 {
                Some(LOCAL_OPENAI_COMPATIBLE_PLACEHOLDER_API_KEY@)
            } else {
                opt_text(key)
            }),
            final(self).has_key == (final(self).key is Some),
    {
        self.settings = normalize_settings(settings);
        self.has_key = key.is_some();
        self.key = key;
        self.ensure_network_agent_api_key();
    }
}

/// The Network Agent can send a request whatever key is held, and signing in leaves it with the
/// key that its requests were sent with before.
pub proof fn lemma_network_agent_always_has_key(s: State)
    requires
        s.networked(),
    ensures
        s.request_key() is Some,
        s.lacks_placeholder() ==> s.request_key() == Some(
            LOCAL_OPENAI_COMPATIBLE_PLACEHOLDER_API_KEY@,
        ),
{
}

/// How the schema of a tool is written.
#[derive(Clone, Copy, Debug, PartialEq, Eq, Structural)]
pub enum LanguageModelToolSchemaFormat {
    JsonSchema,
    JsonSchemaSubset,
}

impl AvailableModel {
    /// The name the model is shown under.
    pub fn display(&self) -> (r: String)
        ensures
            r@ == (match self.display_name {
                Some(name) => name@,
                None => self.name@,
            }),
    {
        match &self.display_name {
            Some(name) => name.clone(),
            None => self.name.clone(),
        }
    }

    pub fn telemetry_id(&self) -> (r: String)
        ensures
            r@ == "openai/"@ + self.name@,
    {
        let mut id = "openai/".to_string();
        id.append(self.name.as_str());
        id
    }

    pub fn supports_tool_choice(&self, choice: LanguageModelToolChoice) -> (r: bool)
        ensures
            r == (choice is NoTool || self.capabilities.tools),
    {
        match choice {
            LanguageModelToolChoice::Auto => self.capabilities.tools,
            LanguageModelToolChoice::Any => self.capabilities.tools,
            LanguageModelToolChoice::NoTool => true,
        }
    }
}

/// Local servers reject the fields of the subset that cloud providers accept.
pub fn tool_input_format(provider_id: &str) -> (r: LanguageModelToolSchemaFormat)
    ensures
        r == (if provider_id@ == NETWORK_AGENT_PROVIDER_ID@ {
            LanguageModelToolSchemaFormat::JsonSchema
        } else {
            LanguageModelToolSchemaFormat::JsonSchemaSubset
        }),
{
    if str_eq(provider_id, NETWORK_AGENT_PROVIDER_ID) {
        LanguageModelToolSchemaFormat::JsonSchema
    } else {
        LanguageModelToolSchemaFormat::JsonSchemaSubset
    }
}

/// The key that is stored for what was typed; nothing is where nothing was.
pub fn entered_api_key(text: &str) -> (r: Option<String>)
    ensures
        match r {
            Some(key) => key@ == trim(text@) && key@.len() > 0,
            None => trim(text@).len() == 0,
        },
{
    let key = trim_str(text);
    if key.as_str().is_empty() {
        None
    } else {
        Some(key)
    }
}

/// What the settings say of a key that is held.
pub fn api_key_label(from_env_var: bool, env_var_name: &str, api_url: &str) -> (r: String)
    ensures
        r@ == (if from_env_var {
            "API key set in "@ + env_var_name@ + " environment variable"@
        } else {
            "API key configured for "@ + api_url@
        }),
{
    if from_env_var {
        let mut text = "API key set in ".to_string();
        text.append(env_var_name);
        text.append(" environment variable");
        text
    } else {
        let mut text = "API key configured for ".to_string();
        text.append(api_url);
        text
    }
}

/// The effort that stands for no reasoning at all.
pub const NO_REASONING: &'static str = "none";

/// How a completion is asked for.
#[derive(Debug)]
pub enum CompletionPlan {
    /// By the endpoint for chats. A request to a local server is made fit for it first.
    Chat {
        sanitize: bool,
        parallel_tool_calls: bool,
        prompt_cache_key: bool,
        max_output_tokens: Option<u64>,
        reasoning_effort: Option<String>,
        interleaved_reasoning: bool,
    },
    /// By the endpoint for responses.
    Response {
        parallel_tool_calls: bool,
        prompt_cache_key: bool,
        max_output_tokens: Option<u64>,
        reasoning_effort: Option<String>,
        no_reasoning: bool,
    },
}

/// Whether `plan` is how a completion is asked for.
pub open spec fn is_completion_plan(
    plan: CompletionPlan,
    model: AvailableModel,
    provider_id: Seq<char>,
) -> bool {
    let effort = opt_text(model.reasoning_effort);
    if model.capabilities.chat_completions {
        &&& plan matches CompletionPlan::Chat {
            sanitize,
            parallel_tool_calls,
            prompt_cache_key,
            max_output_tokens,
            reasoning_effort,
            interleaved_reasoning,
        }
        &&& sanitize == (provider_id == NETWORK_AGENT_PROVIDER_ID@)
        &&& parallel_tool_calls == model.capabilities.parallel_tool_calls
        &&& prompt_cache_key == model.capabilities.prompt_cache_key
        &&& max_output_tokens == model.max_output_tokens
        &&& opt_text(reasoning_effort) == effort
        &&& interleaved_reasoning == model.capabilities.interleaved_reasoning
    } else {
        &&& plan matches CompletionPlan::Response {
            parallel_tool_calls,
            prompt_cache_key,
            max_output_tokens,
            reasoning_effort,
            no_reasoning,
        }
        &&& parallel_tool_calls == model.capabilities.parallel_tool_calls
        &&& prompt_cache_key == model.capabilities.prompt_cache_key
        &&& max_output_tokens == model.max_output_tokens
        &&& no_reasoning == (effort == Some(NO_REASONING@))
        &&& opt_text(reasoning_effort) == if no_reasoning {
            None
        } else {
            effort
        }
    }
}

/// Decides how a completion is asked for.
pub fn plan_completion(model: &AvailableModel, provider_id: &str) -> (r: CompletionPlan)
    ensures
        is_completion_plan(r, *model, provider_id@),
{
    let effort = match &model.reasoning_effort {
        Some(e) => Some(e.clone()),
        None => None,
    };
    if model.capabilities.chat_completions {
        return CompletionPlan::Chat {
            sanitize: str_eq(provider_id, NETWORK_AGENT_PROVIDER_ID),
            parallel_tool_calls: model.capabilities.parallel_tool_calls,
            prompt_cache_key: model.capabilities.prompt_cache_key,
            max_output_tokens: model.max_output_tokens,
            reasoning_effort: effort,
            interleaved_reasoning: model.capabilities.interleaved_reasoning,
        };
    }
    let no_reasoning = match &effort {
        Some(e) => str_eq(e.as_str(), NO_REASONING),
        None => false,
    };
    CompletionPlan::Response {
        parallel_tool_calls: model.capabilities.parallel_tool_calls,
        prompt_cache_key: model.capabilities.prompt_cache_key,
        max_output_tokens: model.max_output_tokens,
        reasoning_effort: if no_reasoning {
            None
        } else {
            effort
        },
        no_reasoning,
    }
}

/// Where a request is sent, and with which key and headers.
#[derive(Debug)]
pub struct Connection {
    pub api_key: String,
    pub api_url: String,
    pub custom_headers: Vec<(String, String)>,
}

impl State {
    /// Where a request is sent; without a key none is.
    pub fn connection(&self) -> (r: Option<Connection>)
        ensures
            match r {
                Some(c) => self.request_key() == Some(c.api_key@) && c.api_url@
                    == self.settings.api_url@ && pair_views(c.custom_headers@) == pair_views(
                    self.settings.custom_headers@,
                ),
                None => self.request_key() is None,
            },
    {
        match self.api_key_for_request() {
            Some(api_key) => Some(
                Connection {
                    api_key,
                    api_url: self.settings.api_url.clone(),
                    custom_headers: clone_pairs(&self.settings.custom_headers),
                },
            ),
            None => None,
        }
    }

    /// The model that is used where none is chosen: the first there is.
    pub fn default_model(&self) -> (r: Option<&AvailableModel>)
        ensures
            r is None <==> self.settings.available_models@.len() == 0,
            r matches Some(m) ==> *m == self.settings.available_models@[0],
    {
        if self.settings.available_models.len() == 0 {
            None
        } else {
            Some(&self.settings.available_models[0])
        }
    }
}

} // verus!
