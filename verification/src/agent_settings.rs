//! The settings of the agent, complete and within bounds.
use crate::assoc::Assoc;
use crate::settings_content::{
    path_list, AgentProfileContent, AgentSettingsContent, AntiLoopSettingsContent,
    AutoThreadRolloverContent, DockPosition, LanguageModelParameters, LanguageModelProviderSetting,
    LanguageModelSelection, NetworkAgentSettingsContent, NetworkAgentWorkerEndpointContent,
    NetworkAgentWorkersContent, NotifyWhenAgentWaiting, PlaySoundWhenAgentDone, SidebarDockPosition,
    SidebarSide, SingleBits, ThinkingBlockDisplay, ToolPermissionMode, WebResearchSettingsContent,
};
use crate::text::{
    ascii_lower, ascii_lower_str, contains_string, join, join_strs, max_usize, min_usize, str_eq,
    trim, trim_str, views,
};
use crate::tool_permissions::{
    compile_full_access_settings, compile_sandbox_permissions, compile_tool_permissions,
    compiles_to, is_set, subtrees, FullAccessSettings, SandboxPermissions, ToolPermissions,
};
use vstd::prelude::*;

verus! {

// ---------------------------------------------------------------------------
// Values within bounds
// ---------------------------------------------------------------------------

/// The value, where it is set and within the bounds, else the default.
pub open spec fn bounded(value: Option<int>, low: int, high: int, default: int) -> int {
    match value {
        Some(v) if low <= v <= high => v,
        _ => default,
    }
}

pub open spec fn int_of_usize(value: Option<usize>) -> Option<int> {
    match value {
        Some(v) => Some(v as int),
        None => None,
    }
}

pub open spec fn int_of_u64(value: Option<u64>) -> Option<int> {
    match value {
        Some(v) => Some(v as int),
        None => None,
    }
}

fn bounded_usize(value: Option<usize>, low: usize, high: usize, default: usize) -> (r: usize)
    ensures
        r == bounded(int_of_usize(value), low as int, high as int, default as int),
{
    match value {
        Some(v) => if low <= v && v <= high {
            v
        } else {
            default
        },
        None => default,
    }
}

fn bounded_u64(value: Option<u64>, low: u64, high: u64, default: u64) -> (r: u64)
    ensures
        r == bounded(int_of_u64(value), low as int, high as int, default as int),
{
    match value {
        Some(v) => if low <= v && v <= high {
            v
        } else {
            default
        },
        None => default,
    }
}

pub open spec fn flag(value: Option<bool>, default: bool) -> bool {
    match value {
        Some(v) => v,
        None => default,
    }
}

fn flag_or(value: Option<bool>, default: bool) -> (r: bool)
    ensures
        r == flag(value, default),
{
    match value {
        Some(v) => v,
        None => default,
    }
}

// ---------------------------------------------------------------------------
// Web research
// ---------------------------------------------------------------------------

#[derive(Clone, Debug, PartialEq)]
pub struct WebResearchSettings {
    pub enabled: bool,
    pub preferred_provider: String,
    pub max_search_results: usize,
    pub max_snippet_chars: usize,
    pub max_fetch_chars: usize,
    pub max_response_bytes: u64,
    pub max_redirects: u32,
    pub request_timeout_ms: u64,
    pub max_concurrency: usize,
    pub per_host_delay_ms: u64,
    pub browser_fallback_enabled: bool,
    pub browser_timeout_secs: u64,
    pub max_pages: usize,
    pub max_depth: usize,
    pub research_wall_clock_secs: u64,
    pub cache_ttl_serp_secs: u64,
    pub cache_ttl_page_secs: u64,
}

impl WebResearchSettings {
    /// Whether these are the defaults.
    pub open spec fn is_default(&self) -> bool {
        &&& self.enabled
        &&& self.preferred_provider@ == "local"@
        &&& self.max_search_results == 5
        &&& self.max_snippet_chars == 300
        &&& self.max_fetch_chars == 12_000
        &&& self.max_response_bytes == 1_048_576
        &&& self.max_redirects == 5
        &&& self.request_timeout_ms == 15_000
        &&& self.max_concurrency == 2
        &&& self.per_host_delay_ms == 1_000
        &&& !self.browser_fallback_enabled
        &&& self.browser_timeout_secs == 45
        &&& self.max_pages == 6
        &&& self.max_depth == 1
        &&& self.research_wall_clock_secs == 90
        &&& self.cache_ttl_serp_secs == 3_600
        &&& self.cache_ttl_page_secs == 604_800
    }

    /// Whether these are what the settings come to: each value that is set and within its
    /// bounds, and the default for any other.
    pub open spec fn is_compiled_from(&self, c: WebResearchSettingsContent) -> bool {
        &&& self.enabled == flag(c.enabled, true)
        &&& self.preferred_provider@ == match c.preferred_provider {
            Some(p) => provider_name(p@),
            None => "local"@,
        }
        &&& self.max_search_results == bounded(int_of_usize(c.max_search_results), 1, 20, 5)
        &&& self.max_snippet_chars == bounded(int_of_usize(c.max_snippet_chars), 80, 2_000, 300)
        &&& self.max_fetch_chars == bounded(
            int_of_usize(c.max_fetch_chars),
            1_000,
            100_000,
            12_000,
        )
        &&& self.max_response_bytes == bounded(
            int_of_u64(c.max_response_bytes),
            16_384,
            8_388_608,
            1_048_576,
        )
        &&& self.max_redirects == match c.max_redirects {
            Some(n) if n <= 20 => n as int,
            _ => 5,
        }
        &&& self.request_timeout_ms == bounded(
            int_of_u64(c.request_timeout_ms),
            1_000,
            120_000,
            15_000,
        )
        &&& self.max_concurrency == bounded(int_of_usize(c.max_concurrency), 1, 8, 2)
        &&& self.per_host_delay_ms == bounded(int_of_u64(c.per_host_delay_ms), 0, 30_000, 1_000)
        &&& self.browser_fallback_enabled == flag(c.browser_fallback_enabled, false)
        &&& self.browser_timeout_secs == bounded(int_of_u64(c.browser_timeout_secs), 5, 180, 45)
        &&& self.max_pages == bounded(int_of_usize(c.max_pages), 1, 12, 6)
        &&& self.max_depth == bounded(int_of_usize(c.max_depth), 0, 3, 1)
        &&& self.research_wall_clock_secs == bounded(
            int_of_u64(c.research_wall_clock_secs),
            15,
            300,
            90,
        )
        &&& self.cache_ttl_serp_secs == bounded(
            int_of_u64(c.cache_ttl_serp_secs),
            60,
            86_400,
            3_600,
        )
        &&& self.cache_ttl_page_secs == bounded(
            int_of_u64(c.cache_ttl_page_secs),
            300,
            2_592_000,
            604_800,
        )
    }
}

impl Default for WebResearchSettings {
    fn default() -> (r: Self)
        ensures
            r.is_default(),
    {
        WebResearchSettings {
            enabled: true,
            preferred_provider: "local".to_string(),
            max_search_results: 5,
            max_snippet_chars: 300,
            max_fetch_chars: 12_000,
            max_response_bytes: 1_048_576,
            max_redirects: 5,
            request_timeout_ms: 15_000,
            max_concurrency: 2,
            per_host_delay_ms: 1_000,
            browser_fallback_enabled: false,
            browser_timeout_secs: 45,
            max_pages: 6,
            max_depth: 1,
            research_wall_clock_secs: 90,
            cache_ttl_serp_secs: 3_600,
            cache_ttl_page_secs: 604_800,
        }
    }
}

/// The search provider that a user means; anything unknown means the local one.
pub open spec fn provider_name(value: Seq<char>) -> Seq<char> {
    let v = ascii_lower(trim(value));
    if v == "cloud"@ || v == "auto"@ {
        v
    } else {
        "local"@
    }
}

fn provider_name_of(value: &str) -> (r: String)
    ensures
        r@ == provider_name(value@),
{
    let v = ascii_lower_str(trim_str(value).as_str());
    if str_eq(v.as_str(), "cloud") || str_eq(v.as_str(), "auto") {
        v
    } else {
        "local".to_string()
    }
}

pub fn compile_web_research_settings(content: Option<WebResearchSettingsContent>) -> (r:
    WebResearchSettings)
    ensures
        match content {
            Some(c) => r.is_compiled_from(c),
            None => r.is_default(),
        },
{
    let c = match content {
        Some(c) => c,
        None => {
            return WebResearchSettings::default();
        },
    };
    WebResearchSettings {
        enabled: flag_or(c.enabled, true),
        preferred_provider: match &c.preferred_provider {
            Some(p) => provider_name_of(p.as_str()),
            None => "local".to_string(),
        },
        max_search_results: bounded_usize(c.max_search_results, 1, 20, 5),
        max_snippet_chars: bounded_usize(c.max_snippet_chars, 80, 2_000, 300),
        max_fetch_chars: bounded_usize(c.max_fetch_chars, 1_000, 100_000, 12_000),
        max_response_bytes: bounded_u64(c.max_response_bytes, 16_384, 8_388_608, 1_048_576),
        max_redirects: match c.max_redirects {
            Some(n) => if n <= 20 {
                n
            } else {
                5
            },
            None => 5,
        },
        request_timeout_ms: bounded_u64(c.request_timeout_ms, 1_000, 120_000, 15_000),
        max_concurrency: bounded_usize(c.max_concurrency, 1, 8, 2),
        per_host_delay_ms: bounded_u64(c.per_host_delay_ms, 0, 30_000, 1_000),
        browser_fallback_enabled: flag_or(c.browser_fallback_enabled, false),
        browser_timeout_secs: bounded_u64(c.browser_timeout_secs, 5, 180, 45),
        max_pages: bounded_usize(c.max_pages, 1, 12, 6),
        max_depth: bounded_usize(c.max_depth, 0, 3, 1),
        research_wall_clock_secs: bounded_u64(c.research_wall_clock_secs, 15, 300, 90),
        cache_ttl_serp_secs: bounded_u64(c.cache_ttl_serp_secs, 60, 86_400, 3_600),
        cache_ttl_page_secs: bounded_u64(c.cache_ttl_page_secs, 300, 2_592_000, 604_800),
    }
}

// ---------------------------------------------------------------------------
// Repetition
// ---------------------------------------------------------------------------

#[derive(Clone, Copy, Debug, PartialEq, Eq, Structural)]
pub struct AntiLoopSettings {
    pub enabled: bool,
    pub max_recoveries_per_turn: usize,
    pub min_block_chars: usize,
    pub max_block_chars: usize,
    pub min_repeats: usize,
    pub min_text_chars_before_trip: usize,
    pub watch_thinking: bool,
    pub thinking_min_block_chars: usize,
    pub thinking_max_block_chars: usize,
    pub thinking_min_repeats: usize,
    pub thinking_min_text_chars_before_trip: usize,
}

impl AntiLoopSettings {
    pub open spec fn defaults() -> Self {
        AntiLoopSettings {
            enabled: true,
            max_recoveries_per_turn: 1,
            min_block_chars: 64,
            max_block_chars: 1_024,
            min_repeats: 3,
            min_text_chars_before_trip: 256,
            watch_thinking: true,
            thinking_min_block_chars: 128,
            thinking_max_block_chars: 1_024,
            thinking_min_repeats: 4,
            thinking_min_text_chars_before_trip: 512,
        }
    }
}

impl Default for AntiLoopSettings {
    fn default() -> (r: Self)
        ensures
            r == AntiLoopSettings::defaults(),
    {
        AntiLoopSettings {
            enabled: true,
            max_recoveries_per_turn: 1,
            min_block_chars: 64,
            max_block_chars: 1_024,
            min_repeats: 3,
            min_text_chars_before_trip: 256,
            watch_thinking: true,
            thinking_min_block_chars: 128,
            thinking_max_block_chars: 1_024,
            thinking_min_repeats: 4,
            thinking_min_text_chars_before_trip: 512,
        }
    }
}

/// The characters that the detector of repetitions looks at.
pub const ROLLING_WINDOW_CHARS: usize = 16_384;

pub const MAX_BLOCK_CHARS_LIMIT: usize = 4_096;

pub const MAX_RECOVERIES_LIMIT: usize = 3;

pub const MAX_REPEATS_LIMIT: usize = 8;

/// How blocks are looked for in one kind of text.
#[derive(Clone, Copy, Debug, PartialEq, Eq, Structural)]
pub struct BlockBounds {
    pub min_block_chars: usize,
    pub max_block_chars: usize,
    pub min_repeats: usize,
    pub min_text_chars_before_trip: usize,
}

pub open spec fn larger(a: int, b: int) -> int {
    if a >= b {
        a
    } else {
        b
    }
}

pub open spec fn smaller(a: int, b: int) -> int {
    if a <= b {
        a
    } else {
        b
    }
}

/// Whether `r` is what the settings come to: values within their bounds, where a block fits the
/// window as often as it must repeat, and the text is long enough for a repetition. A value that is
/// out of bounds gives way to the default.
pub open spec fn is_bounds_for(
    r: BlockBounds,
    min_repeats: Option<usize>,
    min_block: Option<usize>,
    max_block: Option<usize>,
    min_text: Option<usize>,
    defaults: BlockBounds,
) -> bool {
    let fitting = ROLLING_WINDOW_CHARS as int / r.min_repeats as int;
    let needed = r.min_block_chars * r.min_repeats;
    &&& r.min_repeats == bounded(
        int_of_usize(min_repeats),
        2,
        MAX_REPEATS_LIMIT as int,
        defaults.min_repeats as int,
    )
    &&& r.min_block_chars == bounded(
        int_of_usize(min_block),
        16,
        smaller(MAX_BLOCK_CHARS_LIMIT as int, fitting),
        defaults.min_block_chars as int,
    )
    &&& r.max_block_chars == bounded(
        int_of_usize(max_block),
        r.min_block_chars as int,
        smaller(MAX_BLOCK_CHARS_LIMIT as int, fitting),
        smaller(larger(defaults.max_block_chars as int, r.min_block_chars as int), fitting),
    )
    &&& r.min_text_chars_before_trip == match min_text {
        Some(n) if n >= needed => n as int,
        _ => larger(defaults.min_text_chars_before_trip as int, needed),
    }
}

fn compile_bounds(
    min_repeats: Option<usize>,
    min_block: Option<usize>,
    max_block: Option<usize>,
    min_text: Option<usize>,
    defaults: BlockBounds,
) -> (r: BlockBounds)
    requires
        2 <= defaults.min_repeats <= MAX_REPEATS_LIMIT,
        16 <= defaults.min_block_chars <= ROLLING_WINDOW_CHARS / MAX_REPEATS_LIMIT,
    ensures
        is_bounds_for(r, min_repeats, min_block, max_block, min_text, defaults),
{
    let repeats: usize = bounded_usize(min_repeats, 2, MAX_REPEATS_LIMIT, defaults.min_repeats);
    let fitting: usize = ROLLING_WINDOW_CHARS / repeats;
    proof {
        lemma_fitting(repeats as int);
    }
    let block: usize = bounded_usize(
        min_block,
        16,
        min_usize(MAX_BLOCK_CHARS_LIMIT, fitting),
        defaults.min_block_chars,
    );
    assert(block * repeats <= 4_096 * 8) by (nonlinear_arith)
        requires
            0 <= block <= 4_096,
            0 <= repeats <= 8,
    ;
    let needed: usize = block * repeats;
    BlockBounds {
        min_block_chars: block,
        max_block_chars: bounded_usize(
            max_block,
            block,
            min_usize(MAX_BLOCK_CHARS_LIMIT, fitting),
            min_usize(max_usize(defaults.max_block_chars, block), fitting),
        ),
        min_repeats: repeats,
        min_text_chars_before_trip: match min_text {
            Some(n) => if n >= needed {
                n
            } else {
                max_usize(defaults.min_text_chars_before_trip, needed)
            },
            None => max_usize(defaults.min_text_chars_before_trip, needed),
        },
    }
}

impl AntiLoopSettings {
    /// How blocks are looked for in answers.
    pub open spec fn text_bounds(&self) -> BlockBounds {
        BlockBounds {
            min_block_chars: self.min_block_chars,
            max_block_chars: self.max_block_chars,
            min_repeats: self.min_repeats,
            min_text_chars_before_trip: self.min_text_chars_before_trip,
        }
    }

    /// How blocks are looked for in what the model thinks.
    pub open spec fn thinking_bounds(&self) -> BlockBounds {
        BlockBounds {
            min_block_chars: self.thinking_min_block_chars,
            max_block_chars: self.thinking_max_block_chars,
            min_repeats: self.thinking_min_repeats,
            min_text_chars_before_trip: self.thinking_min_text_chars_before_trip,
        }
    }

    pub open spec fn is_compiled_from(&self, c: AntiLoopSettingsContent) -> bool {
        &&& self.enabled == flag(c.enabled, true)
        &&& self.max_recoveries_per_turn == bounded(
            int_of_usize(c.max_recoveries_per_turn),
            0,
            MAX_RECOVERIES_LIMIT as int,
            1,
        )
        &&& self.watch_thinking == flag(c.watch_thinking, true)
        &&& is_bounds_for(
            self.text_bounds(),
            c.min_repeats,
            c.min_block_chars,
            c.max_block_chars,
            c.min_text_chars_before_trip,
            Self::defaults().text_bounds(),
        )
        &&& is_bounds_for(
            self.thinking_bounds(),
            c.thinking_min_repeats,
            c.thinking_min_block_chars,
            c.thinking_max_block_chars,
            c.thinking_min_text_chars_before_trip,
            Self::defaults().thinking_bounds(),
        )
    }
}

pub fn compile_anti_loop_settings(content: Option<AntiLoopSettingsContent>) -> (r: AntiLoopSettings)
    ensures
        match content {
            Some(c) => r.is_compiled_from(c),
            None => r == AntiLoopSettings::defaults(),
        },
{
    let c = match content {
        Some(c) => c,
        None => {
            return AntiLoopSettings::default();
        },
    };
    let text = compile_bounds(
        c.min_repeats,
        c.min_block_chars,
        c.max_block_chars,
        c.min_text_chars_before_trip,
        BlockBounds {
            min_block_chars: 64,
            max_block_chars: 1_024,
            min_repeats: 3,
            min_text_chars_before_trip: 256,
        },
    );
    let thinking = compile_bounds(
        c.thinking_min_repeats,
        c.thinking_min_block_chars,
        c.thinking_max_block_chars,
        c.thinking_min_text_chars_before_trip,
        BlockBounds {
            min_block_chars: 128,
            max_block_chars: 1_024,
            min_repeats: 4,
            min_text_chars_before_trip: 512,
        },
    );
    AntiLoopSettings {
        enabled: flag_or(c.enabled, true),
        max_recoveries_per_turn: bounded_usize(
            c.max_recoveries_per_turn,
            0,
            MAX_RECOVERIES_LIMIT,
            1,
        ),
        min_block_chars: text.min_block_chars,
        max_block_chars: text.max_block_chars,
        min_repeats: text.min_repeats,
        min_text_chars_before_trip: text.min_text_chars_before_trip,
        watch_thinking: flag_or(c.watch_thinking, true),
        thinking_min_block_chars: thinking.min_block_chars,
        thinking_max_block_chars: thinking.max_block_chars,
        thinking_min_repeats: thinking.min_repeats,
        thinking_min_text_chars_before_trip: thinking.min_text_chars_before_trip,
    }
}

/// The compiled settings never ask for a block that the detector's window cannot hold as often
/// as it must repeat, nor for text that is too short to hold the repetition.
pub proof fn lemma_anti_loop_fits_window(r: AntiLoopSettings, c: AntiLoopSettingsContent)
    requires
        r.is_compiled_from(c),
    ensures
        r.min_block_chars <= r.max_block_chars,
        r.max_block_chars * r.min_repeats <= ROLLING_WINDOW_CHARS,
        r.min_text_chars_before_trip >= r.min_block_chars * r.min_repeats,
        r.thinking_min_block_chars <= r.thinking_max_block_chars,
        r.thinking_max_block_chars * r.thinking_min_repeats <= ROLLING_WINDOW_CHARS,
        r.thinking_min_text_chars_before_trip >= r.thinking_min_block_chars
            * r.thinking_min_repeats,
{
    lemma_bounds_fit_window(
        r.text_bounds(),
        c.min_repeats,
        c.min_block_chars,
        c.max_block_chars,
        c.min_text_chars_before_trip,
        AntiLoopSettings::defaults().text_bounds(),
    );
    lemma_bounds_fit_window(
        r.thinking_bounds(),
        c.thinking_min_repeats,
        c.thinking_min_block_chars,
        c.thinking_max_block_chars,
        c.thinking_min_text_chars_before_trip,
        AntiLoopSettings::defaults().thinking_bounds(),
    );
}

proof fn lemma_bounds_fit_window(
    r: BlockBounds,
    min_repeats: Option<usize>,
    min_block: Option<usize>,
    max_block: Option<usize>,
    min_text: Option<usize>,
    defaults: BlockBounds,
)
    requires
        is_bounds_for(r, min_repeats, min_block, max_block, min_text, defaults),
        2 <= defaults.min_repeats <= MAX_REPEATS_LIMIT,
        16 <= defaults.min_block_chars <= ROLLING_WINDOW_CHARS / MAX_REPEATS_LIMIT,
    ensures
        r.min_block_chars <= r.max_block_chars,
        r.max_block_chars * r.min_repeats <= ROLLING_WINDOW_CHARS,
        r.min_text_chars_before_trip >= r.min_block_chars * r.min_repeats,
{
    let m = r.min_repeats as int;
    let q = ROLLING_WINDOW_CHARS as int / m;
    lemma_fitting(m);
    assert(r.max_block_chars * m <= q * m) by (nonlinear_arith)
        requires
            r.max_block_chars <= q,
            m >= 2,
    ;
}

/// The largest block that fits the window as often as it must repeat.
proof fn lemma_fitting(repeats: int)
    requires
        2 <= repeats <= MAX_REPEATS_LIMIT,
    ensures
        ROLLING_WINDOW_CHARS as int / MAX_REPEATS_LIMIT as int <= ROLLING_WINDOW_CHARS as int
            / repeats,
        (ROLLING_WINDOW_CHARS as int / repeats) * repeats <= ROLLING_WINDOW_CHARS,
{
    vstd::arithmetic::div_mod::lemma_div_is_ordered_by_denominator(
        ROLLING_WINDOW_CHARS as int,
        repeats,
        MAX_REPEATS_LIMIT as int,
    );
    vstd::arithmetic::div_mod::lemma_fundamental_div_mod(ROLLING_WINDOW_CHARS as int, repeats);
    vstd::arithmetic::mul::lemma_mul_is_commutative(
        ROLLING_WINDOW_CHARS as int / repeats,
        repeats,
    );
}

// ---------------------------------------------------------------------------
// Rolling over into a fresh thread
// ---------------------------------------------------------------------------

/// One half, one tenth and nineteen twentieths in single precision.
pub const DEFAULT_CONTEXT_FRACTION: u32 = 0x3f00_0000;

pub const MIN_CONTEXT_FRACTION: u32 = 0x3dcc_cccd;

pub const MAX_CONTEXT_FRACTION: u32 = 0x3f73_3333;

/// When a conversation is carried over into a fresh thread: once it fills this share of the
/// model's window.
#[derive(Clone, Copy, Debug, PartialEq, Eq, Structural)]
pub struct AutoThreadRollover {
    pub enabled: bool,
    pub context_fraction: SingleBits,
}

impl Default for AutoThreadRollover {
    fn default() -> (r: Self)
        ensures
            r.enabled,
            r.context_fraction == SingleBits(DEFAULT_CONTEXT_FRACTION),
    {
        AutoThreadRollover {
            enabled: true,
            context_fraction: SingleBits(DEFAULT_CONTEXT_FRACTION),
        }
    }
}

/// A single-precision number, moved between one tenth and nineteen twentieths; what is no number
/// stays as it is. Numbers of one sign are ordered as their bits are.
pub open spec fn clamped_fraction(bits: u32) -> u32 {
    let is_nan = bits % 0x8000_0000 > 0x7f80_0000;
    let is_negative = bits >= 0x8000_0000;
    if is_nan {
        bits
    } else if is_negative || bits < MIN_CONTEXT_FRACTION {
        MIN_CONTEXT_FRACTION
    } else if bits > MAX_CONTEXT_FRACTION {
        MAX_CONTEXT_FRACTION
    } else {
        bits
    }
}

fn clamp_fraction(bits: u32) -> (r: u32)
    ensures
        r == clamped_fraction(bits),
{
    if bits % 0x8000_0000 > 0x7f80_0000 {
        bits
    } else if bits >= 0x8000_0000 || bits < MIN_CONTEXT_FRACTION {
        MIN_CONTEXT_FRACTION
    } else if bits > MAX_CONTEXT_FRACTION {
        MAX_CONTEXT_FRACTION
    } else {
        bits
    }
}

impl AutoThreadRollover {
    pub open spec fn is_compiled_from(&self, content: Option<AutoThreadRolloverContent>) -> bool {
        &&& self.enabled == match content {
            Some(c) => flag(c.enabled, true),
            None => true,
        }
        &&& self.context_fraction.0 == match content {
            Some(AutoThreadRolloverContent { context_fraction: Some(f), .. }) => clamped_fraction(
                f.0,
            ),
            _ => DEFAULT_CONTEXT_FRACTION,
        }
    }
}

pub fn compile_auto_thread_rollover(content: Option<AutoThreadRolloverContent>) -> (r:
    AutoThreadRollover)
    ensures
        r.is_compiled_from(content),
{
    match content {
        Some(c) => AutoThreadRollover {
            enabled: flag_or(c.enabled, true),
            context_fraction: match c.context_fraction {
                Some(f) => SingleBits(clamp_fraction(f.0)),
                None => SingleBits(DEFAULT_CONTEXT_FRACTION),
            },
        },
        None => AutoThreadRollover::default(),
    }
}

// ---------------------------------------------------------------------------
// The network agent and its workers
// ---------------------------------------------------------------------------

/// How the network model hands work to the local one.
#[derive(Clone, Copy, Debug, PartialEq, Eq, Structural)]
pub enum NetworkAgentDelegationMode {
    /// Tools that do heavy work are hidden from the main thread.
    Balanced,
    /// The main thread keeps all tools.
    Manual,
}

impl Default for NetworkAgentDelegationMode {
    fn default() -> (r: Self)
        ensures
            r == NetworkAgentDelegationMode::Balanced,
    {
        NetworkAgentDelegationMode::Balanced
    }
}

impl NetworkAgentDelegationMode {
    pub open spec fn parsed(value: Seq<char>) -> Self {
        if ascii_lower(trim(value)) == "manual"@ {
            NetworkAgentDelegationMode::Manual
        } else {
            NetworkAgentDelegationMode::Balanced
        }
    }

    pub open spec fn name(self) -> Seq<char> {
        match self {
            NetworkAgentDelegationMode::Balanced => "balanced"@,
            NetworkAgentDelegationMode::Manual => "manual"@,
        }
    }

    pub fn parse(value: &str) -> (r: Self)
        ensures
            r == Self::parsed(value@),
    {
        if str_eq(ascii_lower_str(trim_str(value).as_str()).as_str(), "manual") {
            NetworkAgentDelegationMode::Manual
        } else {
            NetworkAgentDelegationMode::Balanced
        }
    }

    pub fn as_str(self) -> (r: &'static str)
        ensures
            r@ == self.name(),
    {
        match self {
            NetworkAgentDelegationMode::Balanced => "balanced",
            NetworkAgentDelegationMode::Manual => "manual",
        }
    }

    /// A mode is read back from its name.
    pub proof fn lemma_parse_name(self)
        ensures
            Self::parsed(self.name()) == self,
    {
        reveal_strlit("balanced");
        reveal_strlit("manual");
        lemma_plain_word("balanced"@);
        lemma_plain_word("manual"@);
        assert("balanced"@.len() != "manual"@.len());
    }
}

/// A word of lower-case letters and underscores is not changed by trimming and lowering.
proof fn lemma_plain_word(s: Seq<char>)
    requires
        s.len() > 0,
        forall|i: int| 0 <= i < s.len() ==> ('a' <= #[trigger] s[i] <= 'z') || s[i] == '_',
    ensures
        ascii_lower(trim(s)) == s,
{
    assert(!crate::text::is_ws(s[0]));
    assert(!crate::text::is_ws(s.last()));
    assert(crate::text::trim_start(s) == s);
    assert(crate::text::trim_end(s) == s);
    assert(ascii_lower(s) =~= s);
}

/// How work is spread over the workers.
#[derive(Clone, Copy, Debug, PartialEq, Eq, Structural)]
pub enum WorkerScheduling {
    /// The first worker with room, else the one with the least load.
    Pool,
    RoundRobin,
    LeastBusy,
}

impl Default for WorkerScheduling {
    fn default() -> (r: Self)
        ensures
            r == WorkerScheduling::LeastBusy,
    {
        WorkerScheduling::LeastBusy
    }
}

impl WorkerScheduling {
    pub open spec fn parsed(value: Seq<char>) -> Self {
        let v = ascii_lower(trim(value));
        if v == "pool"@ {
            WorkerScheduling::Pool
        } else if v == "round_robin"@ || v == "round-robin"@ {
            WorkerScheduling::RoundRobin
        } else {
            WorkerScheduling::LeastBusy
        }
    }

    pub open spec fn name(self) -> Seq<char> {
        match self {
            WorkerScheduling::Pool => "pool"@,
            WorkerScheduling::RoundRobin => "round_robin"@,
            WorkerScheduling::LeastBusy => "least_busy"@,
        }
    }

    pub fn parse(value: &str) -> (r: Self)
        ensures
            r == Self::parsed(value@),
    {
        let v = ascii_lower_str(trim_str(value).as_str());
        if str_eq(v.as_str(), "pool") {
            WorkerScheduling::Pool
        } else if str_eq(v.as_str(), "round_robin") || str_eq(v.as_str(), "round-robin") {
            WorkerScheduling::RoundRobin
        } else {
            WorkerScheduling::LeastBusy
        }
    }

    pub fn as_str(self) -> (r: &'static str)
        ensures
            r@ == self.name(),
    {
        match self {
            WorkerScheduling::Pool => "pool",
            WorkerScheduling::RoundRobin => "round_robin",
            WorkerScheduling::LeastBusy => "least_busy",
        }
    }

    /// A way of scheduling is read back from its name.
    pub proof fn lemma_parse_name(self)
        ensures
            Self::parsed(self.name()) == self,
    {
        reveal_strlit("pool");
        reveal_strlit("round_robin");
        reveal_strlit("round-robin");
        reveal_strlit("least_busy");
        lemma_plain_word("pool"@);
        lemma_plain_word("round_robin"@);
        lemma_plain_word("least_busy"@);
        assert("least_busy"@[0] == 'l');
        assert("round_robin"@[0] == 'r');
        assert("pool"@[0] == 'p');
        assert("round-robin"@[0] == 'r');
    }
}

#[derive(Debug, PartialEq)]
pub struct NetworkAgentWorkerEndpoint {
    pub id: String,
    pub provider: LanguageModelProviderSetting,
    pub model: String,
    pub max_concurrent: u32,
    pub enabled: bool,
}

impl Clone for NetworkAgentWorkerEndpoint {
    fn clone(&self) -> (r: Self)
        ensures
            r == *self,
    {
        NetworkAgentWorkerEndpoint {
            id: self.id.clone(),
            provider: self.provider.clone(),
            model: self.model.clone(),
            max_concurrent: self.max_concurrent,
            enabled: self.enabled,
        }
    }
}

#[derive(Clone, Debug, PartialEq)]
pub struct NetworkAgentWorkers {
    pub scheduling: WorkerScheduling,
    pub max_workers: u32,
    pub include_default_model: bool,
    pub endpoints: Vec<NetworkAgentWorkerEndpoint>,
}

impl Default for NetworkAgentWorkers {
    fn default() -> (r: Self)
        ensures
            r.scheduling == WorkerScheduling::LeastBusy,
            r.max_workers == 10,
            r.include_default_model,
            r.endpoints@.len() == 0,
    {
        NetworkAgentWorkers {
            scheduling: WorkerScheduling::default(),
            max_workers: 10,
            include_default_model: true,
            endpoints: Vec::new(),
        }
    }
}

/// The endpoints that are enabled.
pub open spec fn enabled_endpoints(
    endpoints: Seq<NetworkAgentWorkerEndpoint>,
) -> Seq<NetworkAgentWorkerEndpoint>
    decreases endpoints.len(),
{
    if endpoints.len() == 0 {
        Seq::empty()
    } else {
        let before = enabled_endpoints(endpoints.drop_last());
        if endpoints.last().enabled {
            before.push(endpoints.last())
        } else {
            before
        }
    }
}

/// An endpoint, as its characters and numbers.
pub struct EndpointView {
    pub id: Seq<char>,
    pub provider: Seq<char>,
    pub model: Seq<char>,
    pub max_concurrent: u32,
    pub enabled: bool,
}

impl View for NetworkAgentWorkerEndpoint {
    type V = EndpointView;

    open spec fn view(&self) -> EndpointView {
        EndpointView {
            id: self.id@,
            provider: self.provider.0@,
            model: self.model@,
            max_concurrent: self.max_concurrent,
            enabled: self.enabled,
        }
    }
}

pub open spec fn endpoint_views(endpoints: Seq<NetworkAgentWorkerEndpoint>) -> Seq<EndpointView> {
    endpoints.map_values(|e: NetworkAgentWorkerEndpoint| e@)
}

/// The endpoint that stands for the default model.
pub open spec fn default_endpoint(model: LanguageModelSelection) -> EndpointView {
    EndpointView {
        id: "default"@,
        provider: model.provider.0@,
        model: model.model@,
        max_concurrent: 1,
        enabled: true,
    }
}

/// How many workers there are at most: what is set, but not more than ten.
pub open spec fn worker_limit(max_workers: u32) -> int {
    smaller(max_workers as int, 10)
}

impl NetworkAgentWorkers {
    /// The endpoints to use: those that are enabled, behind the default model where it takes
    /// part, and not more than the limit.
    pub open spec fn resolved(&self, default_model: Option<LanguageModelSelection>) -> Seq<
        EndpointView,
    > {
        let enabled = endpoint_views(enabled_endpoints(self.endpoints@));
        let all = match default_model {
            Some(model) if self.include_default_model => seq![default_endpoint(model)] + enabled,
            _ => enabled,
        };
        all.take(smaller(all.len() as int, worker_limit(self.max_workers)))
    }

    /// Whether a worker endpoint is enabled.
    pub fn is_active(&self) -> (r: bool)
        ensures
            r == (enabled_endpoints(self.endpoints@).len() > 0),
    {
        self.collect_enabled().len() > 0
    }

    fn collect_enabled(&self) -> (r: Vec<NetworkAgentWorkerEndpoint>)
        ensures
            r@ == enabled_endpoints(self.endpoints@),
    {
        let mut r: Vec<NetworkAgentWorkerEndpoint> = Vec::new();
        let mut i: usize = 0;
        assert(self.endpoints@.take(0) =~= Seq::<NetworkAgentWorkerEndpoint>::empty());
        while i < self.endpoints.len()
            invariant
                i <= self.endpoints@.len(),
                r@ == enabled_endpoints(self.endpoints@.take(i as int)),
            decreases self.endpoints@.len() - i,
        {
            assert(self.endpoints@.take(i + 1).drop_last() =~= self.endpoints@.take(i as int));
            assert(self.endpoints@.take(i + 1).last() == self.endpoints@[i as int]);
            if self.endpoints[i].enabled {
                r.push(self.endpoints[i].clone());
            }
            i = i + 1;
        }
        assert(self.endpoints@.take(self.endpoints@.len() as int) =~= self.endpoints@);
        r
    }

    /// The endpoints to use.
    pub fn resolved_endpoints(&self, default_model: &Option<LanguageModelSelection>) -> (r: Vec<
        NetworkAgentWorkerEndpoint,
    >)
        ensures
            endpoint_views(r@) == self.resolved(*default_model),
    {
        let mut endpoints = self.collect_enabled();
        if self.include_default_model {
            match default_model {
                Some(model) => {
                    endpoints.insert(
                        0,
                        NetworkAgentWorkerEndpoint {
                            id: "default".to_string(),
                            provider: model.provider.clone(),
                            model: model.model.clone(),
                            max_concurrent: 1,
                            enabled: true,
                        },
                    );
                },
                None => {},
            }
        }
        let limit: usize = if self.max_workers > 10 {
            10
        } else {
            self.max_workers as usize
        };
        let ghost all = endpoints@;
        endpoints.truncate(limit);
        proof {
            let enabled = endpoint_views(enabled_endpoints(self.endpoints@));
            if default_model is Some && self.include_default_model {
                assert(endpoint_views(all) =~= seq![default_endpoint(default_model->0)] + enabled);
            } else {
                assert(endpoint_views(all) =~= enabled);
            }
            assert(endpoint_views(endpoints@) =~= self.resolved(*default_model));
        }
        endpoints
    }

    /// Whether these are what the settings come to: the endpoints that have an id, a provider
    /// and a model, and a limit between one and ten.
    pub open spec fn is_compiled_from(&self, content: Option<NetworkAgentWorkersContent>) -> bool {
        match content {
            Some(c) => {
                &&& self.scheduling == match c.scheduling {
                    Some(s) => WorkerScheduling::parsed(s@),
                    None => WorkerScheduling::LeastBusy,
                }
                &&& self.max_workers == match c.max_workers {
                    Some(n) => larger(worker_limit(n), 1),
                    None => 10,
                }
                &&& self.include_default_model == flag(c.include_default_model, true)
                &&& self.endpoints@ == complete_endpoints(
                    match c.endpoints {
                        Some(e) => e@,
                        None => Seq::empty(),
                    },
                )
            },
            None => {
                &&& self.scheduling == WorkerScheduling::LeastBusy
                &&& self.max_workers == 10
                &&& self.include_default_model
                &&& self.endpoints@.len() == 0
            },
        }
    }
}

/// Whether a name is given and not blank.
pub open spec fn is_given(name: Option<String>) -> bool {
    name matches Some(n) && trim(n@).len() > 0
}

/// The endpoints that are complete.
pub open spec fn complete_endpoints(
    endpoints: Seq<NetworkAgentWorkerEndpointContent>,
) -> Seq<NetworkAgentWorkerEndpoint>
    decreases endpoints.len(),
{
    if endpoints.len() == 0 {
        Seq::empty()
    } else {
        let before = complete_endpoints(endpoints.drop_last());
        let e = endpoints.last();
        if is_given(e.id) && is_given(e.provider) && is_given(e.model) {
            before.push(
                NetworkAgentWorkerEndpoint {
                    id: e.id->0,
                    provider: LanguageModelProviderSetting(e.provider->0),
                    model: e.model->0,
                    max_concurrent: match e.max_concurrent {
                        Some(n) if n > 1 => n,
                        _ => 1,
                    },
                    enabled: flag(e.enabled, true),
                },
            )
        } else {
            before
        }
    }
}

fn given(name: &Option<String>) -> (r: Option<String>)
    ensures
        r is Some <==> is_given(*name),
        r is Some ==> r == *name,
{
    match name {
        Some(n) => if trim_str(n.as_str()).as_str().is_empty() {
            None
        } else {
            Some(n.clone())
        },
        None => None,
    }
}

pub fn compile_network_agent_workers(content: Option<NetworkAgentWorkersContent>) -> (r:
    NetworkAgentWorkers)
    ensures
        r.is_compiled_from(content),
{
    let c = match content {
        Some(c) => c,
        None => {
            return NetworkAgentWorkers::default();
        },
    };
    let max_workers: u32 = match c.max_workers {
        Some(n) => if n < 1 {
            1
        } else if n > 10 {
            10
        } else {
            n
        },
        None => 10,
    };
    let mut endpoints: Vec<NetworkAgentWorkerEndpoint> = Vec::new();
    match &c.endpoints {
        Some(list) => {
            let mut i: usize = 0;
            assert(list@.take(0) =~= Seq::<NetworkAgentWorkerEndpointContent>::empty());
            while i < list.len()
                invariant
                    i <= list@.len(),
                    endpoints@ == complete_endpoints(list@.take(i as int)),
                decreases list@.len() - i,
            {
                let e = &list[i];
                assert(list@.take(i + 1).drop_last() =~= list@.take(i as int));
                assert(list@.take(i + 1).last() == e);
                match (given(&e.id), given(&e.provider), given(&e.model)) {
                    (Some(id), Some(provider), Some(model)) => {
                        endpoints.push(
                            NetworkAgentWorkerEndpoint {
                                id,
                                provider: LanguageModelProviderSetting(provider),
                                model,
                                max_concurrent: match e.max_concurrent {
                                    Some(n) => if n > 1 {
                                        n
                                    } else {
                                        1
                                    },
                                    None => 1,
                                },
                                enabled: flag_or(e.enabled, true),
                            },
                        );
                    },
                    _ => {},
                }
                i = i + 1;
            }
            assert(list@.take(list@.len() as int) =~= list@);
        },
        None => {},
    }
    NetworkAgentWorkers {
        scheduling: match &c.scheduling {
            Some(s) => WorkerScheduling::parse(s.as_str()),
            None => WorkerScheduling::default(),
        },
        max_workers,
        include_default_model: flag_or(c.include_default_model, true),
        endpoints,
    }
}

/// A model served from the network that drives the agent, while the local model does the work
/// that is handed on.
#[derive(Clone, Debug, PartialEq)]
pub struct NetworkAgentSettings {
    pub enabled: bool,
    pub model: Option<String>,
    pub delegation_mode: NetworkAgentDelegationMode,
    pub workers: NetworkAgentWorkers,
}

impl Default for NetworkAgentSettings {
    fn default() -> (r: Self)
        ensures
            r.is_compiled_from(None),
    {
        NetworkAgentSettings {
            enabled: false,
            model: None,
            delegation_mode: NetworkAgentDelegationMode::default(),
            workers: NetworkAgentWorkers::default(),
        }
    }
}

impl NetworkAgentSettings {
    pub open spec fn is_compiled_from(&self, content: Option<NetworkAgentSettingsContent>) -> bool {
        match content {
            Some(c) => {
                &&& self.enabled == is_set(c.enabled)
                &&& self.model == match c.model {
                    Some(m) if m@.len() > 0 => Some(m),
                    _ => None,
                }
                &&& self.delegation_mode == match c.delegation_mode {
                    Some(m) => NetworkAgentDelegationMode::parsed(m@),
                    None => NetworkAgentDelegationMode::Balanced,
                }
                &&& self.workers.is_compiled_from(c.workers)
            },
            None => {
                &&& !self.enabled
                &&& self.model is None
                &&& self.delegation_mode == NetworkAgentDelegationMode::Balanced
                &&& self.workers.is_compiled_from(None)
            },
        }
    }
}

pub fn compile_network_agent(content: Option<NetworkAgentSettingsContent>) -> (r:
    NetworkAgentSettings)
    ensures
        r.is_compiled_from(content),
{
    match content {
        Some(c) => NetworkAgentSettings {
            enabled: flag_or(c.enabled, false),
            model: match c.model {
                Some(m) => if m.as_str().is_empty() {
                    None
                } else {
                    Some(m)
                },
                None => None,
            },
            delegation_mode: match &c.delegation_mode {
                Some(m) => NetworkAgentDelegationMode::parse(m.as_str()),
                None => NetworkAgentDelegationMode::default(),
            },
            workers: compile_network_agent_workers(c.workers),
        },
        None => NetworkAgentSettings::default(),
    }
}

// ---------------------------------------------------------------------------
// All settings
// ---------------------------------------------------------------------------

#[derive(Debug, PartialEq, Eq, Hash)]
pub struct AgentProfileId(pub String);

impl Clone for AgentProfileId {
    fn clone(&self) -> (r: Self)
        ensures
            r == *self,
    {
        AgentProfileId(self.0.clone())
    }
}

impl AgentProfileId {
    pub fn as_str(&self) -> (r: &str)
        ensures
            r@ == self.0@,
    {
        self.0.as_str()
    }
}

impl Default for AgentProfileId {
    fn default() -> (r: Self)
        ensures
            r.0@ == "write"@,
    {
        AgentProfileId("write".to_string())
    }
}

#[derive(Debug)]
pub struct AgentSettings {
    pub enabled: bool,
    pub button: bool,
    pub dock: DockPosition,
    pub starts_open: bool,
    pub flexible: bool,
    pub sidebar_side: SidebarDockPosition,
    pub default_width: SingleBits,
    pub default_height: SingleBits,
    pub max_content_width: Option<SingleBits>,
    pub default_model: Option<LanguageModelSelection>,
    pub subagent_model: Option<LanguageModelSelection>,
    pub inline_assistant_model: Option<LanguageModelSelection>,
    pub inline_assistant_use_streaming_tools: bool,
    pub commit_message_model: Option<LanguageModelSelection>,
    pub commit_message_instructions: Option<String>,
    pub thread_summary_model: Option<LanguageModelSelection>,
    pub inline_alternatives: Vec<LanguageModelSelection>,
    pub favorite_models: Vec<LanguageModelSelection>,
    pub default_profile: AgentProfileId,
    pub profiles: Assoc<AgentProfileContent>,
    pub notify_when_agent_waiting: NotifyWhenAgentWaiting,
    pub play_sound_when_agent_done: PlaySoundWhenAgentDone,
    pub single_file_review: bool,
    pub model_parameters: Vec<LanguageModelParameters>,
    pub enable_feedback: bool,
    pub expand_edit_card: bool,
    pub expand_terminal_card: bool,
    pub thinking_display: ThinkingBlockDisplay,
    pub cancel_generation_on_terminal_stop: bool,
    pub use_modifier_to_send: bool,
    pub message_editor_min_lines: usize,
    pub show_turn_stats: bool,
    pub show_merge_conflict_indicator: bool,
    pub tool_permissions: ToolPermissions,
    pub sandbox_permissions: SandboxPermissions,
    pub full_access: FullAccessSettings,
    pub network_agent: NetworkAgentSettings,
    pub auto_thread_rollover: AutoThreadRollover,
    pub anti_loop: AntiLoopSettings,
    pub web_research: WebResearchSettings,
}

pub const NETWORK_AGENT_PROVIDER_ID: &'static str = "network-agent";

/// What a provider and a model are called together.
pub open spec fn model_label(provider: Seq<char>, model: Seq<char>) -> Seq<char> {
    provider + "/"@ + model
}

fn label_of(provider: &str, model: &str) -> (r: String)
    ensures
        r@ == model_label(provider@, model@),
{
    let mut r = provider.to_string();
    r.append("/");
    r.append(model);
    r
}

/// Whether parameters are meant for a model: what they do not name they leave open.
pub open spec fn are_for(
    p: LanguageModelParameters,
    provider: Seq<char>,
    model: Seq<char>,
) -> bool {
    &&& p.provider matches Some(x) ==> x.0@ == provider
    &&& p.model matches Some(x) ==> x@ == model
}

/// The temperature in the last parameters that are meant for the model.
pub open spec fn temperature_for(
    parameters: Seq<LanguageModelParameters>,
    provider: Seq<char>,
    model: Seq<char>,
) -> Option<SingleBits>
    decreases parameters.len(),
{
    if parameters.len() == 0 {
        None
    } else if are_for(parameters.last(), provider, model) {
        parameters.last().temperature
    } else {
        temperature_for(parameters.drop_last(), provider, model)
    }
}

/// The labels of the models.
pub open spec fn model_labels(models: Seq<LanguageModelSelection>) -> Seq<Seq<char>> {
    models.map_values(|m: LanguageModelSelection| model_label(m.provider.0@, m.model@))
}

/// The labels of the endpoints.
pub open spec fn endpoint_labels(endpoints: Seq<EndpointView>) -> Seq<Seq<char>> {
    endpoints.map_values(|e: EndpointView| model_label(e.provider, e.model))
}

impl AgentSettings {
    /// Whether the agent is enabled, where artificial intelligence is not disabled altogether.
    pub fn enabled(&self, disable_ai: bool) -> (r: bool)
        ensures
            r == (self.enabled && !disable_ai),
    {
        self.enabled && !disable_ai
    }

    pub fn temperature_for_model(&self, provider_id: &str, model_id: &str) -> (r: Option<
        SingleBits,
    >)
        ensures
            r == temperature_for(self.model_parameters@, provider_id@, model_id@),
    {
        let mut i: usize = self.model_parameters.len();
        assert(self.model_parameters@.take(i as int) =~= self.model_parameters@);
        while i > 0
            invariant
                i <= self.model_parameters@.len(),
                temperature_for(
                    self.model_parameters@.take(i as int),
                    provider_id@,
                    model_id@,
                ) == temperature_for(self.model_parameters@, provider_id@, model_id@),
            decreases i,
        {
            let p = &self.model_parameters[i - 1];
            assert(self.model_parameters@.take(i as int).last() == p);
            assert(self.model_parameters@.take(i as int).drop_last()
                =~= self.model_parameters@.take(i - 1));
            let provider_fits = match &p.provider {
                Some(x) => str_eq(x.0.as_str(), provider_id),
                None => true,
            };
            let model_fits = match &p.model {
                Some(x) => str_eq(x.as_str(), model_id),
                None => true,
            };
            if provider_fits && model_fits {
                return p.temperature;
            }
            i = i - 1;
        }
        None
    }

    pub fn sidebar_side(&self) -> (r: SidebarSide)
        ensures
            r == match self.sidebar_side {
                SidebarDockPosition::Left => SidebarSide::Left,
                SidebarDockPosition::Right => SidebarSide::Right,
            },
    {
        match self.sidebar_side {
            SidebarDockPosition::Left => SidebarSide::Left,
            SidebarDockPosition::Right => SidebarSide::Right,
        }
    }

    pub fn set_message_editor_max_lines(&self) -> (r: usize)
        requires
            self.message_editor_min_lines * 2 <= usize::MAX,
        ensures
            r == self.message_editor_min_lines * 2,
    {
        self.message_editor_min_lines * 2
    }

    /// The labels of the favorite models, each once.
    pub fn favorite_model_ids(&self) -> (r: Vec<String>)
        ensures
            views(r@).to_set() == model_labels(self.favorite_models@).to_set(),
            views(r@).no_duplicates(),
    {
        let mut r: Vec<String> = Vec::new();
        let mut i: usize = 0;
        let ghost all = model_labels(self.favorite_models@);
        assert(all.take(0).to_set() =~= Set::<Seq<char>>::empty());
        assert(views(r@).to_set() =~= Set::<Seq<char>>::empty());
        while i < self.favorite_models.len()
            invariant
                i <= self.favorite_models@.len(),
                all == model_labels(self.favorite_models@),
                views(r@).to_set() == all.take(i as int).to_set(),
                views(r@).no_duplicates(),
            decreases self.favorite_models@.len() - i,
        {
            let m = &self.favorite_models[i];
            let label = label_of(m.provider.0.as_str(), m.model.as_str());
            let ghost before = views(r@);
            let ghost text = label@;
            assert(text == all[i as int]);
            assert(all.take(i + 1) =~= all.take(i as int).push(text));
            proof {
                lemma_push_to_set(all.take(i as int), text);
                lemma_push_to_set(before, text);
            }
            if !contains_string(&r, label.as_str()) {
                r.push(label);
                assert(views(r@) =~= before.push(text));
                assert(views(r@).no_duplicates()) by {
                    assert forall|a: int, b: int|
                        0 <= a < b < before.push(text).len() implies before.push(text)[a]
                        != before.push(text)[b] by {
                        if b == before.len() {
                            assert(before.contains(before[a]));
                        }
                    }
                }
            } else {
                assert(before.to_set().contains(text));
                assert(before.to_set().insert(text) =~= before.to_set());
            }
            i = i + 1;
        }
        assert(all.take(all.len() as int) =~= all);
        r
    }

    /// Whether the network agent is switched on and has a model.
    pub open spec fn network_active(&self) -> bool {
        self.network_agent.enabled && self.network_agent.model is Some
    }

    pub fn network_agent_active(&self) -> (r: bool)
        ensures
            r == self.network_active(),
    {
        self.network_agent.enabled && self.network_agent.model.is_some()
    }

    pub fn full_access_enabled(&self) -> (r: bool)
        ensures
            r == self.full_access.enabled,
    {
        self.full_access.enabled
    }

    pub fn network_agent_delegation_mode(&self) -> (r: NetworkAgentDelegationMode)
        ensures
            r == self.network_agent.delegation_mode,
    {
        self.network_agent.delegation_mode
    }

    pub open spec fn local_label(&self) -> Option<Seq<char>> {
        match self.default_model {
            Some(m) => Some(model_label(m.provider.0@, m.model@)),
            None => None,
        }
    }

    /// The label of the model that does the work of subagents.
    pub fn local_worker_model_label(&self) -> (r: Option<String>)
        ensures
            match r {
                Some(l) => self.local_label() == Some(l@),
                None => self.local_label() is None,
            },
    {
        match &self.default_model {
            Some(m) => Some(label_of(m.provider.0.as_str(), m.model.as_str())),
            None => None,
        }
    }

    /// The labels of the workers, if there are any, or of the one local worker where there is no
    /// pool.
    pub fn hybrid_worker_model_label(&self) -> (r: Option<String>)
        ensures
            if self.network_active() && enabled_endpoints(
                self.network_agent.workers.endpoints@,
            ).len() > 0 {
                let endpoints = self.network_agent.workers.resolved(self.default_model);
                match r {
                    Some(l) => endpoints.len() > 0 && l@ == join(
                        endpoint_labels(endpoints),
                        ", "@,
                    ),
                    None => endpoints.len() == 0,
                }
            } else {
                match r {
                    Some(l) => self.local_label() == Some(l@),
                    None => self.local_label() is None,
                }
            },
    {
        if self.network_agent_active() && self.network_agent.workers.is_active() {
            let endpoints = self.network_agent.workers.resolved_endpoints(&self.default_model);
            if endpoints.len() == 0 {
                return None;
            }
            let ghost all = endpoint_labels(endpoint_views(endpoints@));
            let mut labels: Vec<String> = Vec::new();
            let mut i: usize = 0;
            while i < endpoints.len()
                invariant
                    i <= endpoints@.len(),
                    all == endpoint_labels(endpoint_views(endpoints@)),
                    views(labels@) == all.take(i as int),
                decreases endpoints@.len() - i,
            {
                let ghost before = views(labels@);
                labels.push(
                    label_of(endpoints[i].provider.0.as_str(), endpoints[i].model.as_str()),
                );
                assert(views(labels@) =~= before.push(all[i as int]));
                assert(all.take(i + 1) =~= before.push(all[i as int]));
                i = i + 1;
            }
            assert(views(labels@) =~= all);
            Some(join_strs(&labels, ", "))
        } else {
            self.local_worker_model_label()
        }
    }

    /// The model that drives the agent: the network model where it is active, else the default.
    pub fn effective_default_model(&self) -> (r: Option<LanguageModelSelection>)
        ensures
            if self.network_active() {
                r matches Some(m) && m.provider.0@ == NETWORK_AGENT_PROVIDER_ID@ && Some(m.model)
                    == self.network_agent.model && !m.enable_thinking && m.effort is None
                    && m.speed is None
            } else {
                r == self.default_model
            },
    {
        if self.network_agent.enabled {
            match &self.network_agent.model {
                Some(model) => {
                    return Some(
                        LanguageModelSelection {
                            provider: LanguageModelProviderSetting(
                                NETWORK_AGENT_PROVIDER_ID.to_string(),
                            ),
                            model: model.clone(),
                            enable_thinking: false,
                            effort: None,
                            speed: None,
                        },
                    );
                },
                None => {},
            }
        }
        clone_selection(&self.default_model)
    }

    /// The model of subagents: the local default model where the network agent is active.
    pub fn effective_subagent_model(&self) -> (r: Option<LanguageModelSelection>)
        ensures
            r == if self.network_active() {
                self.default_model
            } else {
                self.subagent_model
            },
    {
        if self.network_agent_active() {
            clone_selection(&self.default_model)
        } else {
            clone_selection(&self.subagent_model)
        }
    }
}

proof fn lemma_push_to_set(s: Seq<Seq<char>>, x: Seq<char>)
    ensures
        s.push(x).to_set() == s.to_set().insert(x),
{
    let t = s.push(x);
    assert forall|y: Seq<char>| t.to_set().contains(y) == s.to_set().insert(x).contains(y) by {
        if t.contains(y) {
            let i = choose|i: int| 0 <= i < t.len() && t[i] == y;
            if i < s.len() {
                assert(s[i] == y);
            }
        }
        if s.contains(y) {
            let i = choose|i: int| 0 <= i < s.len() && s[i] == y;
            assert(t[i] == y);
        }
        assert(t[s.len() as int] == x);
    }
    assert(t.to_set() =~= s.to_set().insert(x));
}

fn clone_selection(m: &Option<LanguageModelSelection>) -> (r: Option<LanguageModelSelection>)
    ensures
        r == *m,
{
    match m {
        Some(m) => Some(m.clone()),
        None => None,
    }
}

/// Whether every setting that has no default of its own is set.
pub open spec fn is_complete(c: AgentSettingsContent) -> bool {
    &&& c.enabled is Some
    &&& c.button is Some
    &&& c.dock is Some
    &&& c.starts_open is Some
    &&& c.sidebar_side is Some
    &&& c.default_width is Some
    &&& c.default_height is Some
    &&& c.limit_content_width is Some
    &&& c.flexible is Some
    &&& c.default_model is Some
    &&& c.default_profile is Some
    &&& c.profiles is Some
    &&& c.notify_when_agent_waiting is Some
    &&& c.single_file_review is Some
    &&& c.enable_feedback is Some
    &&& c.expand_edit_card is Some
    &&& c.expand_terminal_card is Some
    &&& c.thinking_display is Some
    &&& c.cancel_generation_on_terminal_stop is Some
    &&& c.use_modifier_to_send is Some
    &&& c.message_editor_min_lines is Some
    &&& c.show_turn_stats is Some
    &&& c.show_merge_conflict_indicator is Some
    &&& c.limit_content_width == Some(true) ==> c.max_content_width is Some
}

impl AgentSettings {
    /// Whether these are what the settings come to.
    pub open spec fn is_compiled_from(&self, c: AgentSettingsContent) -> bool {
        &&& Some(self.enabled) == c.enabled
        &&& Some(self.button) == c.button
        &&& Some(self.dock) == c.dock
        &&& Some(self.starts_open) == c.starts_open
        &&& Some(self.sidebar_side) == c.sidebar_side
        &&& Some(self.default_width) == c.default_width
        &&& Some(self.default_height) == c.default_height
        &&& Some(self.flexible) == c.flexible
        &&& Some(self.notify_when_agent_waiting) == c.notify_when_agent_waiting
        &&& Some(self.single_file_review) == c.single_file_review
        &&& Some(self.enable_feedback) == c.enable_feedback
        &&& Some(self.expand_edit_card) == c.expand_edit_card
        &&& Some(self.expand_terminal_card) == c.expand_terminal_card
        &&& Some(self.thinking_display) == c.thinking_display
        &&& Some(self.cancel_generation_on_terminal_stop) == c.cancel_generation_on_terminal_stop
        &&& Some(self.use_modifier_to_send) == c.use_modifier_to_send
        &&& Some(self.message_editor_min_lines) == c.message_editor_min_lines
        &&& Some(self.show_turn_stats) == c.show_turn_stats
        &&& Some(self.show_merge_conflict_indicator) == c.show_merge_conflict_indicator
        &&& self.subagent_model == c.subagent_model
        &&& self.inline_assistant_model == c.inline_assistant_model
        &&& self.commit_message_model == c.commit_message_model
        &&& self.commit_message_instructions == c.commit_message_instructions
        &&& self.thread_summary_model == c.thread_summary_model
        &&& self.favorite_models == c.favorite_models
        &&& self.model_parameters == c.model_parameters
        &&& self.default_model == c.default_model
        &&& self.max_content_width == if c.limit_content_width == Some(true) {
            c.max_content_width
        } else {
            None
        }
        &&& self.inline_assistant_use_streaming_tools == flag(
            c.inline_assistant_use_streaming_tools,
            true,
        )
        &&& match c.inline_alternatives {
            Some(v) => self.inline_alternatives == v,
            None => self.inline_alternatives@.len() == 0,
        }
        &&& Some(self.default_profile.0) == c.default_profile
        &&& Some(self.profiles) == c.profiles
        &&& self.play_sound_when_agent_done == match c.play_sound_when_agent_done {
            Some(p) => p,
            None => PlaySoundWhenAgentDone::Never,
        }
        &&& match c.tool_permissions {
            Some(t) => {
                &&& self.tool_permissions.default == match t.default {
                    Some(mode) => mode,
                    None => ToolPermissionMode::Confirm,
                }
                &&& self.tool_permissions.tools.entries@.len() == t.tools.entries@.len()
                &&& forall|i: int|
                    0 <= i < t.tools.entries@.len() ==> {
                        &&& (#[trigger] self.tool_permissions.tools.entries@[i]).0@
                            == t.tools.entries@[i].0@
                        &&& compiles_to(
                            t.tools.entries@[i].1,
                            self.tool_permissions.tools.entries@[i].1,
                        )
                    }
            },
            None => self.tool_permissions.default == ToolPermissionMode::Confirm
                && self.tool_permissions.tools.entries@.len() == 0,
        }
        &&& match c.sandbox_permissions {
            Some(s) => {
                &&& self.sandbox_permissions.allow_network == is_set(s.allow_network)
                &&& self.sandbox_permissions.allow_fs_write_all == is_set(s.allow_fs_write_all)
                &&& self.sandbox_permissions.allow_unsandboxed == is_set(s.allow_unsandboxed)
                &&& views(self.sandbox_permissions.write_paths@) == subtrees(
                    path_list(s.write_paths),
                    false,
                )
            },
            None => {
                &&& !self.sandbox_permissions.allow_network
                &&& !self.sandbox_permissions.allow_fs_write_all
                &&& !self.sandbox_permissions.allow_unsandboxed
                &&& self.sandbox_permissions.write_paths@.len() == 0
            },
        }
        &&& match c.full_access {
            Some(f) => {
                &&& self.full_access.enabled == is_set(f.enabled)
                &&& views(self.full_access.allowed_roots@) == subtrees(
                    path_list(f.allowed_roots),
                    true,
                )
                &&& views(self.full_access.denied_roots@) == subtrees(
                    path_list(f.denied_roots),
                    true,
                )
            },
            None => {
                &&& !self.full_access.enabled
                &&& self.full_access.allowed_roots@.len() == 0
                &&& self.full_access.denied_roots@.len() == 0
            },
        }
        &&& self.network_agent.is_compiled_from(c.network_agent)
        &&& self.auto_thread_rollover.is_compiled_from(c.auto_thread_rollover)
        &&& match c.anti_loop {
            Some(a) => self.anti_loop.is_compiled_from(a),
            None => self.anti_loop == AntiLoopSettings::defaults(),
        }
        &&& match c.web_research {
            Some(w) => self.web_research.is_compiled_from(w),
            None => self.web_research.is_default(),
        }
    }

    /// Turns the settings, where each is set that must be, into what the agent works with.
    pub fn from_settings(agent: AgentSettingsContent) -> (r: Self)
        requires
            is_complete(agent),
        ensures
            r.is_compiled_from(agent),
    {
        AgentSettings {
            enabled: agent.enabled.unwrap(),
            button: agent.button.unwrap(),
            dock: agent.dock.unwrap(),
            starts_open: agent.starts_open.unwrap(),
            sidebar_side: agent.sidebar_side.unwrap(),
            default_width: agent.default_width.unwrap(),
            default_height: agent.default_height.unwrap(),
            flexible: agent.flexible.unwrap(),
            notify_when_agent_waiting: agent.notify_when_agent_waiting.unwrap(),
            single_file_review: agent.single_file_review.unwrap(),
            enable_feedback: agent.enable_feedback.unwrap(),
            expand_edit_card: agent.expand_edit_card.unwrap(),
            expand_terminal_card: agent.expand_terminal_card.unwrap(),
            thinking_display: agent.thinking_display.unwrap(),
            cancel_generation_on_terminal_stop: agent.cancel_generation_on_terminal_stop.unwrap(),
            use_modifier_to_send: agent.use_modifier_to_send.unwrap(),
            message_editor_min_lines: agent.message_editor_min_lines.unwrap(),
            show_turn_stats: agent.show_turn_stats.unwrap(),
            show_merge_conflict_indicator: agent.show_merge_conflict_indicator.unwrap(),
            subagent_model: agent.subagent_model,
            inline_assistant_model: agent.inline_assistant_model,
            commit_message_model: agent.commit_message_model,
            commit_message_instructions: agent.commit_message_instructions,
            thread_summary_model: agent.thread_summary_model,
            favorite_models: agent.favorite_models,
            model_parameters: agent.model_parameters,
            max_content_width: if agent.limit_content_width.unwrap() {
                Some(agent.max_content_width.unwrap())
            } else {
                None
            },
            default_model: Some(agent.default_model.unwrap()),
            inline_assistant_use_streaming_tools: flag_or(
                agent.inline_assistant_use_streaming_tools,
                true,
            ),
            inline_alternatives: match agent.inline_alternatives {
                Some(v) => v,
                None => Vec::new(),
            },
            default_profile: AgentProfileId(agent.default_profile.unwrap()),
            profiles: agent.profiles.unwrap(),
            play_sound_when_agent_done: match agent.play_sound_when_agent_done {
                Some(p) => p,
                None => PlaySoundWhenAgentDone::default(),
            },
            tool_permissions: compile_tool_permissions(agent.tool_permissions),
            sandbox_permissions: compile_sandbox_permissions(agent.sandbox_permissions),
            full_access: compile_full_access_settings(agent.full_access),
            network_agent: compile_network_agent(agent.network_agent),
            auto_thread_rollover: compile_auto_thread_rollover(agent.auto_thread_rollover),
            anti_loop: compile_anti_loop_settings(agent.anti_loop),
            web_research: compile_web_research_settings(agent.web_research),
        }
    }
}

/// What a language model says of itself.
pub struct LanguageModelFacts {
    pub provider_id: String,
    pub id: String,
    pub supports_thinking: bool,
    pub supports_fast_mode: bool,
    pub supported_effort_levels: Vec<String>,
    pub default_effort_level: Option<String>,
}

/// Whether `r` selects the model: as it was used before, as far as it can be, or as it is used
/// by default.
pub open spec fn selects(
    r: LanguageModelSelection,
    model: LanguageModelFacts,
    current: Option<LanguageModelSelection>,
) -> bool {
    &&& r.provider.0 == model.provider_id
    &&& r.model == model.id
    &&& match current {
        Some(c) => {
            &&& r.enable_thinking == (c.enable_thinking && model.supports_thinking)
            &&& r.effort == match c.effort {
                Some(e) if views(model.supported_effort_levels@).contains(e@) => Some(e),
                _ => model.default_effort_level,
            }
            &&& r.speed == if model.supports_fast_mode {
                c.speed
            } else {
                None
            }
        },
        None => {
            &&& r.enable_thinking == model.supports_thinking
            &&& r.effort == model.default_effort_level
            &&& r.speed is None
        },
    }
}

fn clone_text(t: &Option<String>) -> (r: Option<String>)
    ensures
        r == *t,
{
    match t {
        Some(t) => Some(t.clone()),
        None => None,
    }
}

pub fn language_model_to_selection(
    model: &LanguageModelFacts,
    override_selection: Option<&LanguageModelSelection>,
) -> (r: LanguageModelSelection)
    ensures
        selects(
            r,
            *model,
            match override_selection {
                Some(c) => Some(*c),
                None => None,
            },
        ),
{
    let provider = LanguageModelProviderSetting(model.provider_id.clone());
    let name = model.id.clone();
    match override_selection {
        Some(current) => {
            let mut effort = clone_text(&model.default_effort_level);
            match &current.effort {
                Some(e) => {
                    if contains_string(&model.supported_effort_levels, e.as_str()) {
                        effort = Some(e.clone());
                    }
                },
                None => {},
            }
            LanguageModelSelection {
                provider,
                model: name,
                enable_thinking: current.enable_thinking && model.supports_thinking,
                effort,
                speed: if model.supports_fast_mode {
                    current.speed
                } else {
                    None
                },
            }
        },
        None => LanguageModelSelection {
            provider,
            model: name,
            enable_thinking: model.supports_thinking,
            effort: clone_text(&model.default_effort_level),
            speed: None,
        },
    }
}

} // verus!
