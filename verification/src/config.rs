//! The voice server's configuration sections as plain values: audio output,
//! prompt, language model, MCP endpoints, the model choices, and the
//! security quotas, and where the model files are found.
use vstd::prelude::*;

use crate::text::{chars_of, string_of};

verus! {

/// Audio output shape; unset fields take the server defaults.
#[derive(Debug, Clone, PartialEq, Eq, Structural)]
pub struct AudioConfig {
    pub output_sample_rate: Option<u32>,
    pub output_channel: Option<u32>,
    /// unit: ms
    pub output_frame_duration: Option<u64>,
}

impl Default for AudioConfig {
    fn default() -> (c: Self)
        ensures
            c.output_sample_rate is None,
            c.output_channel is None,
            c.output_frame_duration is None,
    {
        AudioConfig { output_sample_rate: None, output_channel: None, output_frame_duration: None }
    }
}

/// The assistant persona's system prompt, when overridden.
#[derive(Debug, Clone)]
pub struct LingConfig {
    pub system_prompt: Option<String>,
}

impl Default for LingConfig {
    fn default() -> (c: Self)
        ensures
            c.system_prompt is None,
    {
        LingConfig { system_prompt: None }
    }
}

#[derive(Debug, Clone, Copy, PartialEq, Eq, Structural)]
pub enum VadModel {
    Void,
    Earshot,
}

impl Default for VadModel {
    fn default() -> (m: Self)
        ensures
            m == VadModel::Earshot,
    {
        VadModel::Earshot
    }
}

#[derive(Debug, Clone, Copy, PartialEq, Eq, Structural)]
pub enum AsrModel {
    XAsr,
    Void,
}

impl Default for AsrModel {
    fn default() -> (m: Self)
        ensures
            m == AsrModel::XAsr,
    {
        AsrModel::XAsr
    }
}

#[derive(Debug, Clone, Copy, PartialEq, Eq, Structural)]
pub enum TtsModel {
    Mute,
    MatchaTts,
}

impl Default for TtsModel {
    fn default() -> (m: Self)
        ensures
            m == TtsModel::MatchaTts,
    {
        TtsModel::MatchaTts
    }
}

#[derive(Debug, Clone, Copy, PartialEq, Eq, Structural)]
pub enum LlmProvider {
    LocalQwen3,
    LocalEcho,
    RemoteOpenAiCompatible,
}

impl Default for LlmProvider {
    fn default() -> (p: Self)
        ensures
            p == LlmProvider::LocalQwen3,
    {
        LlmProvider::LocalQwen3
    }
}

/// The language model section; unset fields take the server defaults.
#[derive(Debug, Clone)]
pub struct LlmConfig {
    pub provider: Option<LlmProvider>,
    pub variant: Option<String>,
    pub path: Option<String>,
    pub api_url: Option<String>,
    pub api_key: Option<String>,
    pub model: Option<String>,
}

impl Default for LlmConfig {
    fn default() -> (c: Self)
        ensures
            c.provider is None,
            c.variant is None,
            c.path is None,
            c.api_url is None,
            c.api_key is None,
            c.model is None,
    {
        LlmConfig { provider: None, variant: None, path: None, api_url: None, api_key: None, model: None }
    }
}

/// A single external MCP server endpoint. Exactly one auth mode applies: a
/// static bare `token`, a self-signed token (`self_signed`), or none.
#[derive(Clone)]
pub struct McpServerConfig {
    pub uri: String,
    pub token: Option<String>,
    pub self_signed: bool,
}

/// The external MCP servers to connect to.
#[derive(Clone)]
pub struct McpConfig {
    pub server_list: Vec<McpServerConfig>,
}

impl Default for McpConfig {
    fn default() -> (c: Self)
        ensures
            c.server_list@.len() == 0,
    {
        McpConfig { server_list: Vec::new() }
    }
}

/// Security subsystem configuration: per-resource rate limits, the
/// per-account login failure lockout and security event retention.
#[derive(Debug, Clone, Copy, PartialEq, Eq, Structural)]
pub struct SecurityConfig {
    pub auth_limit: u32,
    pub auth_window_secs: u64,
    pub ota_limit: u32,
    pub ota_window_secs: u64,
    pub core_limit: u32,
    pub core_window_secs: u64,
    pub login_fail_limit: u32,
    pub login_fail_window_secs: u64,
    pub event_retention_days: i64,
    pub cleanup_interval_secs: u64,
    pub api_access_log_enabled: bool,
    pub api_access_log_retention_days: i64,
}

/// The quotas a server runs with unless configured otherwise: 20 auth
/// calls per 15 min, 30 OTA per minute, 5000 core per hour, a lockout after
/// 5 failed logins in 15 min, 30 days of retention, a 6 h cleanup.
pub open spec fn default_security() -> SecurityConfig {
    SecurityConfig {
        auth_limit: 20,
        auth_window_secs: 900,
        ota_limit: 30,
        ota_window_secs: 60,
        core_limit: 5000,
        core_window_secs: 3600,
        login_fail_limit: 5,
        login_fail_window_secs: 900,
        event_retention_days: 30,
        cleanup_interval_secs: 21_600,
        api_access_log_enabled: true,
        api_access_log_retention_days: 30,
    }
}

impl Default for SecurityConfig {
    fn default() -> (c: Self)
        ensures
            c == default_security(),
    {
        SecurityConfig {
            auth_limit: 20,
            auth_window_secs: 15 * 60,
            ota_limit: 30,
            ota_window_secs: 60,
            core_limit: 5000,
            core_window_secs: 60 * 60,
            login_fail_limit: 5,
            login_fail_window_secs: 15 * 60,
            event_retention_days: 30,
            cleanup_interval_secs: 6 * 60 * 60,
            api_access_log_enabled: true,
            api_access_log_retention_days: 30,
        }
    }
}

impl SecurityConfig {
    pub fn new(
        auth_limit: u32,
        auth_window_secs: u64,
        ota_limit: u32,
        ota_window_secs: u64,
        core_limit: u32,
        core_window_secs: u64,
        login_fail_limit: u32,
        login_fail_window_secs: u64,
        event_retention_days: i64,
        cleanup_interval_secs: u64,
        api_access_log_enabled: bool,
        api_access_log_retention_days: i64,
    ) -> (c: Self)
        ensures
            c == (SecurityConfig {
                auth_limit,
                auth_window_secs,
                ota_limit,
                ota_window_secs,
                core_limit,
                core_window_secs,
                login_fail_limit,
                login_fail_window_secs,
                event_retention_days,
                cleanup_interval_secs,
                api_access_log_enabled,
                api_access_log_retention_days,
            }),
    {
        SecurityConfig {
            auth_limit,
            auth_window_secs,
            ota_limit,
            ota_window_secs,
            core_limit,
            core_window_secs,
            login_fail_limit,
            login_fail_window_secs,
            event_retention_days,
            cleanup_interval_secs,
            api_access_log_enabled,
            api_access_log_retention_days,
        }
    }
}

/// One fixed-window rate limit: at most `limit` calls per `window_secs`.
#[derive(Debug, Clone, Copy, PartialEq, Eq, Structural)]
pub struct FixedWindowConfig {
    pub limit: u32,
    pub window_secs: u64,
}

/// The per-resource quotas of the usage registry.
#[derive(Debug, Clone, Copy, PartialEq, Eq, Structural)]
pub struct UsageConfig {
    pub auth: FixedWindowConfig,
    pub ota: FixedWindowConfig,
    pub core: FixedWindowConfig,
}

impl SecurityConfig {
    /// The resource quotas as the usage registry takes them.
    pub fn to_usage_config(&self) -> (u: UsageConfig)
        ensures
            u == (UsageConfig {
                auth: FixedWindowConfig { limit: self.auth_limit, window_secs: self.auth_window_secs },
                ota: FixedWindowConfig { limit: self.ota_limit, window_secs: self.ota_window_secs },
                core: FixedWindowConfig { limit: self.core_limit, window_secs: self.core_window_secs },
            }),
    {
        UsageConfig {
            auth: FixedWindowConfig { limit: self.auth_limit, window_secs: self.auth_window_secs },
            ota: FixedWindowConfig { limit: self.ota_limit, window_secs: self.ota_window_secs },
            core: FixedWindowConfig { limit: self.core_limit, window_secs: self.core_window_secs },
        }
    }
}

// ---------------------------------------------------------------------------
// Model file locations.

/// The configuration entries that place the model files; unset entries take
/// the server defaults.
#[derive(Debug, Clone)]
pub struct Config {
    pub data_dir: Option<String>,
    pub tts_model: Option<TtsModel>,
    pub asr_model: Option<AsrModel>,
    pub llm_provider: Option<LlmProvider>,
    pub llm_path: Option<String>,
    pub llm_variant: Option<String>,
    pub vad_path: Option<String>,
}

pub open spec fn string_option(o: Option<String>) -> Option<Seq<char>> {
    match o {
        Some(s) => Some(s@),
        None => None,
    }
}

/// `s` without the slashes it ends with.
pub open spec fn without_trailing_slashes(s: Seq<char>) -> Seq<char>
    decreases s.len(),
{
    if s.len() > 0 && s.last() == '/' {
        without_trailing_slashes(s.drop_last())
    } else {
        s
    }
}

/// `<data_dir>/<base><variant>/`, the data directory taken without its
/// trailing slashes.
pub open spec fn model_dir(data_dir: Seq<char>, base: Seq<char>, variant: Seq<char>) -> Seq<char> {
    without_trailing_slashes(data_dir) + seq!['/'] + base + variant + seq!['/']
}

pub open spec fn tts_choice(m: Option<TtsModel>) -> TtsModel {
    match m {
        Some(m) => m,
        None => TtsModel::MatchaTts,
    }
}

pub open spec fn asr_choice(m: Option<AsrModel>) -> AsrModel {
    match m {
        Some(m) => m,
        None => AsrModel::XAsr,
    }
}

pub open spec fn llm_choice(p: Option<LlmProvider>) -> LlmProvider {
    match p {
        Some(p) => p,
        None => LlmProvider::LocalQwen3,
    }
}

/// The language model variant: the configured one, else `0.6b` for the
/// local Qwen3 model and none for the others.
pub open spec fn llm_variant_choice(c: Config) -> Seq<char> {
    match c.llm_variant {
        Some(v) => v@,
        None => if llm_choice(c.llm_provider) == LlmProvider::LocalQwen3 {
            "0.6b"@
        } else {
            Seq::empty()
        },
    }
}

/// Whether finding the language model reads the data directory.
pub open spec fn llm_reads_data_dir(c: Config) -> bool {
    &&& c.llm_path is None
    &&& llm_choice(c.llm_provider) != LlmProvider::RemoteOpenAiCompatible
    &&& llm_variant_choice(c).len() > 0
}

/// Where the language model is: the configured path, else, for the local
/// Qwen3 model with a variant, `<data_dir>/llm/model/qwen3/<variant>/`.
pub open spec fn llm_path_for(c: Config) -> Option<Seq<char>> {
    if c.llm_path is Some {
        Some(c.llm_path->0@)
    } else if !llm_reads_data_dir(c) {
        None
    } else if llm_choice(c.llm_provider) == LlmProvider::LocalQwen3 {
        Some(c.data_dir->0@ + "/llm/model/qwen3/"@ + llm_variant_choice(c) + seq!['/'])
    } else {
        None
    }
}

/// `s` without the slashes it ends with.
fn trim_trailing_slashes(s: &str) -> (r: String)
    ensures
        r@ == without_trailing_slashes(s@),
{
    let mut chars = chars_of(s);
    let mut k: usize = chars.len();
    assert(chars@.subrange(0, k as int) =~= chars@);
    while k > 0 && chars[k - 1] == '/'
        invariant
            k <= chars@.len(),
            chars@ == s@,
            without_trailing_slashes(chars@.subrange(0, k as int)) == without_trailing_slashes(s@),
        decreases k,
    {
        assert(chars@.subrange(0, k as int).drop_last() =~= chars@.subrange(0, k - 1));
        k -= 1;
    }
    let _tail = chars.split_off(k);
    string_of(chars.as_slice())
}

/// `<data_dir>/<base><variant>/`.
fn join_model_dir(data_dir: &str, base_path: &str, variant: &str) -> (r: String)
    ensures
        r@ == model_dir(data_dir@, base_path@, variant@),
{
    proof {
        reveal_strlit("/");
    }
    let mut out = trim_trailing_slashes(data_dir);
    out.append("/");
    out.append(base_path);
    out.append(variant);
    out.append("/");
    out
}

impl Config {
    /// The data directory, which the server defaults set.
    pub fn data_dir(&self) -> (d: &str)
        requires
            self.data_dir is Some,
        ensures
            d@ == self.data_dir->0@,
    {
        match &self.data_dir {
            Some(dir) => dir.as_str(),
            None => "",
        }
    }

    /// The speech synthesis model directory, `<data_dir>/<base><variant>/`;
    /// none when synthesis is muted.
    pub fn derive_tts_path(&self, base_path: &str, variant: &str) -> (r: Option<String>)
        requires
            tts_choice(self.tts_model) != TtsModel::Mute ==> self.data_dir is Some,
        ensures
            string_option(r) == if tts_choice(self.tts_model) == TtsModel::Mute {
                None
            } else {
                Some(model_dir(self.data_dir->0@, base_path@, variant@))
            },
    {
        let model = match self.tts_model {
            Some(m) => m,
            None => TtsModel::MatchaTts,
        };
        if model == TtsModel::Mute {
            return None;
        }
        Some(join_model_dir(self.data_dir(), base_path, variant))
    }

    /// The speech recognition model directory, `<data_dir>/<base><variant>/`;
    /// none for the void recognizer.
    pub fn derive_asr_path(&self, base_path: &str, variant: &str) -> (r: Option<String>)
        requires
            asr_choice(self.asr_model) != AsrModel::Void ==> self.data_dir is Some,
        ensures
            string_option(r) == if asr_choice(self.asr_model) == AsrModel::Void {
                None
            } else {
                Some(model_dir(self.data_dir->0@, base_path@, variant@))
            },
    {
        let model = match self.asr_model {
            Some(m) => m,
            None => AsrModel::XAsr,
        };
        if model == AsrModel::Void {
            return None;
        }
        Some(join_model_dir(self.data_dir(), base_path, variant))
    }

    /// The language model directory.
    pub fn derive_llm_path(&self) -> (r: Option<String>)
        requires
            llm_reads_data_dir(*self) ==> self.data_dir is Some,
        ensures
            string_option(r) == llm_path_for(*self),
    {
        if let Some(path) = &self.llm_path {
            return Some(path.clone());
        }
        let provider = match self.llm_provider {
            Some(p) => p,
            None => LlmProvider::LocalQwen3,
        };
        if provider == LlmProvider::RemoteOpenAiCompatible {
            return None;
        }
        let variant = match &self.llm_variant {
            Some(v) => v.clone(),
            None => if provider == LlmProvider::LocalQwen3 {
                "0.6b".to_owned()
            } else {
                String::new()
            },
        };
        if variant.as_str().is_empty() {
            return None;
        }
        let d = self.data_dir();
        if provider == LlmProvider::LocalQwen3 {
            proof {
                reveal_strlit("/");
            }
            let mut out = d.to_owned();
            out.append("/llm/model/qwen3/");
            out.append(variant.as_str());
            out.append("/");
            Some(out)
        } else {
            None
        }
    }

    /// The voice activity model path, where one is configured.
    pub fn derive_vad_path(&self) -> (r: Option<String>)
        ensures
            string_option(r) == string_option(self.vad_path),
    {
        match &self.vad_path {
            Some(path) => Some(path.clone()),
            None => None,
        }
    }
}

} // verus!
