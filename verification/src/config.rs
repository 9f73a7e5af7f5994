//! Application configuration and its checks.
use vstd::prelude::*;
use crate::numfmt::{decimal, parse_unsigned, parse_unsigned_chars, push_decimal};
use crate::text::{chars_of, push_str, str_eq, string_of};

verus! {

/// Which language model to use and how to reach it.
#[derive(Debug, Clone)]
pub struct LlmConfig {
    pub provider: String,
    pub model: String,
    pub api_base: Option<String>,
    pub api_key: Option<String>,
}

/// Telegram adapter settings.
#[derive(Debug, Clone)]
pub struct TelegramConfig {
    pub enabled: bool,
    pub bot_token: Option<String>,
    pub chat_id: Option<String>,
    pub webhook_url: Option<String>,
    pub api_base: Option<String>,
    pub polling_interval_ms: u64,
}

/// Runtime settings.
#[derive(Debug, Clone)]
pub struct RuntimeConfig {
    pub web_bind: String,
    pub default_mode: String,
    pub registry_path: String,
    pub registry_secret: String,
    pub benchmark_iterations: usize,
}

/// The whole configuration.
#[derive(Debug, Clone)]
pub struct AppConfig {
    pub llm: LlmConfig,
    pub telegram: TelegramConfig,
    pub runtime: RuntimeConfig,
}

/// How `{}` renders a `bool`.
pub open spec fn bool_text(b: bool) -> Seq<char> {
    if b {
        "true"@
    } else {
        "false"@
    }
}

/// The one-line summary of a configuration, without secrets.
pub open spec fn summary_text(c: AppConfig) -> Seq<char> {
    "provider="@ + c.llm.provider@ + " model="@ + c.llm.model@ + " web_bind="@ + c.runtime.web_bind@
        + " telegram_enabled="@ + bool_text(c.telegram.enabled) + " registry_path="@
        + c.runtime.registry_path@ + " bench_iterations="@ + decimal(
        c.runtime.benchmark_iterations as nat,
    )
}

/// The words that switch a flag on.
pub open spec fn flag_on(v: Seq<char>) -> bool {
    v == "1"@ || v == "true"@ || v == "TRUE"@ || v == "yes"@ || v == "on"@
}

/// The benchmark iteration count a setting gives: a positive number, or
/// 100 when the setting is absent, not a number, or zero.
pub open spec fn bench_iterations_of(v: Option<Seq<char>>) -> nat {
    match v {
        Some(s) => match parse_unsigned(s, usize::MAX as nat) {
            Some(n) => if n > 0 {
                n
            } else {
                100
            },
            None => 100,
        },
        None => 100,
    }
}

/// Whether a flag setting switches the flag on.
pub fn parse_flag(value: &str) -> (r: bool)
    ensures
        r == flag_on(value@),
{
    str_eq(value, "1") || str_eq(value, "true") || str_eq(value, "TRUE") || str_eq(value, "yes")
        || str_eq(value, "on")
}

/// The benchmark iteration count for a setting.
pub fn parse_bench_iterations(value: Option<&str>) -> (r: usize)
    ensures
        r == bench_iterations_of(match value {
            Some(s) => Some(s@),
            None => None,
        }),
{
    match value {
        Some(s) => {
            let cs = chars_of(s);
            match parse_unsigned_chars(cs.as_slice(), usize::MAX as u128) {
                Some(n) => if n > 0 {
                    n as usize
                } else {
                    100
                },
                None => 100,
            }
        },
        None => 100,
    }
}

/// The `JARVIS_*` settings as they were found, each absent when unset.
#[derive(Debug, Clone, Default)]
pub struct EnvSettings {
    pub llm_provider: Option<String>,
    pub llm_model: Option<String>,
    pub llm_api_base: Option<String>,
    pub llm_api_key: Option<String>,
    pub telegram_enabled: Option<String>,
    pub telegram_bot_token: Option<String>,
    pub telegram_chat_id: Option<String>,
    pub telegram_webhook_url: Option<String>,
    pub web_bind: Option<String>,
    pub default_mode: Option<String>,
    pub registry_path: Option<String>,
    pub registry_secret: Option<String>,
    pub bench_iterations: Option<String>,
}

/// A setting's value, or `default` when it is absent.
pub open spec fn setting_or(v: Option<String>, default: Seq<char>) -> Seq<char> {
    match v {
        Some(s) => s@,
        None => default,
    }
}

/// The polling interval of the Telegram adapter, in milliseconds, when no
/// setting gives one.
pub open spec fn default_polling_interval_ms() -> u64 {
    1000
}

fn value_or(v: &Option<String>, default: &str) -> (r: String)
    ensures
        r@ == setting_or(*v, default@),
{
    match v {
        Some(s) => String::from_str(s.as_str()),
        None => String::from_str(default),
    }
}

fn copy_setting(v: &Option<String>) -> (r: Option<String>)
    ensures
        match *v {
            Some(s) => r matches Some(t) && t@ == s@,
            None => r is None,
        },
{
    match v {
        Some(s) => Some(String::from_str(s.as_str())),
        None => None,
    }
}

impl AppConfig {
    /// The configuration for the settings found, with the defaults:
    /// provider `echo-local`, model `mock-1`, Telegram off, web bind
    /// `127.0.0.1:7878`, mode `chat`, registry `registry` with secret
    /// `local-dev-secret`, 100 benchmark iterations; the Telegram API base
    /// is left to the adapter's default and polling runs every 1000 ms.
    pub fn from_values(settings: &EnvSettings) -> (c: AppConfig)
        ensures
            c.llm.provider@ == setting_or(settings.llm_provider, "echo-local"@),
            c.llm.model@ == setting_or(settings.llm_model, "mock-1"@),
            match settings.llm_api_base {
                Some(s) => c.llm.api_base matches Some(t) && t@ == s@,
                None => c.llm.api_base is None,
            },
            match settings.llm_api_key {
                Some(s) => c.llm.api_key matches Some(t) && t@ == s@,
                None => c.llm.api_key is None,
            },
            c.telegram.enabled == match settings.telegram_enabled {
                Some(s) => flag_on(s@),
                None => false,
            },
            match settings.telegram_bot_token {
                Some(s) => c.telegram.bot_token matches Some(t) && t@ == s@,
                None => c.telegram.bot_token is None,
            },
            match settings.telegram_chat_id {
                Some(s) => c.telegram.chat_id matches Some(t) && t@ == s@,
                None => c.telegram.chat_id is None,
            },
            match settings.telegram_webhook_url {
                Some(s) => c.telegram.webhook_url matches Some(t) && t@ == s@,
                None => c.telegram.webhook_url is None,
            },
            c.telegram.api_base is None,
            c.telegram.polling_interval_ms == default_polling_interval_ms(),
            c.runtime.web_bind@ == setting_or(settings.web_bind, "127.0.0.1:7878"@),
            c.runtime.default_mode@ == setting_or(settings.default_mode, "chat"@),
            c.runtime.registry_path@ == setting_or(settings.registry_path, "registry"@),
            c.runtime.registry_secret@ == setting_or(settings.registry_secret, "local-dev-secret"@),
            c.runtime.benchmark_iterations == bench_iterations_of(
                match settings.bench_iterations {
                    Some(s) => Some(s@),
                    None => None,
                },
            ),
    {
        let llm = LlmConfig {
            provider: value_or(&settings.llm_provider, "echo-local"),
            model: value_or(&settings.llm_model, "mock-1"),
            api_base: copy_setting(&settings.llm_api_base),
            api_key: copy_setting(&settings.llm_api_key),
        };
        let enabled = match &settings.telegram_enabled {
            Some(s) => parse_flag(s.as_str()),
            None => false,
        };
        let telegram = TelegramConfig {
            enabled,
            bot_token: copy_setting(&settings.telegram_bot_token),
            chat_id: copy_setting(&settings.telegram_chat_id),
            webhook_url: copy_setting(&settings.telegram_webhook_url),
            api_base: None,
            polling_interval_ms: 1000,
        };
        let bench = match &settings.bench_iterations {
            Some(s) => parse_bench_iterations(Some(s.as_str())),
            None => parse_bench_iterations(None),
        };
        let runtime = RuntimeConfig {
            web_bind: value_or(&settings.web_bind, "127.0.0.1:7878"),
            default_mode: value_or(&settings.default_mode, "chat"),
            registry_path: value_or(&settings.registry_path, "registry"),
            registry_secret: value_or(&settings.registry_secret, "local-dev-secret"),
            benchmark_iterations: bench,
        };
        AppConfig { llm, telegram, runtime }
    }

    /// A disabled Telegram adapter needs nothing; an enabled one needs a bot
    /// token and a chat id.
    pub fn validate_telegram(&self) -> (r: Result<(), String>)
        ensures
            !self.telegram.enabled ==> r is Ok,
            self.telegram.enabled && self.telegram.bot_token is None ==> (r matches Err(e)
                && e@ == "telegram enabled but JARVIS_TELEGRAM_BOT_TOKEN is missing"@),
            self.telegram.enabled && self.telegram.bot_token is Some && self.telegram.chat_id is None
                ==> (r matches Err(e) && e@ == "telegram enabled but JARVIS_TELEGRAM_CHAT_ID is missing"@),
            self.telegram.enabled && self.telegram.bot_token is Some && self.telegram.chat_id is Some
                ==> r is Ok,
    {
        if !self.telegram.enabled {
            return Ok(());
        }
        if self.telegram.bot_token.is_none() {
            return Err(String::from_str("telegram enabled but JARVIS_TELEGRAM_BOT_TOKEN is missing"));
        }
        if self.telegram.chat_id.is_none() {
            return Err(String::from_str("telegram enabled but JARVIS_TELEGRAM_CHAT_ID is missing"));
        }
        Ok(())
    }

    /// A one-line summary that leaves out keys, tokens and secrets.
    pub fn redacted_summary(&self) -> (r: String)
        ensures
            r@ == summary_text(*self),
    {
        let mut out = chars_of("provider=");
        push_str(&mut out, self.llm.provider.as_str());
        push_str(&mut out, " model=");
        push_str(&mut out, self.llm.model.as_str());
        push_str(&mut out, " web_bind=");
        push_str(&mut out, self.runtime.web_bind.as_str());
        push_str(&mut out, " telegram_enabled=");
        if self.telegram.enabled {
            push_str(&mut out, "true");
        } else {
            push_str(&mut out, "false");
        }
        push_str(&mut out, " registry_path=");
        push_str(&mut out, self.runtime.registry_path.as_str());
        push_str(&mut out, " bench_iterations=");
        push_decimal(&mut out, self.runtime.benchmark_iterations as u128);
        string_of(out.as_slice())
    }
}

} // verus!
