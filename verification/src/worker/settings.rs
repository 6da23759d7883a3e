//! How the worker is set up.

use crate::number;
use crate::text;
use crate::worker::accounts;
use crate::worker::accounts::AccountConfig;
use vstd::prelude::*;

verus! {

/// The port that the worker listens at where none is set.
pub const DEFAULT_PORT: u16 = 8080;

// -------------------------------------------------------------------- values

/// The text that is set, without the whitespace around it; `default` where it is blank or not set.
pub open spec fn text_setting(value: Option<Seq<char>>, default: Seq<char>) -> Seq<char> {
    match value {
        Some(v) => if text::trim(v).len() > 0 {
            text::trim(v)
        } else {
            default
        },
        None => default,
    }
}

/// The text that is set, without the whitespace around it; none where it is blank or not set.
pub open spec fn optional_setting(value: Option<Seq<char>>) -> Option<Seq<char>> {
    match value {
        Some(v) => if text::trim(v).len() > 0 {
            Some(text::trim(v))
        } else {
            None
        },
        None => None,
    }
}

/// The text that is set, without the whitespace around it; none where it is blank or not set.
pub fn env_optional(value: Option<&str>) -> (r: Option<String>)
    ensures
        text::opt_string(r) == optional_setting(text::opt_text(value)),
{
    match value {
        Some(v) => {
            let trimmed = text::trimmed(v);
            if trimmed.as_str().is_empty() {
                None
            } else {
                Some(trimmed)
            }
        },
        None => None,
    }
}

/// The text that is set, without the whitespace around it; `default` where it is blank or not set.
pub fn env_string(value: Option<&str>, default: &str) -> (r: String)
    ensures
        r@ == text_setting(text::opt_text(value), default@),
{
    match env_optional(value) {
        Some(v) => v,
        None => default.to_string(),
    }
}

/// The number that is set; `default` where none that fits is.
pub fn env_u16(value: Option<&str>, default: u16) -> (r: u16)
    ensures
        r == number::parsed_or(text::opt_text(value), u16::MAX as nat, default as nat),
{
    number::parse_or(value, 65535, default as u64) as u16
}

/// The number that is set; `default` where none that fits is.
pub fn env_usize(value: Option<&str>, default: usize) -> (r: usize)
    ensures
        r == number::parsed_or(text::opt_text(value), usize::MAX as nat, default as nat),
{
    number::parse_or(value, usize::MAX as u64, default as u64) as usize
}

// -------------------------------------------------------------------- set-up

/// What the environment says; nothing where a variable is not set.
pub struct WorkerEnv {
    pub accounts: Option<String>,
    pub upstream_base_url: Option<String>,
    pub wasm_url: Option<String>,
    pub user_agent: Option<String>,
    pub max_concurrent_per_account: Option<String>,
    pub proxy_url: Option<String>,
    pub compression_model: Option<String>,
    pub compression_prompt: Option<String>,
}

/// How the model is reached.
pub struct Upstream {
    pub api_base: String,
    pub wasm_url: String,
    pub user_agent: String,
    pub max_concurrent_per_account: usize,
}

/// How the worker is set up.
pub struct WorkerConfig {
    pub accounts: Vec<AccountConfig>,
    pub upstream: Upstream,
    pub host: String,
    pub port: u16,
    pub proxy_url: Option<String>,
}

/// How the worker is set up in this environment; where a setting of the upstream is not made, as in
/// `defaults`. The worker is private: it listens at the local host only.
pub fn config_from_env(port: u16, env: &WorkerEnv, defaults: &Upstream) -> (r: WorkerConfig)
    ensures
        accounts::account_views(r.accounts@) == (match text::opt_string(env.accounts) {
            Some(list) => accounts::listed_accounts(list),
            None => Seq::<accounts::AccountView>::empty(),
        }),
        r.upstream.api_base@ == text_setting(
            text::opt_string(env.upstream_base_url),
            defaults.api_base@,
        ),
        r.upstream.wasm_url@ == text_setting(text::opt_string(env.wasm_url), defaults.wasm_url@),
        r.upstream.user_agent@ == text_setting(
            text::opt_string(env.user_agent),
            defaults.user_agent@,
        ),
        r.upstream.max_concurrent_per_account == number::parsed_or(
            text::opt_string(env.max_concurrent_per_account),
            usize::MAX as nat,
            defaults.max_concurrent_per_account as nat,
        ),
        r.host@ == "127.0.0.1"@,
        r.port == port,
        text::opt_string(r.proxy_url) == optional_setting(text::opt_string(env.proxy_url)),
{
    let upstream = Upstream {
        api_base: env_string(text::borrowed(&env.upstream_base_url), defaults.api_base.as_str()),
        wasm_url: env_string(text::borrowed(&env.wasm_url), defaults.wasm_url.as_str()),
        user_agent: env_string(text::borrowed(&env.user_agent), defaults.user_agent.as_str()),
        max_concurrent_per_account: env_usize(
            text::borrowed(&env.max_concurrent_per_account),
            defaults.max_concurrent_per_account,
        ),
    };
    WorkerConfig {
        accounts: accounts::load_accounts(text::borrowed(&env.accounts)),
        upstream,
        host: "127.0.0.1".to_string(),
        port,
        proxy_url: env_optional(text::borrowed(&env.proxy_url)),
    }
}

/// The model that compresses where none is set.
pub open spec fn default_model() -> Seq<char> {
    "deepseek-default"@
}

/// What the model is told to do where nothing else is set.
pub open spec fn default_prompt() -> Seq<char> {
    "You are a lossless context compressor. Compress the user text into compact notes. Preserve facts, numbers, names, code, API details, decisions, constraints, and unresolved questions. Remove filler and repetition. Return compressed text only."@
}

/// The model that compresses.
pub fn compression_model(env: &WorkerEnv) -> (r: String)
    ensures
        r@ == text_setting(text::opt_string(env.compression_model), default_model()),
{
    env_string(text::borrowed(&env.compression_model), "deepseek-default")
}

/// What the model is told to do.
pub fn compression_prompt(env: &WorkerEnv) -> (r: String)
    ensures
        r@ == text_setting(text::opt_string(env.compression_prompt), default_prompt()),
{
    env_string(
        text::borrowed(&env.compression_prompt),
        "You are a lossless context compressor. Compress the user text into compact notes. Preserve facts, numbers, names, code, API details, decisions, constraints, and unresolved questions. Remove filler and repetition. Return compressed text only.",
    )
}

// --------------------------------------------------------------------- laws

/// A text setting is what is set without the whitespace around it, whole; where that is nothing, or
/// nothing is set, it is the default, or none where it may be missing.
pub proof fn law_text_setting(
    before: Seq<char>,
    value: Seq<char>,
    behind: Seq<char>,
    default: Seq<char>,
)
    requires
        forall|i: int| 0 <= i < before.len() ==> text::is_space(#[trigger] before[i]),
        forall|i: int| 0 <= i < behind.len() ==> text::is_space(#[trigger] behind[i]),
        value.len() > 0 ==> !text::is_space(value[0]) && !text::is_space(value.last()),
    ensures
        value.len() > 0 ==> text_setting(Some(before + value + behind), default) == value,
        value.len() == 0 ==> text_setting(Some(before + value + behind), default) == default,
        text_setting(None, default) == default,
        value.len() > 0 ==> optional_setting(Some(before + value + behind)) == Some(value),
        value.len() == 0 ==> optional_setting(Some(before + value + behind)) is None,
        optional_setting(None) is None,
{
    text::law_trim(before, value, behind);
}

/// A blank setting leaves the model and what it is told at their defaults.
pub proof fn law_blank_settings_leave_the_defaults(blank: Seq<char>)
    requires
        forall|i: int| 0 <= i < blank.len() ==> text::is_space(#[trigger] blank[i]),
    ensures
        text_setting(Some(blank), default_model()) == "deepseek-default"@,
        text_setting(Some(blank), default_prompt())
            == "You are a lossless context compressor. Compress the user text into compact notes. Preserve facts, numbers, names, code, API details, decisions, constraints, and unresolved questions. Remove filler and repetition. Return compressed text only."@,
{
    let none = Seq::<char>::empty();
    text::law_trim(blank, none, none);
    assert(blank + none + none =~= blank);
}

} // verus!
