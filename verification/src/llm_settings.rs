//! The LLM provider configuration: its defaults, partial updates, the view a
//! client may see (never the key), and the guards around listing a
//! provider's models (allowed URL schemes, and which key may be sent where).
//! Token pricing (floating point) is kept beside it at the edge.

use vstd::prelude::*;
use vstd::string::*;

use crate::agent::output::{normalize_base_url, spec_normalize_base_url};
use crate::models::{copy_opt_string, opt_view, LlmModelsQuery};
use crate::config::{parse_flag, spec_flag_text};
use crate::text::{
    chars_of, parse_u64, spec_ascii_lower_seq, spec_parse_u64, spec_starts_with, spec_trim, starts_with, to_ascii_lower,
    trim,
};

verus! {

/// The LLM provider configuration.
#[derive(Clone, Debug)]
pub struct LlmSettings {
    /// Whether to leave mock mode and drive agents with a real LLM.
    pub enabled: bool,
    /// OpenAI-compatible API root.
    pub base_url: Option<String>,
    /// Model name to request.
    pub model: Option<String>,
    /// Bearer key for the endpoint; never sent back to a client.
    pub api_key: Option<String>,
    /// Upper bound on tokens per reply.
    pub max_tokens: u64,
    /// Server-wide cap on LLM requests per rolling minute (0: unlimited).
    pub max_rpm: u64,
    /// Automatic retries of a retryable failure.
    pub max_retries: u32,
    /// Base backoff (ms) before the first retry.
    pub retry_base_ms: u64,
    /// Lines of conversation after which older ones are summarized (0: never).
    pub compress_after: usize,
    /// Recent lines kept verbatim when compressing.
    pub compress_keep: usize,
    /// Output-token ceiling for one summarization call.
    pub compress_max_tokens: u64,
}

impl Default for LlmSettings {
    fn default() -> (r: LlmSettings)
        ensures
            !r.enabled,
            r.base_url is None,
            r.model is None,
            r.api_key is None,
            r.max_tokens == 512,
            r.max_rpm == 15,
            r.max_retries == 2,
            r.retry_base_ms == 1000,
            r.compress_after == 50,
            r.compress_keep == 20,
            r.compress_max_tokens == 1024,
    {
        LlmSettings {
            enabled: false,
            base_url: None,
            model: None,
            api_key: None,
            max_tokens: 512,
            max_rpm: 15,
            max_retries: 2,
            retry_base_ms: 1000,
            compress_after: 50,
            compress_keep: 20,
            compress_max_tokens: 1024,
        }
    }
}

/// A partial update to the configuration: an absent field leaves the current
/// value alone; for the URL, model and key an empty (or blank) string clears
/// the field.
#[derive(Clone, Debug)]
pub struct LlmSettingsPatch {
    pub enabled: Option<bool>,
    pub base_url: Option<String>,
    pub model: Option<String>,
    pub api_key: Option<String>,
    pub max_tokens: Option<u64>,
    pub max_rpm: Option<u64>,
    pub max_retries: Option<u32>,
    pub retry_base_ms: Option<u64>,
    pub compress_after: Option<usize>,
    pub compress_keep: Option<usize>,
    pub compress_max_tokens: Option<u64>,
}

/// The trimmed text, or nothing when it is blank.
pub open spec fn spec_non_empty(s: Seq<char>) -> Option<Seq<char>> {
    if spec_trim(s).len() == 0 {
        None
    } else {
        Some(spec_trim(s))
    }
}

/// Trims, treating blank as unset.
pub fn non_empty(s: String) -> (r: Option<String>)
    ensures
        opt_view(r) == spec_non_empty(s@),
{
    let t = trim(s.as_str());
    if t.unicode_len() == 0 {
        None
    } else {
        Some(t)
    }
}

/// A patched optional string: unchanged when absent, else its non-empty form.
pub open spec fn spec_patched(base: Option<Seq<char>>, patch: Option<Seq<char>>) -> Option<Seq<char>> {
    match patch {
        None => base,
        Some(p) => spec_non_empty(p),
    }
}

/// A patched value: unchanged when absent.
pub open spec fn or_keep<T>(base: T, patch: Option<T>) -> T {
    match patch {
        Some(v) => v,
        None => base,
    }
}

impl LlmSettingsPatch {
    /// Merges this patch onto a base configuration, field by field.
    pub fn apply(self, base: &mut LlmSettings)
        ensures
            final(base).enabled == or_keep(old(base).enabled, self.enabled),
            opt_view(final(base).base_url) == spec_patched(opt_view(old(base).base_url), opt_view(self.base_url)),
            opt_view(final(base).model) == spec_patched(opt_view(old(base).model), opt_view(self.model)),
            opt_view(final(base).api_key) == spec_patched(opt_view(old(base).api_key), opt_view(self.api_key)),
            final(base).max_tokens == or_keep(old(base).max_tokens, self.max_tokens),
            final(base).max_rpm == or_keep(old(base).max_rpm, self.max_rpm),
            final(base).max_retries == or_keep(old(base).max_retries, self.max_retries),
            final(base).retry_base_ms == or_keep(old(base).retry_base_ms, self.retry_base_ms),
            final(base).compress_after == or_keep(old(base).compress_after, self.compress_after),
            final(base).compress_keep == or_keep(old(base).compress_keep, self.compress_keep),
            final(base).compress_max_tokens == or_keep(old(base).compress_max_tokens, self.compress_max_tokens),
    {
        if let Some(v) = self.enabled {
            base.enabled = v;
        }
        if let Some(v) = self.base_url {
            base.base_url = non_empty(v);
        }
        if let Some(v) = self.model {
            base.model = non_empty(v);
        }
        if let Some(v) = self.api_key {
            base.api_key = non_empty(v);
        }
        if let Some(v) = self.max_tokens {
            base.max_tokens = v;
        }
        if let Some(v) = self.max_rpm {
            base.max_rpm = v;
        }
        if let Some(v) = self.max_retries {
            base.max_retries = v;
        }
        if let Some(v) = self.retry_base_ms {
            base.retry_base_ms = v;
        }
        if let Some(v) = self.compress_after {
            base.compress_after = v;
        }
        if let Some(v) = self.compress_keep {
            base.compress_keep = v;
        }
        if let Some(v) = self.compress_max_tokens {
            base.compress_max_tokens = v;
        }
    }
}

/// What a client may see of the configuration: the key reduced to whether
/// one is stored.
#[derive(Clone, Debug)]
pub struct LlmSettingsView {
    pub enabled: bool,
    pub base_url: Option<String>,
    pub model: Option<String>,
    pub has_api_key: bool,
    pub max_tokens: u64,
    pub max_rpm: u64,
    pub max_retries: u32,
    pub retry_base_ms: u64,
    pub compress_after: usize,
    pub compress_keep: usize,
    pub compress_max_tokens: u64,
}

impl LlmSettingsView {
    /// The client-facing view of a configuration.
    pub fn from_settings(s: &LlmSettings) -> (r: LlmSettingsView)
        ensures
            r.enabled == s.enabled,
            r.base_url == s.base_url,
            r.model == s.model,
            r.has_api_key == (s.api_key matches Some(k) && k@.len() > 0),
            r.max_tokens == s.max_tokens,
            r.max_rpm == s.max_rpm,
            r.max_retries == s.max_retries,
            r.retry_base_ms == s.retry_base_ms,
            r.compress_after == s.compress_after,
            r.compress_keep == s.compress_keep,
            r.compress_max_tokens == s.compress_max_tokens,
    {
        let has_api_key = match &s.api_key {
            Some(k) => k.unicode_len() > 0,
            None => false,
        };
        LlmSettingsView {
            enabled: s.enabled,
            base_url: copy_opt_string(&s.base_url),
            model: copy_opt_string(&s.model),
            has_api_key,
            max_tokens: s.max_tokens,
            max_rpm: s.max_rpm,
            max_retries: s.max_retries,
            retry_base_ms: s.retry_base_ms,
            compress_after: s.compress_after,
            compress_keep: s.compress_keep,
            compress_max_tokens: s.compress_max_tokens,
        }
    }
}

/// Everything a model-backed brain is built from, borrowed from the settings.
#[derive(Clone, Copy, Debug)]
pub struct LlmConfig<'a> {
    /// OpenAI-compatible API root.
    pub base_url: &'a str,
    /// Model name to request.
    pub model: &'a str,
    /// Bearer key; empty for endpoints that need none.
    pub api_key: &'a str,
    /// Output-token ceiling for one agent reply.
    pub max_tokens: u64,
    /// Output-token ceiling for one compression call.
    pub summary_max_tokens: u64,
    /// Requests per rolling minute (0: unlimited).
    pub max_rpm: u64,
    /// Automatic retries of a retryable failure.
    pub max_retries: u32,
    /// Base backoff (ms) before the first retry.
    pub retry_base_ms: u64,
}

impl LlmSettings {
    /// What runtime a configuration builds: `Ok(None)` for the rule-based
    /// mock (disabled, which always succeeds), the brain's configuration when
    /// enabled with both an endpoint and a model, and an error (never a panic)
    /// when enabled without them.
    pub fn brain_config(&self) -> (r: Result<Option<LlmConfig<'_>>, String>)
        ensures
            !self.enabled ==> r matches Ok(None),
            self.enabled && (self.base_url is None || self.model is None) ==> (r matches Err(e) && e@
                == "enabled is true but base_url and model are not both set"@),
            self.enabled && self.base_url is Some && self.model is Some ==> (r matches Ok(Some(c)) && {
                &&& c.base_url@ == self.base_url->0@
                &&& c.model@ == self.model->0@
                &&& c.api_key@ == match self.api_key {
                    Some(k) => k@,
                    None => Seq::empty(),
                }
                &&& c.max_tokens == self.max_tokens
                &&& c.summary_max_tokens == self.compress_max_tokens
                &&& c.max_rpm == self.max_rpm
                &&& c.max_retries == self.max_retries
                &&& c.retry_base_ms == self.retry_base_ms
            }),
    {
        if !self.enabled {
            return Ok(None);
        }
        match (&self.base_url, &self.model) {
            (Some(b), Some(m)) => {
                proof {
                    reveal_strlit("");
                }
                let api_key: &str = match &self.api_key {
                    Some(k) => k.as_str(),
                    None => "",
                };
                Ok(Some(LlmConfig {
                    base_url: b.as_str(),
                    model: m.as_str(),
                    api_key,
                    max_tokens: self.max_tokens,
                    summary_max_tokens: self.compress_max_tokens,
                    max_rpm: self.max_rpm,
                    max_retries: self.max_retries,
                    retry_base_ms: self.retry_base_ms,
                }))
            },
            _ => Err(String::from_str("enabled is true but base_url and model are not both set")),
        }
    }
}

/// The outbound URL schemes allowed: `http://` and `https://`, any case.
pub open spec fn spec_scheme_ok(base_url: Seq<char>) -> bool {
    spec_starts_with(spec_ascii_lower_seq(base_url), "http://"@) || spec_starts_with(
        spec_ascii_lower_seq(base_url),
        "https://"@,
    )
}

/// Refuses a base URL that isn't HTTP(S).
pub fn check_outbound_scheme(base_url: &str) -> (r: Result<(), String>)
    ensures
        spec_scheme_ok(base_url@) ==> r is Ok,
        !spec_scheme_ok(base_url@) ==> (r matches Err(e) && e@ == "baseUrl must be an http:// or https:// URL"@),
{
    let lowered = chars_of(to_ascii_lower(base_url).as_str());
    let http = chars_of("http://");
    let https = chars_of("https://");
    if starts_with(&lowered, &http) || starts_with(&lowered, &https) {
        Ok(())
    } else {
        Err(String::from_str("baseUrl must be an http:// or https:// URL"))
    }
}

/// Whether the requested base URL is the stored one, up to a trailing slash
/// and letter case.
pub open spec fn spec_matches_stored(requested: Seq<char>, stored: Option<Seq<char>>) -> bool {
    stored matches Some(url) && spec_normalize_base_url(url) == spec_normalize_base_url(requested)
}

/// The key to list models with: an explicit key always; otherwise the stored
/// key (or none), but only for the stored endpoint, so the stored key is
/// never sent to another URL.
pub fn resolve_api_key(
    query_api_key: Option<String>,
    requested_base_url: &str,
    stored_base_url: Option<&str>,
    stored_api_key: Option<String>,
) -> (r: Result<String, String>)
    ensures
        query_api_key matches Some(k) ==> r == Ok::<String, String>(k),
        query_api_key is None && spec_matches_stored(requested_base_url@, match stored_base_url {
            Some(u) => Some(u@),
            None => None,
        }) ==> (r matches Ok(k) && k@ == match stored_api_key {
            Some(s) => s@,
            None => Seq::empty(),
        }),
        query_api_key is None && !spec_matches_stored(requested_base_url@, match stored_base_url {
            Some(u) => Some(u@),
            None => None,
        }) ==> (r matches Err(e) && e@ == "apiKey is required for a baseUrl other than the currently-configured one"@),
{
    if let Some(key) = query_api_key {
        return Ok(key);
    }
    let matches_stored = match stored_base_url {
        Some(url) => normalize_base_url(url) == normalize_base_url(requested_base_url),
        None => false,
    };
    if !matches_stored {
        return Err(String::from_str("apiKey is required for a baseUrl other than the currently-configured one"));
    }
    match stored_api_key {
        Some(k) => Ok(k),
        None => {
            let e = String::new();
            proof {
                reveal_strlit("");
            }
            Ok(e)
        },
    }
}

/// The endpoint and key a model listing goes to: the trimmed base URL, which
/// must be present and HTTP(S), and the key [`resolve_api_key`] allows.
pub fn model_listing_target(query: &LlmModelsQuery, stored: &LlmSettings) -> (r: Result<(String, String), String>)
    ensures
        ({
            let url = spec_trim(query.base_url@);
            &&& url.len() == 0 ==> (r matches Err(e) && e@ == "baseUrl is required"@)
            &&& url.len() > 0 && !spec_scheme_ok(url) ==> (r matches Err(e) && e@
                == "baseUrl must be an http:// or https:// URL"@)
            &&& url.len() > 0 && spec_scheme_ok(url) && query.api_key is Some ==> (r matches Ok((u, k)) && u@ == url
                && k == query.api_key->0)
            &&& url.len() > 0 && spec_scheme_ok(url) && query.api_key is None && spec_matches_stored(url, opt_view(stored.base_url))
                ==> (r matches Ok((u, k)) && u@ == url && k@ == match stored.api_key {
                Some(s) => s@,
                None => Seq::empty(),
            })
            &&& url.len() > 0 && spec_scheme_ok(url) && query.api_key is None && !spec_matches_stored(url, opt_view(stored.base_url))
                ==> (r matches Err(e) && e@ == "apiKey is required for a baseUrl other than the currently-configured one"@)
        }),
{
    let base_url = trim(query.base_url.as_str());
    if base_url.unicode_len() == 0 {
        return Err(String::from_str("baseUrl is required"));
    }
    match check_outbound_scheme(base_url.as_str()) {
        Err(e) => return Err(e),
        Ok(()) => {},
    }
    let stored_url: Option<&str> = match &stored.base_url {
        Some(u) => Some(u.as_str()),
        None => None,
    };
    match resolve_api_key(copy_opt_string(&query.api_key), base_url.as_str(), stored_url, copy_opt_string(&stored.api_key)) {
        Ok(k) => Ok((base_url, k)),
        Err(e) => Err(e),
    }
}

// --- One-time migration from the legacy environment variables ------------------

/// The legacy provider variables, each as read from the environment (`None`
/// when unset): `AGORALUME_LLM`, `AGORALUME_LLM_BASE_URL`, `_MODEL`,
/// `_API_KEY`, `_MAX_TOKENS`, `_MAX_RPM`, `_MAX_RETRIES`, `_RETRY_BASE_MS`,
/// and `AGORALUME_COMPRESS_AFTER`, `_KEEP`, `_MAX_TOKENS`.
#[derive(Clone, Debug)]
pub struct LegacyLlmVars {
    pub llm: Option<String>,
    pub base_url: Option<String>,
    pub model: Option<String>,
    pub api_key: Option<String>,
    pub max_tokens: Option<String>,
    pub max_rpm: Option<String>,
    pub max_retries: Option<String>,
    pub retry_base_ms: Option<String>,
    pub compress_after: Option<String>,
    pub compress_keep: Option<String>,
    pub compress_max_tokens: Option<String>,
}

/// A variable's text, trimmed; blank counts as unset.
pub open spec fn spec_env_text(v: Option<Seq<char>>) -> Option<Seq<char>> {
    match v {
        Some(t) => spec_non_empty(t),
        None => None,
    }
}

/// A variable's number; blank or unparsable counts as unset.
pub open spec fn spec_env_u64(v: Option<Seq<char>>) -> Option<u64> {
    match spec_env_text(v) {
        Some(t) => spec_parse_u64(t),
        None => None,
    }
}

/// A variable's number as a `u32`; out of range counts as unparsable.
pub open spec fn spec_env_u32(v: Option<Seq<char>>) -> Option<u32> {
    match spec_env_u64(v) {
        Some(n) => if n <= u32::MAX {
            Some(n as u32)
        } else {
            None
        },
        None => None,
    }
}

/// A variable's number as a `usize`; out of range counts as unparsable.
pub open spec fn spec_env_usize(v: Option<Seq<char>>) -> Option<usize> {
    match spec_env_u64(v) {
        Some(n) => if n <= usize::MAX {
            Some(n as usize)
        } else {
            None
        },
        None => None,
    }
}

/// Whether a flag variable is on: `1`, `true`, `yes` or `on`, any case.
pub open spec fn spec_env_flag(v: Option<Seq<char>>) -> bool {
    match v {
        Some(t) => {
            let f = spec_flag_text(t);
            f == "1"@ || f == "true"@ || f == "yes"@ || f == "on"@
        },
        None => false,
    }
}

fn env_text(v: &Option<String>) -> (r: Option<String>)
    ensures
        opt_view(r) == spec_env_text(opt_view(*v)),
{
    match v {
        Some(t) => non_empty(t.clone()),
        None => None,
    }
}

fn env_u64(v: &Option<String>) -> (r: Option<u64>)
    ensures
        r == spec_env_u64(opt_view(*v)),
{
    match env_text(v) {
        Some(t) => parse_u64(t.as_str()),
        None => None,
    }
}

fn env_u32(v: &Option<String>) -> (r: Option<u32>)
    ensures
        r == spec_env_u32(opt_view(*v)),
{
    match env_u64(v) {
        Some(n) => if n <= u32::MAX as u64 {
            Some(n as u32)
        } else {
            None
        },
        None => None,
    }
}

fn env_usize(v: &Option<String>) -> (r: Option<usize>)
    ensures
        r == spec_env_usize(opt_view(*v)),
{
    match env_u64(v) {
        Some(n) => if n <= usize::MAX as u64 {
            Some(n as usize)
        } else {
            None
        },
        None => None,
    }
}

impl LegacyLlmVars {
    /// The configuration the legacy variables describe, read once when no
    /// configuration file exists yet: `None` when none of the switch, URL,
    /// model or key is set (the caller then writes a commented scaffold);
    /// otherwise the defaults with every set, parsable variable laid over
    /// them. Token pricing is migrated beside this, at the edge.
    pub fn migrate(&self) -> (r: Option<LlmSettings>)
        ensures
            ({
                let enabled = spec_env_flag(opt_view(self.llm));
                let base_url = spec_env_text(opt_view(self.base_url));
                let model = spec_env_text(opt_view(self.model));
                let api_key = spec_env_text(opt_view(self.api_key));
                &&& r is None <==> (!enabled && base_url is None && model is None && api_key is None)
                &&& r matches Some(s) ==> {
                    &&& s.enabled == enabled
                    &&& opt_view(s.base_url) == base_url
                    &&& opt_view(s.model) == model
                    &&& opt_view(s.api_key) == api_key
                    &&& s.max_tokens == or_keep(512, spec_env_u64(opt_view(self.max_tokens)))
                    &&& s.max_rpm == or_keep(15, spec_env_u64(opt_view(self.max_rpm)))
                    &&& s.max_retries == or_keep(2, spec_env_u32(opt_view(self.max_retries)))
                    &&& s.retry_base_ms == or_keep(1000, spec_env_u64(opt_view(self.retry_base_ms)))
                    &&& s.compress_after == or_keep(50, spec_env_usize(opt_view(self.compress_after)))
                    &&& s.compress_keep == or_keep(20, spec_env_usize(opt_view(self.compress_keep)))
                    &&& s.compress_max_tokens == or_keep(1024, spec_env_u64(opt_view(self.compress_max_tokens)))
                }
            }),
    {
        let enabled = match &self.llm {
            Some(t) => parse_flag(t.as_str()),
            None => false,
        };
        let base_url = env_text(&self.base_url);
        let model = env_text(&self.model);
        let api_key = env_text(&self.api_key);
        if !enabled && base_url.is_none() && model.is_none() && api_key.is_none() {
            return None;
        }
        let mut s = LlmSettings::default();
        s.enabled = enabled;
        s.base_url = base_url;
        s.model = model;
        s.api_key = api_key;
        if let Some(v) = env_u64(&self.max_tokens) {
            s.max_tokens = v;
        }
        if let Some(v) = env_u64(&self.max_rpm) {
            s.max_rpm = v;
        }
        if let Some(v) = env_u32(&self.max_retries) {
            s.max_retries = v;
        }
        if let Some(v) = env_u64(&self.retry_base_ms) {
            s.retry_base_ms = v;
        }
        if let Some(v) = env_usize(&self.compress_after) {
            s.compress_after = v;
        }
        if let Some(v) = env_usize(&self.compress_keep) {
            s.compress_keep = v;
        }
        if let Some(v) = env_u64(&self.compress_max_tokens) {
            s.compress_max_tokens = v;
        }
        Some(s)
    }
}

} // verus!
