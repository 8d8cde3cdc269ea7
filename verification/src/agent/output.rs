//! Checking what a model answered: mapping its `respond` arguments onto a
//! decision, rejecting runaway repetition, and the retry rules around a
//! decision request.

use vstd::prelude::*;

use crate::agent::brain::{Action, Respond};
use crate::models::TokenUsage;
use crate::text::{
    chars_of, contains_chars, ends_with, is_blank, is_whitespace, push_char, spec_ascii_lower_seq,
    spec_contains, spec_ends_with, spec_is_blank, spec_is_whitespace, spec_trim, to_ascii_lower,
    trim,
};

verus! {

/// The four actions, named as the model emits them.
#[derive(Clone, Copy, Debug, PartialEq, Eq, Structural)]
pub enum ActionKind {
    Speak,
    SpeakWithMood,
    Mood,
    Read,
}

/// The `respond` tool's arguments, as the model returns them.
#[derive(Clone, Debug)]
pub struct RespondArgs {
    pub action: ActionKind,
    pub message: Option<String>,
    pub mood: Option<String>,
}

/// A field counts only when it is present and not blank.
pub open spec fn spec_usable(field: Option<String>) -> Option<String> {
    match field {
        Some(t) => if spec_is_blank(t@) {
            None
        } else {
            Some(t)
        },
        None => None,
    }
}

/// The decision a set of arguments maps onto: an action missing the field it
/// needs degrades (speak without a line → read; speak-with-mood keeps
/// whichever half is usable; mood without a mood → read).
pub open spec fn spec_to_respond(args: RespondArgs) -> Respond {
    let message = spec_usable(args.message);
    let mood = spec_usable(args.mood);
    match args.action {
        ActionKind::Speak => match message {
            Some(m) => Respond { action: Action::Speak, message: Some(m), mood: None },
            None => Respond { action: Action::Read, message: None, mood: None },
        },
        ActionKind::SpeakWithMood => match (message, mood) {
            (Some(m), Some(md)) => Respond {
                action: Action::SpeakWithMood,
                message: Some(m),
                mood: Some(md),
            },
            (Some(m), None) => Respond { action: Action::Speak, message: Some(m), mood: None },
            (None, Some(md)) => Respond { action: Action::Mood, message: None, mood: Some(md) },
            (None, None) => Respond { action: Action::Read, message: None, mood: None },
        },
        ActionKind::Mood => match mood {
            Some(md) => Respond { action: Action::Mood, message: None, mood: Some(md) },
            None => Respond { action: Action::Read, message: None, mood: None },
        },
        ActionKind::Read => Respond { action: Action::Read, message: None, mood: None },
    }
}

fn usable(field: Option<String>) -> (r: Option<String>)
    ensures
        r == spec_usable(field),
{
    match field {
        Some(t) => if is_blank(t.as_str()) {
            None
        } else {
            Some(t)
        },
        None => None,
    }
}

/// Maps the model's decision onto a [`Respond`], degrading gracefully when the
/// field an action needs is missing.
pub fn to_respond(args: RespondArgs) -> (r: Respond)
    ensures
        r == spec_to_respond(args),
{
    let action = args.action;
    let message = usable(args.message);
    let mood = usable(args.mood);
    match action {
        ActionKind::Speak => match message {
            Some(m) => Respond::speak(m),
            None => Respond::read(),
        },
        ActionKind::SpeakWithMood => match (message, mood) {
            (Some(m), Some(md)) => Respond::speak_with_mood(m, md),
            (Some(m), None) => Respond::speak(m),
            (None, Some(md)) => Respond::mood(md),
            (None, None) => Respond::read(),
        },
        ActionKind::Mood => match mood {
            Some(md) => Respond::mood(md),
            None => Respond::read(),
        },
        ActionKind::Read => Respond::read(),
    }
}

/// Why a transport-successful completion still can't be used.
#[derive(Clone, Copy, Debug, PartialEq, Eq, Structural)]
pub enum BadOutput {
    /// Not valid `respond` JSON — malformed, or truncated mid-string.
    Malformed,
    /// Parsed, but a field is runaway repetition.
    Repetitive,
}

impl BadOutput {
    /// The corrective hint appended to the next attempt.
    pub fn hint(&self) -> (r: &'static str)
        ensures
            *self == BadOutput::Malformed ==> r@ == "Your previous reply was not a single valid JSON object for the response schema (it may have been cut off). Reply again with one short, complete JSON decision."@,
            *self == BadOutput::Repetitive ==> r@ == "Your previous reply repeated the same characters or phrase many times. Reply again with one short, natural chat message — no repetition or filler."@,
    {
        match self {
            BadOutput::Malformed => "Your previous reply was not a single valid JSON object for the response schema (it may have been cut off). Reply again with one short, complete JSON decision.",
            BadOutput::Repetitive => "Your previous reply repeated the same characters or phrase many times. Reply again with one short, natural chat message — no repetition or filler.",
        }
    }

    /// The short, sanitized reason surfaced to the chat once retries are spent.
    pub fn reason(&self) -> (r: &'static str)
        ensures
            *self == BadOutput::Malformed ==> r@ == "model returned an unparseable response"@,
            *self == BadOutput::Repetitive ==> r@ == "model returned a repetitive response"@,
    {
        match self {
            BadOutput::Malformed => "model returned an unparseable response",
            BadOutput::Repetitive => "model returned a repetitive response",
        }
    }
}

/// Longest repeating unit considered.
pub const MAX_PERIOD: usize = 20;

/// Fewest back-to-back repeats that count as a loop.
pub const MIN_REPEATS: usize = 8;

/// Fewest characters a loop must span.
pub const MIN_COVER: usize = 60;

/// How many further windows, starting at `j` and stepping by `p`, equal the
/// window `s[i..i+p]`.
pub open spec fn spec_run(s: Seq<char>, i: int, p: int, j: int) -> nat
    decreases s.len() - j,
    when p > 0
{
    if j + p <= s.len() && s.subrange(j, j + p) == s.subrange(i, i + p) {
        1 + spec_run(s, i, p, j + p)
    } else {
        0
    }
}

pub proof fn lemma_run_bound(s: Seq<char>, i: int, p: int, j: int)
    requires
        p > 0,
        j <= s.len(),
    ensures
        j + spec_run(s, i, p, j) * p <= s.len(),
    decreases s.len() - j,
{
    if j + p <= s.len() && s.subrange(j, j + p) == s.subrange(i, i + p) {
        lemma_run_bound(s, i, p, j + p);
        let k = spec_run(s, i, p, j + p);
        assert(spec_run(s, i, p, j) == 1 + k);
        assert(j + (1 + k) * p == j + p + k * p) by (nonlinear_arith);
    } else {
        assert(spec_run(s, i, p, j) == 0);
    }
}

/// How many times the window `s[i..i+p]` repeats back-to-back from `i`.
pub open spec fn spec_repeats(s: Seq<char>, i: int, p: int) -> nat {
    1 + spec_run(s, i, p, i + p)
}

/// Whether a window repeating `r` times spanning `r * p` chars is a loop.
pub open spec fn spec_is_loop(r: int, p: int) -> bool {
    r >= MIN_REPEATS && r * p >= MIN_COVER
}

/// The scan for one period `p` from alignment `i`: measure the run at `i`;
/// report a loop, or move past the measured run (or one char when the window
/// did not repeat) and continue.
pub open spec fn spec_scan(s: Seq<char>, p: int, i: int) -> bool
    decreases s.len() - i,
    when p > 0 && i >= 0
{
    if i + p > s.len() {
        false
    } else {
        let r = spec_repeats(s, i, p);
        if spec_is_loop(r as int, p) {
            true
        } else if r > 1 {
            proof {
                assert(r * p > 0) by (nonlinear_arith)
                    requires
                        r > 1,
                        p > 0,
                ;
                lemma_run_bound(s, i, p, i + p);
                let k = spec_run(s, i, p, i + p);
                assert(i + (1 + k) * p == i + p + k * p) by (nonlinear_arith);
            }
            spec_scan(s, p, i + r * p)
        } else {
            spec_scan(s, p, i + 1)
        }
    }
}

/// The largest period tried for a text of `n` characters.
pub open spec fn spec_max_period(n: int) -> int {
    if MAX_PERIOD < n / 2 {
        MAX_PERIOD as int
    } else {
        n / 2
    }
}

/// Whether `s` is dominated by runaway repetition: at least `MIN_COVER` chars
/// long, and for some period up to `MAX_PERIOD` (and half the length) the scan
/// finds a unit repeated at least `MIN_REPEATS` times over at least
/// `MIN_COVER` chars.
pub open spec fn spec_looks_repetitive(s: Seq<char>) -> bool {
    s.len() >= MIN_COVER && exists|p: int|
        1 <= p <= spec_max_period(s.len() as int) && #[trigger] spec_scan(s, p, 0)
}

/// `s[i..i+p]` occurs `r` times back-to-back from `i`.
pub open spec fn spec_periodic(s: Seq<char>, i: int, p: int, r: int) -> bool {
    &&& 0 <= i
    &&& i + r * p <= s.len()
    &&& forall|k: int| 0 <= k < r ==> #[trigger] s.subrange(i + k * p, i + k * p + p) == s.subrange(i, i + p)
}

proof fn lemma_run_periodic(s: Seq<char>, i: int, p: int, j: int)
    requires
        p > 0,
        0 <= i,
        i + p <= j,
        (j - i) % p == 0,
        spec_periodic(s, i, p, (j - i) / p),
    ensures
        spec_periodic(s, i, p, (j - i) / p + spec_run(s, i, p, j)),
    decreases s.len() - j,
{
    if j + p <= s.len() && s.subrange(j, j + p) == s.subrange(i, i + p) {
        let r = (j - i) / p;
        assert((j + p - i) / p == r + 1) by (nonlinear_arith)
            requires
                (j - i) % p == 0,
                r == (j - i) / p,
                p > 0,
        ;
        assert((j + p - i) % p == 0) by (nonlinear_arith)
            requires
                (j - i) % p == 0,
                p > 0,
        ;
        assert(j == i + r * p) by (nonlinear_arith)
            requires
                (j - i) % p == 0,
                r == (j - i) / p,
                p > 0,
        ;
        assert forall|k: int| 0 <= k < r + 1 implies #[trigger] s.subrange(
            i + k * p,
            i + k * p + p,
        ) == s.subrange(i, i + p) by {
            if k == r {
                assert(i + k * p == j);
            }
        }
        assert(i + (r + 1) * p <= s.len()) by (nonlinear_arith)
            requires
                j == i + r * p,
                j + p <= s.len(),
        ;
        assert(spec_periodic(s, i, p, r + 1));
        lemma_run_periodic(s, i, p, j + p);
    }
}

/// A loop the scan reports is a real one: some window of at most
/// `MAX_PERIOD` chars repeats at least `MIN_REPEATS` times back-to-back over
/// at least `MIN_COVER` chars.
pub proof fn lemma_scan_sound(s: Seq<char>, p: int, i: int)
    requires
        p > 0,
        i >= 0,
        spec_scan(s, p, i),
    ensures
        exists|j: int, r: int| spec_is_loop(r, p) && #[trigger] spec_periodic(s, j, p, r),
    decreases s.len() - i,
{
    let r = spec_repeats(s, i, p);
    assert(i + p <= s.len());
    if spec_is_loop(r as int, p) {
        assert((i + p - i) / p == 1) by (nonlinear_arith)
            requires
                p > 0,
        ;
        assert((i + p - i) % p == 0) by (nonlinear_arith)
            requires
                p > 0,
        ;
        assert forall|k: int| 0 <= k < 1 implies #[trigger] s.subrange(i + k * p, i + k * p + p)
            == s.subrange(i, i + p) by {
            assert(k == 0);
        }
        lemma_run_periodic(s, i, p, i + p);
        assert(spec_periodic(s, i, p, r as int));
    } else if r > 1 {
        assert(r * p > 0) by (nonlinear_arith)
            requires
                r > 1,
                p > 0,
        ;
        lemma_run_bound(s, i, p, i + p);
        let k = spec_run(s, i, p, i + p);
        assert(i + (1 + k) * p == i + p + k * p) by (nonlinear_arith);
        assert(s.len() - (i + r * p) < s.len() - i);
        lemma_scan_sound(s, p, i + r * p);
    } else {
        lemma_scan_sound(s, p, i + 1);
    }
}

/// Whether `cs[i..i+p] == cs[j..j+p]`.
fn windows_equal(cs: &Vec<char>, i: usize, j: usize, p: usize) -> (r: bool)
    requires
        i + p <= cs@.len(),
        j + p <= cs@.len(),
    ensures
        r == (cs@.subrange(j as int, j + p) == cs@.subrange(i as int, i + p)),
{
    let mut k: usize = 0;
    while k < p
        invariant
            i + p <= cs.len(),
            j + p <= cs.len(),
            k <= p,
            cs@.subrange(i as int, i + k) == cs@.subrange(j as int, j + k),
        decreases p - k,
    {
        if cs[i + k] != cs[j + k] {
            assert(cs@.subrange(j as int, j + p)[k as int] != cs@.subrange(i as int, i + p)[k as int]);
            return false;
        }
        assert(cs@.subrange(i as int, i + k + 1) =~= cs@.subrange(i as int, i + k).push(cs@[i + k]));
        assert(cs@.subrange(j as int, j + k + 1) =~= cs@.subrange(j as int, j + k).push(cs@[j + k]));
        k = k + 1;
    }
    true
}

/// Measures the run at `i` for period `p`; returns `(repeats, end)` where
/// `end = i + repeats * p`.
fn measure_run(cs: &Vec<char>, i: usize, p: usize) -> (r: (usize, usize))
    requires
        p > 0,
        i + p <= cs@.len(),
    ensures
        r.0 == spec_repeats(cs@, i as int, p as int),
        r.1 == i + r.0 * p,
        r.1 <= cs@.len(),
        r.1 >= i + p,
        r.0 >= 1,
{
    let n = cs.len();
    let mut j = i + p;
    let mut repeats: usize = 1;
    while p <= n - j && windows_equal(cs, i, j, p)
        invariant
            n == cs@.len(),
            p > 0,
            i + p <= j <= n,
            repeats >= 1,
            j == i + repeats * p,
            spec_repeats(cs@, i as int, p as int) == repeats + spec_run(cs@, i as int, p as int, j as int),
        decreases n - j,
    {
        assert(repeats <= j) by (nonlinear_arith)
            requires
                j == i + repeats * p,
                p > 0,
        ;
        repeats = repeats + 1;
        j = j + p;
        assert(j == i + repeats * p) by (nonlinear_arith)
            requires
                j == i + (repeats - 1) * p + p,
        ;
    }
    (repeats, j)
}

/// The scan for one period, from alignment 0.
fn scan_period(cs: &Vec<char>, p: usize) -> (r: bool)
    requires
        p > 0,
    ensures
        r == spec_scan(cs@, p as int, 0),
{
    let n = cs.len();
    let mut i: usize = 0;
    while i <= n && p <= n - i
        invariant
            n == cs@.len(),
            p > 0,
            spec_scan(cs@, p as int, 0) == spec_scan(cs@, p as int, i as int),
        decreases n - i,
    {
        let (repeats, end) = measure_run(cs, i, p);
        if repeats >= MIN_REPEATS && repeats * p >= MIN_COVER {
            return true;
        }
        if repeats > 1 {
            i = end;
        } else {
            i = i + 1;
        }
    }
    false
}

/// Whether `s` is dominated by runaway repetition — a unit of up to
/// `MAX_PERIOD` chars repeated at least `MIN_REPEATS` times back-to-back over
/// at least `MIN_COVER` chars — so ordinary emphasis ("!!!", "哈哈哈") stays
/// under the bar.
pub fn looks_repetitive(s: &str) -> (r: bool)
    ensures
        r == spec_looks_repetitive(s@),
        r ==> exists|j: int, p: int, k: int|
            1 <= p <= MAX_PERIOD && spec_is_loop(k, p) && #[trigger] spec_periodic(s@, j, p, k),
{
    let cs = chars_of(s);
    let n = cs.len();
    if n < MIN_COVER {
        return false;
    }
    let maxp: usize = if MAX_PERIOD < n / 2 {
        MAX_PERIOD
    } else {
        n / 2
    };
    let mut p: usize = 1;
    while p <= maxp
        invariant
            cs@ == s@,
            n == cs@.len(),
            n >= MIN_COVER,
            maxp == spec_max_period(n as int),
            1 <= p <= maxp + 1,
            forall|q: int| 1 <= q < p ==> !#[trigger] spec_scan(cs@, q, 0),
        decreases maxp + 1 - p,
    {
        if scan_period(&cs, p) {
            proof {
                lemma_scan_sound(cs@, p as int, 0);
            }
            return true;
        }
        p = p + 1;
    }
    false
}

/// A usable decision, or why the output can't be used: a spoken line or mood
/// that is runaway repetition is rejected; otherwise the arguments map onto a
/// decision (an under-specified one degrading to a silent read).
pub open spec fn spec_check_decision(args: RespondArgs) -> Result<Respond, BadOutput> {
    if (args.message matches Some(m) && spec_looks_repetitive(m@)) || (args.mood matches Some(
        md,
    ) && spec_looks_repetitive(md@)) {
        Err(BadOutput::Repetitive)
    } else {
        Ok(spec_to_respond(args))
    }
}

/// Checks parsed `respond` arguments, rejecting runaway repetition.
pub fn check_decision(args: RespondArgs) -> (r: Result<Respond, BadOutput>)
    ensures
        r == spec_check_decision(args),
{
    let bad_message = match &args.message {
        Some(m) => looks_repetitive(m.as_str()),
        None => false,
    };
    let bad_mood = match &args.mood {
        Some(m) => looks_repetitive(m.as_str()),
        None => false,
    };
    if bad_message || bad_mood {
        return Err(BadOutput::Repetitive);
    }
    Ok(to_respond(args))
}

/// Statuses worth an automatic retry: timeouts, rate limits and server
/// overload; a failure with no status (transport) is retryable too.
pub open spec fn spec_is_retryable(status: Option<u16>) -> bool {
    match status {
        Some(code) => code == 408 || code == 429 || code == 500 || code == 502 || code == 503
            || code == 504,
        None => true,
    }
}

/// Whether a failure with this HTTP status is worth an automatic retry.
pub fn is_retryable(status: Option<u16>) -> (r: bool)
    ensures
        r == spec_is_retryable(status),
{
    match status {
        Some(code) => code == 408 || code == 429 || code == 500 || code == 502 || code == 503
            || code == 504,
        None => true,
    }
}

/// Saturating sum of two counts.
pub open spec fn spec_sat_add(a: u64, b: u64) -> u64 {
    if a + b > u64::MAX {
        u64::MAX
    } else {
        (a + b) as u64
    }
}

/// Sums two usage records field by field, saturating.
pub fn add_usage(a: TokenUsage, b: TokenUsage) -> (r: TokenUsage)
    ensures
        r.prompt_tokens == spec_sat_add(a.prompt_tokens, b.prompt_tokens),
        r.completion_tokens == spec_sat_add(a.completion_tokens, b.completion_tokens),
        r.total_tokens == spec_sat_add(a.total_tokens, b.total_tokens),
        r.cached_prompt_tokens == spec_sat_add(a.cached_prompt_tokens, b.cached_prompt_tokens),
{
    TokenUsage {
        prompt_tokens: a.prompt_tokens.saturating_add(b.prompt_tokens),
        completion_tokens: a.completion_tokens.saturating_add(b.completion_tokens),
        total_tokens: a.total_tokens.saturating_add(b.total_tokens),
        cached_prompt_tokens: a.cached_prompt_tokens.saturating_add(b.cached_prompt_tokens),
    }
}

/// A provider's usage report as our token usage: the prompt, completion and
/// cached-prompt counts as reported, and the total as reported, or (when the
/// provider reports none) prompt plus completion, saturating.
pub fn to_token_usage(input_tokens: u64, output_tokens: u64, total_tokens: u64, cached_input_tokens: u64) -> (r: TokenUsage)
    ensures
        r.prompt_tokens == input_tokens,
        r.completion_tokens == output_tokens,
        r.total_tokens == if total_tokens > 0 {
            total_tokens
        } else {
            spec_sat_add(input_tokens, output_tokens)
        },
        r.cached_prompt_tokens == cached_input_tokens,
{
    let total = if total_tokens > 0 {
        total_tokens
    } else {
        input_tokens.saturating_add(output_tokens)
    };
    TokenUsage {
        prompt_tokens: input_tokens,
        completion_tokens: output_tokens,
        total_tokens: total,
        cached_prompt_tokens: cached_input_tokens,
    }
}

/// Longest log preview, in characters.
pub const PREVIEW_MAX: usize = 160;

/// The preview of a text: trimmed, cut to `PREVIEW_MAX` chars, with `…` when
/// something was cut.
pub open spec fn spec_preview(s: Seq<char>) -> Seq<char> {
    let t = spec_trim(s);
    if t.len() > PREVIEW_MAX {
        t.subrange(0, PREVIEW_MAX as int).push('…')
    } else {
        t
    }
}

/// A short, single-line preview of model output for logs.
pub fn preview(s: &str) -> (r: String)
    ensures
        r@ == spec_preview(s@),
{
    let t = trim(s);
    let cs = chars_of(t.as_str());
    if cs.len() > PREVIEW_MAX {
        let mut out = crate::text::string_from_range(&cs, 0, PREVIEW_MAX);
        push_char(&mut out, '…');
        out
    } else {
        t
    }
}

/// `s` without any trailing `/`.
pub open spec fn spec_trim_end_slashes(s: Seq<char>) -> Seq<char>
    decreases s.len(),
{
    if s.len() > 0 && s.last() == '/' {
        spec_trim_end_slashes(s.drop_last())
    } else {
        s
    }
}

/// A base URL compared loosely: trimmed, trailing slashes dropped, ASCII
/// lowercased.
pub open spec fn spec_normalize_base_url(url: Seq<char>) -> Seq<char> {
    spec_ascii_lower_seq(spec_trim_end_slashes(spec_trim(url)))
}

/// Normalizes a base URL for comparison.
pub fn normalize_base_url(url: &str) -> (r: String)
    ensures
        r@ == spec_normalize_base_url(url@),
{
    let t = trim(url);
    let cs = chars_of(t.as_str());
    let mut hi = cs.len();
    assert(cs@.subrange(0, cs@.len() as int) =~= cs@);
    while hi > 0 && cs[hi - 1] == '/'
        invariant
            hi <= cs@.len(),
            spec_trim_end_slashes(cs@) == spec_trim_end_slashes(cs@.subrange(0, hi as int)),
        decreases hi,
    {
        assert(cs@.subrange(0, hi as int).drop_last() =~= cs@.subrange(0, hi - 1));
        hi = hi - 1;
    }
    proof {
        assert(cs@.subrange(0, cs@.len() as int) =~= cs@);
    }
    let kept = crate::text::string_from_range(&cs, 0, hi);
    to_ascii_lower(kept.as_str())
}

/// Whether a base URL points at Gemini's OpenAI-compatibility endpoint.
pub open spec fn spec_is_gemini_openai_compat(url: Seq<char>) -> bool {
    let n = spec_normalize_base_url(url);
    spec_contains(n, "generativelanguage.googleapis.com"@) && spec_ends_with(n, "/openai"@)
}

/// Whether a base URL points at Gemini's OpenAI-compatibility endpoint — the
/// signal to drive the native Gemini provider instead.
pub fn is_gemini_openai_compat(base_url: &str) -> (r: bool)
    ensures
        r == spec_is_gemini_openai_compat(base_url@),
{
    let normalized = normalize_base_url(base_url);
    let cs = chars_of(normalized.as_str());
    let host = chars_of("generativelanguage.googleapis.com");
    let tail = chars_of("/openai");
    contains_chars(&cs, &host) && ends_with(&cs, &tail)
}

/// What one decision attempt came back with.
#[derive(Clone, Copy, Debug, PartialEq, Eq, Structural)]
pub enum AttemptResult {
    /// The request failed in transport or at the provider, with this status.
    Failed { status: Option<u16> },
    /// The model answered, but the answer can't be used.
    Unusable(BadOutput),
    /// The model answered with a usable decision.
    Usable,
}

/// What the decision loop does next.
#[derive(Clone, Copy, Debug, PartialEq, Eq, Structural)]
pub enum RetryStep {
    /// Hand the usable decision back.
    Finish,
    /// Ask again at once, with the corrective hint for this bad output.
    RetryWithHint(BadOutput),
    /// Wait out a backoff, then ask again (with no hint).
    RetryAfterBackoff,
    /// Give up and surface the failure to the chat.
    GiveUp,
}

/// The retry rule: a usable answer finishes; unusable output is retried with
/// a hint while retries remain; a retryable failure is retried after a
/// backoff while retries remain; anything else gives up.
pub open spec fn spec_retry_step(attempt: u32, max_retries: u32, result: AttemptResult) -> RetryStep {
    match result {
        AttemptResult::Usable => RetryStep::Finish,
        AttemptResult::Unusable(bad) => if attempt < max_retries {
            RetryStep::RetryWithHint(bad)
        } else {
            RetryStep::GiveUp
        },
        AttemptResult::Failed { status } => if spec_is_retryable(status) && attempt < max_retries {
            RetryStep::RetryAfterBackoff
        } else {
            RetryStep::GiveUp
        },
    }
}

/// Decides what the decision loop does after attempt number `attempt`
/// (0-based) came back with `result`.
pub fn retry_step(attempt: u32, max_retries: u32, result: AttemptResult) -> (r: RetryStep)
    ensures
        r == spec_retry_step(attempt, max_retries, result),
{
    match result {
        AttemptResult::Usable => RetryStep::Finish,
        AttemptResult::Unusable(bad) => if attempt < max_retries {
            RetryStep::RetryWithHint(bad)
        } else {
            RetryStep::GiveUp
        },
        AttemptResult::Failed { status } => if is_retryable(status) && attempt < max_retries {
            RetryStep::RetryAfterBackoff
        } else {
            RetryStep::GiveUp
        },
    }
}

/// The retry rule over every attempt: a usable answer always finishes; while
/// retries remain, unusable output is retried at once with its hint, and a
/// transport failure (no status) or a transient provider status (408, 429,
/// 500, 502, 503, 504) is retried after a backoff; any other status gives up
/// at once; and once the retries are spent, every failure gives up.
pub proof fn lemma_retry_rule(attempt: u32, max_retries: u32, bad: BadOutput, code: u16)
    ensures
        spec_retry_step(attempt, max_retries, AttemptResult::Usable) == RetryStep::Finish,
        attempt < max_retries ==> spec_retry_step(attempt, max_retries, AttemptResult::Unusable(bad))
            == RetryStep::RetryWithHint(bad),
        attempt < max_retries ==> spec_retry_step(attempt, max_retries, AttemptResult::Failed { status: None })
            == RetryStep::RetryAfterBackoff,
        attempt < max_retries && (code == 408 || code == 429 || code == 500 || code == 502 || code == 503
            || code == 504) ==> spec_retry_step(attempt, max_retries, AttemptResult::Failed { status: Some(code) })
            == RetryStep::RetryAfterBackoff,
        !(code == 408 || code == 429 || code == 500 || code == 502 || code == 503 || code == 504)
            ==> spec_retry_step(attempt, max_retries, AttemptResult::Failed { status: Some(code) }) == RetryStep::GiveUp,
        attempt >= max_retries ==> spec_retry_step(attempt, max_retries, AttemptResult::Unusable(bad)) == RetryStep::GiveUp,
        attempt >= max_retries ==> spec_retry_step(attempt, max_retries, AttemptResult::Failed { status: None })
            == RetryStep::GiveUp,
        attempt >= max_retries ==> spec_retry_step(attempt, max_retries, AttemptResult::Failed { status: Some(code) })
            == RetryStep::GiveUp,
{
}

/// A decision request issues at most `max_retries + 1` attempts: from
/// attempt `max_retries` on, no result leads to another attempt.
pub proof fn lemma_attempts_bounded(attempt: u32, max_retries: u32, result: AttemptResult)
    requires
        attempt >= max_retries,
    ensures
        spec_retry_step(attempt, max_retries, result) == RetryStep::Finish
            || spec_retry_step(attempt, max_retries, result) == RetryStep::GiveUp,
{
}

/// A permanent provider error (a status outside the retryable set) is never
/// retried, however many retries remain.
pub proof fn lemma_permanent_errors_not_retried(attempt: u32, max_retries: u32, code: u16)
    requires
        !spec_is_retryable(Some(code)),
    ensures
        spec_retry_step(attempt, max_retries, AttemptResult::Failed { status: Some(code) })
            == RetryStep::GiveUp,
{
}

/// The usage a failed decision reports: what earlier attempts spent, or none
/// when nothing was billed.
pub fn failed_usage(acc: TokenUsage) -> (r: Option<TokenUsage>)
    ensures
        acc.total_tokens > 0 ==> r == Some(acc),
        acc.total_tokens == 0 ==> r is None,
{
    if acc.total_tokens > 0 {
        Some(acc)
    } else {
        None
    }
}

// --- Backoff between retries ------------------------------------------------------

/// The longest wait before a retry, in milliseconds.
pub const MAX_BACKOFF_MS: u64 = 30_000;

/// The most jitter added to a server-supplied retry hint, in milliseconds.
pub const HINT_JITTER_MS: u64 = 250;

/// `2^53`: jitter draws are 53-bit fractions of this.
pub const JITTER_SCALE: u64 = 9_007_199_254_740_992;

/// `2^k`.
pub open spec fn spec_pow2(k: nat) -> nat
    decreases k,
{
    if k == 0 {
        1
    } else {
        2 * spec_pow2((k - 1) as nat)
    }
}

/// The exponential schedule's interval for a (0-based) retry: the base
/// doubled per retry (at most 16 doublings), capped.
pub open spec fn spec_backoff_cap(retry_base_ms: u64, attempt: u32) -> int {
    let k: nat = if attempt <= 16 { attempt as nat } else { 16 };
    let raw: int = retry_base_ms * spec_pow2(k);
    if raw <= MAX_BACKOFF_MS {
        raw
    } else {
        MAX_BACKOFF_MS as int
    }
}

/// The wait before a retry for a given 53-bit jitter draw. A server hint is
/// honoured first (capped), plus up to `HINT_JITTER_MS` of jitter; otherwise
/// equal jitter over the schedule's interval: half of it for sure, the other
/// half scaled by the draw.
pub open spec fn spec_backoff_ms(retry_base_ms: u64, attempt: u32, hint_ms: Option<u64>, jitter: u64) -> int {
    match hint_ms {
        Some(h) => {
            let base: int = if h <= MAX_BACKOFF_MS { h as int } else { MAX_BACKOFF_MS as int };
            base + (jitter * HINT_JITTER_MS) / (JITTER_SCALE as int)
        },
        None => {
            let half: int = spec_backoff_cap(retry_base_ms, attempt) / 2;
            half + (half * jitter) / (JITTER_SCALE as int)
        },
    }
}

/// The wait before retry number `attempt` (0-based) for a given jitter draw
/// below `2^53`, in milliseconds.
pub fn backoff_with(retry_base_ms: u64, attempt: u32, hint_ms: Option<u64>, jitter: u64) -> (r: u64)
    requires
        jitter < JITTER_SCALE,
    ensures
        r == spec_backoff_ms(retry_base_ms, attempt, hint_ms, jitter),
{
    match hint_ms {
        Some(h) => {
            let base: u64 = if h <= MAX_BACKOFF_MS { h } else { MAX_BACKOFF_MS };
            let extra: u128 = (jitter as u128) * (HINT_JITTER_MS as u128) / (JITTER_SCALE as u128);
            proof {
                assert((jitter * HINT_JITTER_MS) / (JITTER_SCALE as int) < 250) by (nonlinear_arith)
                    requires
                        jitter < JITTER_SCALE,
                        HINT_JITTER_MS == 250,
                        JITTER_SCALE == 9_007_199_254_740_992,
                ;
            }
            base + (extra as u64)
        },
        None => {
            let k: u32 = if attempt <= 16 { attempt } else { 16 };
            let mut p: u64 = 1;
            let mut i: u32 = 0;
            while i < k
                invariant
                    i <= k <= 16,
                    p == spec_pow2(i as nat),
                    p <= 65536,
                decreases k - i,
            {
                proof {
                    assert(spec_pow2((i + 1) as nat) == 2 * spec_pow2(i as nat));
                    if i < 16 {
                        lemma_pow2_bound(i as nat);
                    }
                }
                p = p * 2;
                i = i + 1;
            }
            proof {
                assert((retry_base_ms as u128) * (p as u128) <= 18_446_744_073_709_551_615u128 * 65536u128) by (nonlinear_arith)
                    requires
                        p <= 65536,
                ;
            }
            let raw: u128 = (retry_base_ms as u128) * (p as u128);
            let cap: u64 = if raw <= MAX_BACKOFF_MS as u128 { raw as u64 } else { MAX_BACKOFF_MS };
            let half: u64 = cap / 2;
            proof {
                assert((half * jitter) / (JITTER_SCALE as int) <= half) by (nonlinear_arith)
                    requires
                        jitter < JITTER_SCALE,
                        JITTER_SCALE == 9_007_199_254_740_992,
                ;
                assert(half <= 15000);
            }
            let extra: u128 = (half as u128) * (jitter as u128) / (JITTER_SCALE as u128);
            half + (extra as u64)
        },
    }
}

/// `2^k` grows with `k`.
proof fn lemma_pow2_mono(i: nat, j: nat)
    requires
        i <= j,
    ensures
        spec_pow2(i) <= spec_pow2(j),
    decreases j,
{
    if j > i {
        lemma_pow2_mono(i, (j - 1) as nat);
    }
}

/// `2^k` stays within `2^16` below 16 doublings.
proof fn lemma_pow2_bound(k: nat)
    requires
        k < 16,
    ensures
        2 * spec_pow2(k) <= 65536,
{
    lemma_pow2_mono(k, 15);
    reveal_with_fuel(spec_pow2, 16);
    assert(spec_pow2(15) == 32768);
}

/// The wait never exceeds its window: without a hint it lies in
/// `[cap/2, cap)` of the schedule's interval (or is 0 when that is below 2);
/// with one, in `[min(hint, 30s), min(hint, 30s) + 250ms)`.
pub proof fn lemma_backoff_window(retry_base_ms: u64, attempt: u32, hint_ms: Option<u64>, jitter: u64)
    requires
        jitter < JITTER_SCALE,
    ensures
        ({
            let w = spec_backoff_ms(retry_base_ms, attempt, hint_ms, jitter);
            match hint_ms {
                Some(h) => {
                    let base: int = if h <= MAX_BACKOFF_MS { h as int } else { MAX_BACKOFF_MS as int };
                    base <= w < base + HINT_JITTER_MS
                },
                None => {
                    let cap = spec_backoff_cap(retry_base_ms, attempt);
                    &&& cap / 2 <= w <= cap
                    &&& cap >= 2 ==> w < cap
                    &&& cap <= MAX_BACKOFF_MS
                },
            }
        }),
{
    match hint_ms {
        Some(h) => {
            assert((jitter * HINT_JITTER_MS) / (JITTER_SCALE as int) < 250) by (nonlinear_arith)
                requires
                    jitter < JITTER_SCALE,
                    HINT_JITTER_MS == 250,
                    JITTER_SCALE == 9_007_199_254_740_992,
            ;
        },
        None => {
            let half: int = spec_backoff_cap(retry_base_ms, attempt) / 2;
            assert((half * jitter) / (JITTER_SCALE as int) < half || half == 0) by (nonlinear_arith)
                requires
                    half >= 0,
                    jitter < JITTER_SCALE,
                    JITTER_SCALE == 9_007_199_254_740_992,
            ;
        },
    }
}

/// The current time in nanoseconds since the Unix epoch, truncated to 64
/// bits; 0 if the clock is before the epoch (`SystemTime::now`). Nothing is
/// stated of the reading.
#[verifier::external_body]
fn now_nanos() -> (r: u64) {
    std::time::SystemTime::now().duration_since(std::time::UNIX_EPOCH).map(|d| d.as_nanos() as u64).unwrap_or(0)
}

/// The 53-bit jitter drawn from a clock reading: one SplitMix64 step from
/// the reading, its top 53 bits.
pub open spec fn spec_jitter_bits(nanos: u64) -> u64 {
    crate::agent::turn::spec_splitmix_out(
        vstd::wrapping::u64_specs::wrapping_add(nanos, crate::agent::turn::GOLDEN_GAMMA),
    ) >> 11u64
}

/// A fresh 53-bit jitter draw from the wall clock.
fn jitter_bits() -> (r: u64)
    ensures
        exists|nanos: u64| #[trigger] spec_jitter_bits(nanos) == r,
        r < JITTER_SCALE,
{
    let nanos = now_nanos();
    let mut rng = crate::agent::turn::Rng::new(nanos);
    let z = rng.next_u64();
    let r = z >> 11u64;
    assert(z >> 11u64 < 9_007_199_254_740_992u64) by (bit_vector);
    assert(spec_jitter_bits(nanos) == r);
    r
}

/// The wait before retry number `attempt` (0-based), jittered from the wall
/// clock: see [`spec_backoff_ms`] for the rule and [`lemma_backoff_window`]
/// for the window it lands in.
pub fn backoff(retry_base_ms: u64, attempt: u32, hint_ms: Option<u64>) -> (r: u64)
    ensures
        exists|j: u64| j < JITTER_SCALE && r == spec_backoff_ms(retry_base_ms, attempt, hint_ms, j),
{
    let j = jitter_bits();
    backoff_with(retry_base_ms, attempt, hint_ms, j)
}

} // verus!
