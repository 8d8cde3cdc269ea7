use agoralume::agent::brain::{Action, AgentPersona, MemberInfo};
use agoralume::agent::event::{appraise, Event, Salience};
use agoralume::agent::framing::{
    attempt_text, decision_preamble, select_suggestions, suggestion_input, summary_input, GUIDANCE, RECALL_GUIDANCE,
    REMEMBER_GUIDANCE,
};
use agoralume::agent::brain::{SuggestionRequest, SummaryRequest};
use agoralume::agent::output::{backoff, backoff_with, to_token_usage, JITTER_SCALE, MAX_BACKOFF_MS};
use agoralume::agent::output::{
    add_usage, check_decision, is_gemini_openai_compat, is_retryable, looks_repetitive, normalize_base_url, preview,
    retry_step, to_respond, ActionKind, AttemptResult, BadOutput, RespondArgs, RetryStep,
};
use agoralume::agent::prompt::{assemble_prompt, assemble_prompt_at, build_transcript, format_ts, xml_escape, ContextLine};
use agoralume::agent::ratelimit::RateLimiter;
use agoralume::agent::tools::{recall, remember};
use agoralume::agent::turn::{continue_turn, dispatch, on_interrupt, read_target, route, seed_events, shuffle, unread_members, Interrupt, Rng};
use agoralume::models::{Message, Persona, PersonaKind, TokenUsage};
use agoralume::workspace::RosterMember;

fn args(action: ActionKind, message: Option<&str>, mood: Option<&str>) -> RespondArgs {
    RespondArgs { action, message: message.map(str::to_string), mood: mood.map(str::to_string) }
}

#[test]
fn maps_each_action() {
    let r = to_respond(args(ActionKind::Speak, Some("hi"), None));
    assert_eq!(r.action, Action::Speak);
    assert_eq!(r.message.as_deref(), Some("hi"));

    let r = to_respond(args(ActionKind::SpeakWithMood, Some("hi"), Some("🙂 glad")));
    assert_eq!(r.action, Action::SpeakWithMood);
    assert_eq!(r.mood.as_deref(), Some("🙂 glad"));

    let r = to_respond(args(ActionKind::Mood, None, Some("🤔 thinking")));
    assert_eq!(r.action, Action::Mood);
    assert_eq!(r.mood.as_deref(), Some("🤔 thinking"));

    assert_eq!(to_respond(args(ActionKind::Read, None, None)).action, Action::Read);
}

#[test]
fn retryable_covers_transient_failures_only() {
    for code in [408, 429, 500, 502, 503, 504] {
        assert!(is_retryable(Some(code)), "{code} should be retryable");
    }
    for code in [400, 401, 403, 404, 422] {
        assert!(!is_retryable(Some(code)), "{code} should not be retryable");
    }
    assert!(is_retryable(None));
}

#[test]
fn detects_gemini_openai_compat_endpoint() {
    assert!(is_gemini_openai_compat("https://generativelanguage.googleapis.com/v1beta/openai/"));
    assert!(is_gemini_openai_compat("https://generativelanguage.googleapis.com/v1beta/openai"));
    assert!(is_gemini_openai_compat("  HTTPS://generativelanguage.googleapis.com/v1beta/OpenAI/  "));
    assert!(!is_gemini_openai_compat("https://api.openai.com/v1"));
    assert!(!is_gemini_openai_compat("http://localhost:11434/v1"));
    assert!(!is_gemini_openai_compat("https://generativelanguage.googleapis.com"));
}

#[test]
fn degrades_when_required_field_missing() {
    assert_eq!(to_respond(args(ActionKind::Speak, None, None)).action, Action::Read);
    assert_eq!(to_respond(args(ActionKind::Speak, Some("   "), None)).action, Action::Read);
    assert_eq!(to_respond(args(ActionKind::SpeakWithMood, Some("hi"), None)).action, Action::Speak);
    assert_eq!(to_respond(args(ActionKind::SpeakWithMood, None, Some("🙂 glad"))).action, Action::Mood);
    assert_eq!(to_respond(args(ActionKind::Mood, None, None)).action, Action::Read);
}

#[test]
fn flags_runaway_repetition_only() {
    assert!(looks_repetitive(&"🏐💥🚀🔥💪✨🚀🎉".repeat(30)));
    assert!(looks_repetitive(&"!".repeat(80)));
    assert!(looks_repetitive(&"哈".repeat(80)));
    assert!(!looks_repetitive("哈哈哈"));
    assert!(!looks_repetitive("好的！！！我知道了"));
    assert!(!looks_repetitive("這是一句正常、稍微長一點點的聊天訊息，內容沒有任何連續重複的片段。"));
}

#[test]
fn add_usage_sums_each_field() {
    let a = TokenUsage { prompt_tokens: 10, completion_tokens: 5, total_tokens: 15, cached_prompt_tokens: 2 };
    let b = TokenUsage { prompt_tokens: 3, completion_tokens: 7, total_tokens: 10, cached_prompt_tokens: 1 };
    let sum = add_usage(a, b);
    assert_eq!(sum.prompt_tokens, 13);
    assert_eq!(sum.completion_tokens, 12);
    assert_eq!(sum.total_tokens, 25);
    assert_eq!(sum.cached_prompt_tokens, 3);
}

#[test]
fn add_usage_saturates_instead_of_wrapping() {
    let a = TokenUsage { prompt_tokens: u64::MAX, completion_tokens: 1, total_tokens: u64::MAX - 1, cached_prompt_tokens: 0 };
    let b = TokenUsage { prompt_tokens: 5, completion_tokens: 1, total_tokens: 5, cached_prompt_tokens: 0 };
    let sum = add_usage(a, b);
    assert_eq!(sum.prompt_tokens, u64::MAX);
    assert_eq!(sum.completion_tokens, 2);
    assert_eq!(sum.total_tokens, u64::MAX);
}

#[test]
fn clean_output_passes_and_spam_is_rejected() {
    let ok = check_decision(args(ActionKind::Speak, Some("hello"), None)).unwrap();
    assert_eq!(ok.action, Action::Speak);
    let spam = "🔥🚀".repeat(50);
    assert!(matches!(check_decision(args(ActionKind::Speak, Some(&spam), None)), Err(BadOutput::Repetitive)));
    let read = check_decision(args(ActionKind::Speak, None, None)).unwrap();
    assert_eq!(read.action, Action::Read);
}

#[test]
fn retries_stop_at_the_cap_and_on_permanent_errors() {
    assert_eq!(retry_step(0, 2, AttemptResult::Failed { status: Some(429) }), RetryStep::RetryAfterBackoff);
    assert_eq!(retry_step(2, 2, AttemptResult::Failed { status: Some(429) }), RetryStep::GiveUp);
    assert_eq!(retry_step(0, 2, AttemptResult::Failed { status: Some(401) }), RetryStep::GiveUp);
    assert_eq!(retry_step(1, 2, AttemptResult::Unusable(BadOutput::Malformed)), RetryStep::RetryWithHint(BadOutput::Malformed));
    assert_eq!(retry_step(1, 2, AttemptResult::Usable), RetryStep::Finish);
}

#[test]
fn normalized_base_urls_ignore_case_space_and_trailing_slashes() {
    assert_eq!(normalize_base_url("  HTTPS://API.OPENAI.COM/v1//  "), "https://api.openai.com/v1");
}

#[test]
fn preview_keeps_short_text_whole() {
    assert_eq!(preview("short"), "short");
    assert!(preview(&"x".repeat(500)).chars().count() <= 161);
}

fn persona() -> AgentPersona {
    AgentPersona { name: "Aria".into(), system_prompt: "You are Aria.".into(), variables: Vec::new() }
}

#[test]
fn roster_lists_members_and_marks_the_user() {
    let roster = vec![
        RosterMember { name: "You".into(), blurb: Some("Your own voice.".into()), is_self: true },
        RosterMember { name: "Nox".into(), blurb: Some("Dry strategist.".into()), is_self: false },
        RosterMember { name: "Sol".into(), blurb: None, is_self: false },
    ];
    let prompt = assemble_prompt(&persona(), &roster, &vec![], &vec![], &vec![], "");
    assert!(prompt.system.contains("<group_members>"));
    assert!(prompt.system.contains("You (the user): Your own voice."));
    assert!(prompt.system.contains("Nox: Dry strategist."));
    assert!(prompt.system.contains("- Sol\n"));
}

#[test]
fn directory_lists_workspace_members_outside_the_room() {
    let roster = vec![RosterMember { name: "Aria".into(), blurb: None, is_self: false }];
    let directory = vec![
        MemberInfo { name: "Aria".into(), blurb: None, is_user: false },
        MemberInfo { name: "You".into(), blurb: Some("Your own voice.".into()), is_user: true },
        MemberInfo { name: "Nox".into(), blurb: Some("Dry strategist.".into()), is_user: false },
    ];
    let prompt = assemble_prompt(&persona(), &roster, &directory, &vec![], &vec![], "");
    assert!(prompt.system.contains("<directory>"));
    assert!(prompt.system.contains("You (the user): Your own voice."));
    assert!(prompt.system.contains("Nox: Dry strategist."));
    let directory_section = prompt.system.split("<directory>").nth(1).unwrap();
    assert!(!directory_section.contains("Aria"));
}

#[test]
fn injects_local_time_with_timezone() {
    let prompt = assemble_prompt(&persona(), &vec![], &vec![], &vec![], &vec![], "2026-07-25T15:30:00+08:00");
    assert!(prompt.conversation.contains("<time>"));
    assert!(prompt.conversation.contains("2026-07-25T15:30:00+08:00"));
}

#[test]
fn transcript_messages_are_xml_isolated_with_a_timestamp() {
    let transcript = vec![ContextLine { name: "You".into(), text: "hi <there>".into(), ts: 1_774_396_800_000 }];
    let prompt = assemble_prompt(&persona(), &vec![], &vec![], &transcript, &vec![], "");
    assert!(prompt.conversation.contains("<message from=\"You\" time=\""));
    assert!(prompt.conversation.contains("2026-"));
    assert!(prompt.conversation.contains("</message>"));
    assert!(prompt.conversation.contains("hi &lt;there&gt;"));
    assert!(!prompt.conversation.contains("hi <there>"));
}

#[test]
fn prompt_at_fixed_times_carries_the_given_time_and_events() {
    let transcript = vec![ContextLine { name: "Nox".into(), text: "a & b".into(), ts: 0 }];
    let prompt = assemble_prompt_at(
        &persona(),
        &vec![],
        &vec![],
        &transcript,
        &vec!["T0".to_string()],
        &vec!["It starts to rain.".to_string()],
        "NOW",
    );
    assert!(prompt.conversation.contains("<message from=\"Nox\" time=\"T0\">a &amp; b</message>"));
    assert!(prompt.conversation.contains("It starts to rain."));
    assert!(prompt.conversation.contains("NOW"));
    assert_eq!(prompt.last_line.as_deref(), Some("a & b"));
}

#[test]
fn xml_escape_covers_the_predefined_entities() {
    assert_eq!(xml_escape("<a href=\"x\">&</a>"), "&lt;a href=&quot;x&quot;&gt;&amp;&lt;/a&gt;");
}

fn persona_named(id: &str, name: &str) -> Persona {
    Persona {
        id: id.into(),
        name: name.into(),
        kind: PersonaKind::Ai,
        color: "violet".into(),
        avatar_url: None,
        emoji: None,
        gradient: None,
        blurb: None,
        organization_id: None,
        department_id: None,
        system_prompt: None,
        variables: None,
        prompt_hash: None,
    }
}

#[test]
fn moods_never_enter_the_transcript() {
    let personas = vec![persona_named("aria", "Aria"), persona_named("nox", "Nox")];
    let log = vec![
        Message::conversation("lab".into(), "aria".into(), "hello there".into(), None, "m1".into(), 1),
        Message::mood("lab".into(), "nox".into(), "🤔 thinking".into(), None, "m2".into(), 2),
    ];
    let transcript = build_transcript(&log, &personas);
    assert_eq!(transcript.len(), 1);
    assert_eq!(transcript[0].text, "hello there");
    assert_eq!(transcript[0].name, "Aria");
}

#[test]
fn an_unknown_author_is_named_by_id() {
    let log = vec![Message::conversation("lab".into(), "ghost".into(), "boo".into(), None, "m1".into(), 1)];
    let transcript = build_transcript(&log, &vec![]);
    assert_eq!(transcript[0].name, "ghost");
}

#[test]
fn only_user_messages_and_urgent_events_preempt() {
    assert_eq!(appraise(&Event::User { message_id: "m".into() }), Salience::Hard);
    assert_eq!(appraise(&Event::Environment { description: "storm".into(), urgent: true }), Salience::Hard);
    assert_eq!(appraise(&Event::Environment { description: "rain".into(), urgent: false }), Salience::Soft);
    assert!(matches!(on_interrupt(Event::Environment { description: "rain".into(), urgent: false }), Interrupt::Defer(Some(_))));
}

#[test]
fn a_turn_reads_its_user_message_and_seeds_environment_events() {
    assert_eq!(read_target(&Event::User { message_id: "m7".into() }).as_deref(), Some("m7"));
    assert_eq!(read_target(&Event::Retry), None);
    assert_eq!(seed_events(&Event::Environment { description: "rain".into(), urgent: false }), vec!["rain".to_string()]);
    assert!(seed_events(&Event::User { message_id: "m".into() }).is_empty());
}

#[test]
fn a_resume_reruns_only_unread_members() {
    let order = vec!["aria".to_string(), "nox".to_string(), "sol".to_string()];
    let read = vec!["nox".to_string()];
    assert_eq!(unread_members(order, &read), vec!["aria".to_string(), "sol".to_string()]);
}

#[test]
fn shuffling_keeps_every_member() {
    let mut order = vec!["a".to_string(), "b".to_string(), "c".to_string(), "d".to_string()];
    let mut rng = Rng::new(42);
    shuffle(&mut order, &mut rng);
    let mut sorted = order.clone();
    sorted.sort();
    assert_eq!(sorted, vec!["a", "b", "c", "d"]);
}

#[test]
fn a_silent_round_ends_the_turn() {
    assert!(!continue_turn(false, 0, 3));
    assert!(continue_turn(true, 0, 3));
    assert!(!continue_turn(true, 2, 3));
}

#[test]
fn moods_are_ui_only() {
    let r = route(to_respond(args(ActionKind::SpeakWithMood, Some("hi"), Some("🙂"))));
    assert_eq!(r.message.as_deref(), Some("hi"));
    assert_eq!(r.mood.as_deref(), Some("🙂"));
    assert!(r.spoke);
}

#[test]
fn a_fresh_trigger_voids_a_held_retry() {
    let d = dispatch(Event::User { message_id: "m2".into() }, Some(Event::User { message_id: "m1".into() }));
    assert!(d.pending.is_none());
}

#[test]
fn the_rate_limiter_admits_up_to_the_limit_then_waits_out_the_window() {
    let mut limiter = RateLimiter::per_minute(2);
    assert_eq!(limiter.try_acquire(0), None);
    assert_eq!(limiter.try_acquire(0), None);
    assert_eq!(limiter.try_acquire(0), Some(60_000));
    assert_eq!(limiter.try_acquire(60_000), None);
}

#[test]
fn recall_filters_by_query_or_returns_all() {
    let memories = vec!["Prefers tea over coffee".to_string(), "Has a cat named Mochi".to_string(), "Dislikes loud rooms".to_string()];
    assert_eq!(recall(&memories, None).len(), 3);
    assert_eq!(recall(&memories, Some("  ")).len(), 3);
    assert_eq!(recall(&memories, Some("CAT")), vec!["Has a cat named Mochi".to_string()]);
    assert!(recall(&memories, Some("weather")).is_empty());
}

#[test]
fn remember_collects_trimmed_deduped_content() {
    let mut sink = Vec::new();
    assert_eq!(remember(&mut sink, "  prefers tea over coffee  "), "Saved.");
    remember(&mut sink, "   ");
    remember(&mut sink, "prefers tea over coffee");
    remember(&mut sink, "has a cat named Mochi");
    assert_eq!(sink, vec!["prefers tea over coffee".to_string(), "has a cat named Mochi".to_string()]);
}

#[test]
fn backoff_grows_with_equal_jitter_then_caps() {
    // Equal jitter: the wait lands in [cap/2, cap) for cap = 1s, 2s, 4s …
    // Sample repeatedly so the random half is actually exercised.
    for _ in 0..50 {
        let w = backoff(1000, 0, None);
        assert!(w >= 500 && w < 1000, "{w}");
        let w = backoff(1000, 1, None);
        assert!(w >= 1000 && w < 2000, "{w}");
        // Never exceeds the hard cap, however large the attempt.
        let w = backoff(1000, 20, None);
        assert!(w >= MAX_BACKOFF_MS / 2 && w < MAX_BACKOFF_MS, "{w}");
    }
}

#[test]
fn backoff_honors_the_server_hint() {
    // A hint wins over the exponential schedule (plus a little jitter).
    let w = backoff(1000, 0, Some(3_000));
    assert!(w >= 3_000 && w <= 3_250, "{w}");
    // Still clamped to the cap so a turn can't hang on a huge hint.
    let w = backoff(1000, 0, Some(600_000));
    assert!(w >= MAX_BACKOFF_MS && w <= MAX_BACKOFF_MS + 250, "{w}");
}

#[test]
fn backoff_at_the_jitter_extremes() {
    assert_eq!(backoff_with(1000, 2, None, 0), 2000);
    assert_eq!(backoff_with(1000, 2, None, JITTER_SCALE - 1), 3999);
    assert_eq!(backoff_with(1000, 2, Some(1500), JITTER_SCALE / 2), 1625);
    assert_eq!(backoff_with(u64::MAX, 16, None, 0), 15_000);
}

#[test]
fn token_usage_totals_fall_back_to_the_parts() {
    let u = to_token_usage(10, 5, 0, 2);
    assert_eq!((u.prompt_tokens, u.completion_tokens, u.total_tokens, u.cached_prompt_tokens), (10, 5, 15, 2));
    assert_eq!(to_token_usage(10, 5, 99, 0).total_tokens, 99);
}

#[test]
fn the_decision_preamble_mentions_recall_only_when_offered() {
    let p = decision_preamble("  I am Nox. ", false);
    assert_eq!(p, format!("I am Nox.\n\n{GUIDANCE}\n\n{REMEMBER_GUIDANCE}"));
    let p = decision_preamble("I am Nox.", true);
    assert!(p.ends_with(RECALL_GUIDANCE));
    assert_eq!(attempt_text("conv", Some("fix it")), "conv\n\n<retry_note>fix it</retry_note>");
    assert_eq!(attempt_text("conv", None), "conv");
}

#[test]
fn summary_and_suggestion_inputs_are_tagged() {
    let s = summary_input(&SummaryRequest { prior: Some("  old notes ".into()), lines: vec!["a: hi".into(), "b: yo".into()] });
    assert_eq!(s, "<summary_so_far>\nold notes\n</summary_so_far>\n\n<older_messages>\na: hi\nb: yo\n</older_messages>");
    let s = summary_input(&SummaryRequest { prior: Some("   ".into()), lines: vec![] });
    assert_eq!(s, "<older_messages>\n</older_messages>");
    let req = SuggestionRequest {
        members: vec![MemberInfo { name: "Me".into(), blurb: None, is_user: true }],
        summary: None,
        recent: vec!["Nox: hi".into()],
        now: "2026-01-01T09:00:00+00:00".into(),
        time_of_day: "morning".into(),
        language: Some("English".into()),
        min_count: 0,
    };
    assert_eq!(
        suggestion_input(&req),
        "<group_members>\n- Me (the user)\n</group_members>\n\n<conversation>\nNox: hi\n</conversation>\n\n\
         <language>English</language>\n\n<time>\n2026-01-01T09:00:00+00:00 (morning)\n</time>\n\nSuggest at least 1 messages."
    );
}

#[test]
fn suggestions_are_trimmed_deduplicated_and_capped() {
    let runaway = "!".repeat(80);
    let lines: Vec<String> = vec![" Hi all ", "", "Hi all", runaway.as_str(), "a", "b", "c", "d", "e", "f"]
        .into_iter()
        .map(String::from)
        .collect();
    let kept = select_suggestions(&lines);
    assert_eq!(kept, vec!["Hi all", "a", "b", "c", "d", "e"]);
}

#[test]
fn far_out_send_times_fall_back_to_raw_millis() {
    assert_eq!(format_ts(i64::MAX), "9223372036854775807");
    assert_eq!(format_ts(i64::MIN), "-9223372036854775808");
    assert_eq!(format_ts(8_210_266_790_400_000), "8210266790400000");
    assert_eq!(format_ts(-8_334_601_142_400_001), "-8334601142400001");
    assert_ne!(format_ts(1_700_000_000_000), "1700000000000");
}

#[test]
fn shuffle_is_fisher_yates_over_splitmix() {
    fn splitmix(state: &mut u64) -> u64 {
        *state = state.wrapping_add(0x9E37_79B9_7F4A_7C15);
        let mut z = *state;
        z = (z ^ (z >> 30)).wrapping_mul(0xBF58_476D_1CE4_E5B9);
        z = (z ^ (z >> 27)).wrapping_mul(0x94D0_49BB_1331_11EB);
        z ^ (z >> 31)
    }
    let members: Vec<String> = ["a", "b", "c", "d", "e"].iter().map(|s| s.to_string()).collect();
    let mut expected = members.clone();
    let mut state = 42u64;
    for i in (1..expected.len()).rev() {
        let j = (splitmix(&mut state) % (i as u64 + 1)) as usize;
        expected.swap(i, j);
    }
    let mut got = members.clone();
    let mut rng = Rng::new(42);
    shuffle(&mut got, &mut rng);
    assert_eq!(got, expected);
    assert_eq!(rng.state, state);
    let mut one = vec!["solo".to_string()];
    let mut rng = Rng::new(7);
    shuffle(&mut one, &mut rng);
    assert_eq!(one, ["solo"]);
    assert_eq!(rng.state, 7);
}

fn days_from_civil(y: i64, m: i64, d: i64) -> i64 {
    let y2 = if m <= 2 { y - 1 } else { y };
    let era = y2.div_euclid(400);
    let yoe = y2 - era * 400;
    let mp = if m > 2 { m - 3 } else { m + 9 };
    let doy = (153 * mp + 2) / 5 + d - 1;
    let doe = yoe * 365 + yoe / 4 - yoe / 100 + doy;
    era * 146097 + doe - 719468
}

#[test]
fn send_times_render_the_instant_in_local_rfc3339() {
    for ts in [0i64, 999, -1, -86_400_001, 1_700_000_000_123, 253_402_300_799_000, 8_210_266_790_399_999, -8_334_601_142_400_000] {
        let t = format_ts(ts);
        let (date, rest) = t.split_once('T').expect("a date and a time");
        let mut parts = date.rsplitn(3, '-');
        let d: i64 = parts.next().unwrap().parse().unwrap();
        let m: i64 = parts.next().unwrap().parse().unwrap();
        let y: i64 = parts.next().unwrap().parse().unwrap();
        assert!(date.len() >= 10);
        let (clock, offset) = rest.split_at(8);
        let hms: Vec<i64> = clock.split(':').map(|x| x.parse().unwrap()).collect();
        assert_eq!(offset.len(), 6);
        let sign = if offset.starts_with('-') { -1 } else { 1 };
        let oh: i64 = offset[1..3].parse().unwrap();
        let om: i64 = offset[4..6].parse().unwrap();
        let local = days_from_civil(y, m, d) * 86400 + hms[0] * 3600 + hms[1] * 60 + hms[2];
        let shift = sign * (oh * 3600 + om * 60);
        assert!((local - shift - ts.div_euclid(1000)).abs() <= 30, "{t} for {ts}");
    }
}
