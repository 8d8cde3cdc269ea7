use agoralume::api_error::ApiError;
use agoralume::auth::{bearer_token, role_of, Subject};
use agoralume::chat_log::{frame_name, last_conversation_id, GroupSummary, StreamEvent};
use agoralume::config::{Config, ConfigVars};
use agoralume::contract::{
    add_auth_responses, derive_patch_bodies, is_error_status, is_protected, patch_schema_description, patch_schema_name,
    problem_description, ref_schema_name, register_bearer, use_problem_documents, ApiDocModel, ComponentsModel,
    ContentModel, Method, OperationModel, ResponseModel, SchemaModel, SchemaRef,
};
use agoralume::models::{Message, ReadReceipt};
use agoralume::persist::{classify_workspace_file, group_file_name, quarantine_suffix, WorkspaceLoad};
use agoralume::routes::{
    allow_origin_from, clamp_window, create_memory, patch_error, persona_error, require_group, resolve_usage_scope,
    validate_event, validate_send, OriginPolicy,
};
use agoralume::suggest::{is_stale, time_of_day, SuggestGate, SUGGEST_COOLDOWN_MS};
use agoralume::models::GroupSuggestions;
use agoralume::usage::{model_key, push_capped, rank_by_tokens, sum_counts, ModelCounts, DEBUG_TRACE_CAP};
use agoralume::models::TokenUsage;
use agoralume::workspace::{PatchError, PersonaError, Workspace};
use std::path::PathBuf;

fn vars() -> ConfigVars {
    ConfigVars { bind: None, data_dir: None, account_id: None, persist: None, web_dir: None, open: None, cors_origins: None }
}

fn config_with(data_dir: &str, account_id: &str) -> Config {
    Config::from_vars(&ConfigVars {
        data_dir: Some(data_dir.to_string()),
        account_id: Some(account_id.to_string()),
        ..vars()
    })
}

#[test]
fn account_data_dir_nests_the_account_under_the_data_root() {
    let config = config_with("./data", "default");
    assert_eq!(PathBuf::from(config.account_data_dir()), PathBuf::from("./data/accounts/default"));
}

#[test]
fn account_data_dir_sanitizes_the_account_id() {
    let config = config_with("./data", "../evil");
    assert_eq!(PathBuf::from(config.account_data_dir()), PathBuf::from("./data/accounts/___evil"));
}

#[test]
fn config_defaults_when_nothing_is_set() {
    let c = Config::from_vars(&vars());
    assert_eq!(c.bind, "127.0.0.1:8080");
    assert_eq!(c.data_dir, "./data");
    assert_eq!(c.account_id, "default");
    assert_eq!(c.persist_override, None);
    assert!(c.open_browser);
    assert!(c.cors_allowed_origins.is_none());
}

#[test]
fn config_reads_flags_and_origin_lists() {
    let c = Config::from_vars(&ConfigVars {
        persist: Some(" Off ".into()),
        open: Some("NO".into()),
        cors_origins: Some(" , ".into()),
        ..vars()
    });
    assert_eq!(c.persist_override, Some(false));
    assert!(!c.open_browser);
    assert!(c.cors_allowed_origins.is_none(), "a list naming no origin counts as unset");
    let c = Config::from_vars(&ConfigVars { persist: Some("yes".into()), cors_origins: Some("http://a, http://b".into()), ..vars() });
    assert_eq!(c.persist_override, Some(true));
    assert_eq!(c.cors_allowed_origins, Some(vec!["http://a".to_string(), "http://b".to_string()]));
    assert_eq!(PathBuf::from(config_with("", "x").account_data_dir()), PathBuf::from("accounts/x"));
    assert_eq!(config_with("/srv/", "x").account_data_dir(), "/srv/accounts/x");
}

#[test]
fn default_cors_allows_any_origin() {
    assert!(matches!(allow_origin_from(None), OriginPolicy::Any));
}

#[test]
fn configured_origin_is_allowed_and_echoed_back() {
    let origins = vec!["http://localhost:5173".to_string()];
    match allow_origin_from(Some(&origins)) {
        OriginPolicy::List(list) => assert_eq!(list, origins),
        OriginPolicy::Any => panic!("a configured origin must restrict the policy"),
    }
}

#[test]
fn all_invalid_entries_falls_back_to_any() {
    let origins = vec!["bad\norigin".to_string()];
    assert!(matches!(allow_origin_from(Some(&origins)), OriginPolicy::Any));
}

#[test]
fn wildcard_entry_falls_back_to_any_instead_of_panicking() {
    let origins = vec!["*".to_string()];
    assert!(matches!(allow_origin_from(Some(&origins)), OriginPolicy::Any));
}

#[test]
fn wildcard_mixed_with_a_real_origin_still_allows_any() {
    let origins = vec!["https://chat.example.com".to_string(), " * ".to_string()];
    assert!(matches!(allow_origin_from(Some(&origins)), OriginPolicy::Any));
}

#[test]
fn unusable_origins_are_dropped_and_the_rest_kept_in_order() {
    let origins = vec!["http://b".to_string(), "bad\u{7f}".to_string(), "http://a".to_string()];
    match allow_origin_from(Some(&origins)) {
        OriginPolicy::List(list) => assert_eq!(list, vec!["http://b".to_string(), "http://a".to_string()]),
        OriginPolicy::Any => panic!("usable origins remain"),
    }
}

#[test]
fn a_message_cannot_be_authored_as_an_ai_persona() {
    let ws = Workspace::seeded();
    let err = validate_send(&ws, "lounge", "I agree with myself.", Some("aria")).unwrap_err();
    assert_eq!(err.status, 422);
    assert_eq!(
        err.detail.as_deref(),
        Some("personaId must name a user identity; a message cannot be authored as an AI persona")
    );
}

#[test]
fn a_send_is_authored_and_trimmed() {
    let ws = Workspace::seeded();
    assert_eq!(validate_send(&ws, "lounge", "  hi there ", None).unwrap(), ("user-me".to_string(), "hi there".to_string()));
    assert_eq!(validate_send(&ws, "lounge", "hi", Some("user-me")).unwrap().0, "user-me");
    let e = validate_send(&ws, "nowhere", "hi", None).unwrap_err();
    assert_eq!((e.status, e.detail.as_deref()), (404, Some("no group with id \"nowhere\"")));
    let e = validate_send(&ws, "lounge", "   ", None).unwrap_err();
    assert_eq!((e.status, e.detail.as_deref()), (422, Some("message text cannot be blank")));
    let long = "x".repeat(8001);
    let e = validate_send(&ws, "lounge", &long, None).unwrap_err();
    assert_eq!((e.status, e.detail.as_deref()), (422, Some("message text is limited to 8000 characters")));
    assert!(validate_send(&ws, "lounge", &"é".repeat(8000), None).is_ok(), "the limit counts characters");
    let e = validate_send(&ws, "lounge", "hi", Some("ghost")).unwrap_err();
    assert_eq!((e.status, e.detail.as_deref()), (422, Some("no persona with id \"ghost\"")));
}

#[test]
fn an_event_is_trimmed_and_bounded() {
    let ws = Workspace::seeded();
    assert_eq!(validate_event(&ws, "lab", " It starts to rain. ").unwrap(), "It starts to rain.");
    assert_eq!(validate_event(&ws, "lab", "").unwrap_err().detail.as_deref(), Some("event description cannot be blank"));
    assert_eq!(
        validate_event(&ws, "lab", &"y".repeat(1001)).unwrap_err().detail.as_deref(),
        Some("event description is limited to 1000 characters")
    );
    assert_eq!(validate_event(&ws, "x", "rain").unwrap_err().status, 404);
    assert!(require_group(&ws, "lab").is_ok());
    assert_eq!(resolve_usage_scope(&ws, None).unwrap(), None);
    assert_eq!(resolve_usage_scope(&ws, Some("lab")).unwrap().as_deref(), Some("lab"));
    assert_eq!(resolve_usage_scope(&ws, Some("zzz")).unwrap_err().status, 404);
}

#[test]
fn history_pages_are_clamped() {
    assert_eq!(clamp_window(Some(4_294_967_295)), Some(500));
    assert_eq!(clamp_window(Some(40)), Some(40));
    assert_eq!(clamp_window(None), None);
}

#[test]
fn refusals_map_to_problem_documents() {
    let e = persona_error(PersonaError::NameTaken, "p1");
    assert_eq!((e.status, e.kind.as_str()), (409, "urn:agoralume:error:name-taken"));
    let e = persona_error(PersonaError::UserExists, "p1");
    assert_eq!(e.kind, "urn:agoralume:error:user-identity-exists");
    let e = persona_error(PersonaError::NotFound, "p1");
    assert_eq!((e.status, e.detail.as_deref()), (404, Some("no persona with id \"p1\"")));
    let e = persona_error(PersonaError::Invalid, "p1");
    assert_eq!(
        e.detail.as_deref(),
        Some("the patch does not fit a Persona: a field has the wrong JSON type, or a required field was set to null")
    );
    let e = patch_error(PatchError::NotFound, "group", "g9");
    assert_eq!((e.status, e.detail.as_deref()), (404, Some("no group with id \"g9\"")));
    assert_eq!(patch_error(PatchError::Invalid, "Organization", "o").status, 422);
}

#[test]
fn a_memory_needs_a_known_scopable_persona() {
    let mut ws = Workspace::seeded();
    let e = create_memory(&mut ws, "ghost", "likes tea").unwrap_err();
    assert_eq!((e.status, e.detail.as_deref()), (404, Some("no persona with id \"ghost\"")));
    let e = create_memory(&mut ws, "aria", "   ").unwrap_err();
    assert_eq!((e.status, e.kind.as_str()), (409, "urn:agoralume:error:memory-unscopable"));
    let m = create_memory(&mut ws, "aria", " likes tea ").unwrap();
    assert_eq!((m.persona_id.as_str(), m.content.as_str()), ("aria", "likes tea"));
    assert_eq!(ws.memories.len(), 1);
}

#[test]
fn problem_media_type_always_set_and_challenge_only_on_401() {
    let unauthorized = ApiError::unauthorized("invalid-token", "expired".to_string(), "Bearer");
    let headers = unauthorized.headers();
    assert!(headers.contains(&("content-type", "application/problem+json".to_string())));
    assert!(headers.contains(&("www-authenticate", "Bearer".to_string())));

    let not_found = ApiError::not_found("no such group".to_string());
    let headers = not_found.headers();
    assert!(headers.contains(&("content-type", "application/problem+json".to_string())));
    assert!(!headers.iter().any(|(name, _)| *name == "www-authenticate"));
}

#[test]
fn a_429_carries_its_wait() {
    let e = ApiError::too_many_requests("too-many-attempts", "slow down".to_string(), 8);
    assert!(e.headers().contains(&("retry-after", "8".to_string())));
}

#[test]
fn roles_and_bearer_tokens() {
    assert_eq!(role_of(&Subject::Admin), "admin");
    assert_eq!(role_of(&Subject::Account("acct-1".into())), "account");
    assert_eq!(bearer_token("Bearer abc").as_deref(), Some("abc"));
    assert_eq!(bearer_token("bearer abc"), None);
    assert_eq!(bearer_token("Bearer "), Some(String::new()));
}

#[test]
fn the_suggestion_gate_is_single_flight_with_a_cooldown() {
    let mut gate = SuggestGate::new();
    assert!(gate.try_start(10_000, false, true));
    assert!(!gate.try_start(20_000, true, true), "a run in flight blocks even a forced one");
    gate.finish();
    assert!(!gate.try_start(10_000 + SUGGEST_COOLDOWN_MS - 1, true, true), "still cooling down");
    assert!(!gate.try_start(10_000 + SUGGEST_COOLDOWN_MS, false, false), "fresh and not forced");
    assert!(gate.try_start(10_000 + SUGGEST_COOLDOWN_MS, true, false));
}

#[test]
fn cached_suggestions_go_stale() {
    let cached = GroupSuggestions {
        prompts: vec!["hi".into()],
        generated_at: 5,
        time_of_day: "morning".into(),
        through_id: Some("m1".into()),
    };
    assert!(!is_stale(&cached, &Some("m1".into()), "morning"));
    assert!(is_stale(&cached, &Some("m2".into()), "morning"));
    assert!(is_stale(&cached, &Some("m1".into()), "evening"));
    assert!(is_stale(&GroupSuggestions { generated_at: 0, ..cached.clone() }, &Some("m1".into()), "morning"));
    assert_eq!((time_of_day(8), time_of_day(13), time_of_day(19), time_of_day(2)), ("morning", "afternoon", "evening", "night"));
}

#[test]
fn usage_counts_every_trace_and_ranks_models() {
    assert_eq!(model_key(&None), "unknown");
    assert_eq!(model_key(&Some("gpt-4o-mini".into())), "gpt-4o-mini");
    let mut c = ModelCounts::zero();
    c.record(None);
    c.record(Some(TokenUsage { prompt_tokens: 100, completion_tokens: 40, total_tokens: 140, cached_prompt_tokens: 10 }));
    assert_eq!((c.requests, c.prompt_tokens, c.total_tokens, c.cached_prompt_tokens), (2, 100, 140, 10));
    let small = ModelCounts { total_tokens: 5, ..ModelCounts::zero() };
    let big = ModelCounts { total_tokens: 50, requests: 1, ..ModelCounts::zero() };
    let ranked = rank_by_tokens(vec![("a".into(), small), ("b".into(), big), ("c".into(), small)]);
    let names: Vec<&str> = ranked.iter().map(|(n, _)| n.as_str()).collect();
    assert_eq!(names, vec!["b", "a", "c"]);
    let total = sum_counts(&ranked);
    assert_eq!((total.total_tokens, total.requests), (60, 1));
}

#[test]
fn a_trace_ring_keeps_the_newest() {
    let mut ring: Vec<u32> = Vec::new();
    for i in 0..(DEBUG_TRACE_CAP as u32 + 5) {
        push_capped(&mut ring, i, DEBUG_TRACE_CAP);
    }
    assert_eq!(ring.len(), DEBUG_TRACE_CAP);
    assert_eq!(ring[0], 5);
    assert_eq!(*ring.last().unwrap(), DEBUG_TRACE_CAP as u32 + 4);
}

#[test]
fn workspace_files_are_used_or_preserved() {
    assert_eq!(classify_workspace_file(Some(1), true), WorkspaceLoad::Current);
    assert_eq!(classify_workspace_file(Some(2), true), WorkspaceLoad::Quarantine);
    assert_eq!(classify_workspace_file(None, true), WorkspaceLoad::Legacy);
    assert_eq!(classify_workspace_file(None, false), WorkspaceLoad::Quarantine);
    assert_eq!(group_file_name("../g1"), "___g1.json");
    assert_eq!(quarantine_suffix(1700000000), ".corrupt-1700000000");
}

#[test]
fn the_contract_relaxes_patch_bodies_and_marks_errors() {
    assert_eq!(ref_schema_name("#/components/schemas/Group"), "Group");
    assert_eq!(ref_schema_name("Group"), "Group");
    assert_eq!(patch_schema_name("Group").as_deref(), Some("GroupPatch"));
    assert_eq!(patch_schema_name("LlmSettingsPatch"), None);
    assert_eq!(patch_schema_name("UpdateAccountRequest"), None);
    assert_eq!(
        patch_schema_description("Group"),
        "A partial Group: only the properties present are merged. `id` is ignored."
    );
    assert!(is_protected(None));
    assert!(!is_protected(Some(&vec![false])));
    assert!(is_protected(Some(&vec![false, true])));
    assert!(is_error_status("404") && is_error_status("500") && !is_error_status("200"));
    assert_eq!(problem_description(""), "Failed");
    assert_eq!(problem_description("Gone"), "Gone");
}

#[test]
fn stream_frames_and_the_last_conversation_line() {
    let log = vec![
        Message::conversation("g".into(), "nox".into(), "hi".into(), None, "m1".into(), 1),
        Message::mood("g".into(), "nox".into(), "🙂".into(), None, "m2".into(), 2),
    ];
    assert_eq!(last_conversation_id(&log).as_deref(), Some("m1"));
    assert_eq!(last_conversation_id(&Vec::new()), None);
    assert_eq!(frame_name(&StreamEvent::Message(log[0].clone())), None);
    assert_eq!(frame_name(&StreamEvent::Activity(true)), Some("activity"));
    let receipt = ReadReceipt { group_id: "g".into(), message_id: "m1".into(), persona_id: "nox".into() };
    assert_eq!(frame_name(&StreamEvent::Read(receipt)), Some("read"));
    let s = GroupSummary::empty();
    assert!(s.text.is_empty() && s.through_id.is_none());
}

#[test]
fn demoting_the_last_user_is_a_conflict() {
    let e = persona_error(PersonaError::LastUser, "user-me");
    assert_eq!((e.status, e.kind.as_str()), (409, "urn:agoralume:error:last-user-identity"));
}

fn json_body(location: &str) -> Option<Vec<(String, ContentModel)>> {
    Some(vec![(
        "application/json".to_string(),
        ContentModel { schema: Some(SchemaRef::Ref(location.to_string())), rest: Some(7) },
    )])
}

fn op(path: &str, method: Method, body: Option<Vec<(String, ContentModel)>>) -> OperationModel {
    OperationModel { path: path.into(), method, security: None, body, responses: vec![], rest: 0 }
}

fn schema(is_object: bool, required: &[&str], rest: u64) -> SchemaModel {
    SchemaModel { is_object, required: required.iter().map(|r| r.to_string()).collect(), description: None, rest }
}

fn body_ref(op: &OperationModel) -> String {
    match &op.body.as_ref().unwrap()[0].1.schema {
        Some(SchemaRef::Ref(l)) => l.clone(),
        _ => panic!("a reference"),
    }
}

#[test]
fn patch_bodies_point_at_a_relaxed_schema() {
    let mut doc = ApiDocModel {
        operations: vec![
            op("/groups/{id}", Method::Patch, json_body("#/components/schemas/Group")),
            op("/groups", Method::Post, json_body("#/components/schemas/Group")),
            op("/llm/settings", Method::Patch, json_body("#/components/schemas/LlmSettingsPatch")),
            op("/missing", Method::Patch, json_body("#/components/schemas/Nope")),
            op("/prefs", Method::Patch, json_body("#/components/schemas/Settings")),
        ],
        components: Some(ComponentsModel {
            schemas: vec![
                ("Group".into(), schema(true, &["name", "personaIds"], 1)),
                ("LlmSettingsPatch".into(), schema(true, &[], 2)),
                ("Settings".into(), schema(true, &["uiLanguage"], 3)),
                ("SettingsPatch".into(), schema(true, &["kept"], 4)),
            ],
            bearer_registered: false,
        }),
    };
    derive_patch_bodies(&mut doc);
    let c = doc.components.as_ref().unwrap();
    let names: Vec<&str> = c.schemas.iter().map(|(n, _)| n.as_str()).collect();
    assert_eq!(names, ["Group", "LlmSettingsPatch", "Settings", "SettingsPatch", "GroupPatch"]);
    let relaxed = &c.schemas[4].1;
    assert!(relaxed.is_object && relaxed.required.is_empty() && relaxed.rest == 1);
    assert_eq!(
        relaxed.description.as_deref(),
        Some("A partial Group: only the properties present are merged. `id` is ignored.")
    );
    assert_eq!(c.schemas[3].1.required, ["kept"], "an existing relaxed schema is kept as it is");
    assert_eq!(body_ref(&doc.operations[0]), "#/components/schemas/GroupPatch");
    assert_eq!(doc.operations[0].body.as_ref().unwrap()[0].1.rest, Some(7));
    assert_eq!(body_ref(&doc.operations[1]), "#/components/schemas/Group", "only PATCH bodies change");
    assert_eq!(body_ref(&doc.operations[2]), "#/components/schemas/LlmSettingsPatch");
    assert_eq!(body_ref(&doc.operations[3]), "#/components/schemas/Nope");
    assert_eq!(body_ref(&doc.operations[4]), "#/components/schemas/SettingsPatch");
}

#[test]
fn protected_operations_gain_401_and_403_problem_responses() {
    let mut public = op("/health", Method::Get, None);
    public.security = Some(vec![false]);
    let mut has_401 = op("/groups", Method::Get, None);
    has_401.responses.push((
        "401".into(),
        ResponseModel::Inline { description: "custom".into(), contents: vec![], rest: Some(3) },
    ));
    let mut doc = ApiDocModel { operations: vec![op("/usage", Method::Get, None), public, has_401], components: None };
    add_auth_responses(&mut doc);
    let statuses = |o: &OperationModel| o.responses.iter().map(|(s, _)| s.clone()).collect::<Vec<_>>();
    assert_eq!(statuses(&doc.operations[0]), ["401", "403"]);
    assert!(statuses(&doc.operations[1]).is_empty());
    assert_eq!(statuses(&doc.operations[2]), ["401", "403"]);
    match &doc.operations[0].responses[0].1 {
        ResponseModel::Inline { description, contents, rest } => {
            assert_eq!(description, "Not signed in");
            assert!(rest.is_none());
            assert_eq!(contents[0].0, "application/problem+json");
        }
        ResponseModel::Ref(_) => panic!("inline"),
    }
    match &doc.operations[2].responses[0].1 {
        ResponseModel::Inline { description, .. } => assert_eq!(description, "custom"),
        ResponseModel::Ref(_) => panic!("inline"),
    }
    match &doc.operations[2].responses[1].1 {
        ResponseModel::Inline { description, .. } => assert_eq!(description, "Not permitted for this identity"),
        ResponseModel::Ref(_) => panic!("inline"),
    }
}

#[test]
fn error_responses_become_problem_documents() {
    let mut o = op("/groups/{id}", Method::Delete, None);
    o.responses = vec![
        ("204".into(), ResponseModel::Inline { description: "".into(), contents: vec![], rest: None }),
        (
            "404".into(),
            ResponseModel::Inline {
                description: "".into(),
                contents: vec![("text/plain".into(), ContentModel { schema: None, rest: Some(1) })],
                rest: Some(9),
            },
        ),
        ("409".into(), ResponseModel::Ref(5)),
    ];
    let mut doc = ApiDocModel { operations: vec![o], components: None };
    use_problem_documents(&mut doc);
    let rs = &doc.operations[0].responses;
    match &rs[0].1 {
        ResponseModel::Inline { description, .. } => assert_eq!(description, ""),
        ResponseModel::Ref(_) => panic!("inline"),
    }
    match &rs[1].1 {
        ResponseModel::Inline { description, contents, rest } => {
            assert_eq!(description, "Failed");
            assert_eq!(*rest, Some(9));
            assert_eq!(contents.len(), 1);
            assert_eq!(contents[0].0, "application/problem+json");
            match &contents[0].1.schema {
                Some(SchemaRef::Ref(l)) => assert_eq!(l, "#/components/schemas/ApiError"),
                _ => panic!("a reference"),
            }
        }
        ResponseModel::Ref(_) => panic!("inline"),
    }
    assert!(matches!(rs[2].1, ResponseModel::Ref(5)));
}

#[test]
fn the_bearer_scheme_is_registered_keeping_the_schemas() {
    let mut doc = ApiDocModel { operations: vec![], components: None };
    register_bearer(&mut doc);
    let c = doc.components.as_ref().unwrap();
    assert!(c.bearer_registered && c.schemas.is_empty());
    let mut doc = ApiDocModel {
        operations: vec![],
        components: Some(ComponentsModel { schemas: vec![("Group".into(), schema(true, &[], 1))], bearer_registered: false }),
    };
    register_bearer(&mut doc);
    assert_eq!(doc.components.as_ref().unwrap().schemas.len(), 1);
}
