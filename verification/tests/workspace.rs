use agoralume::models::{prompt_hash, Department, Group, Organization, Persona, PersonaKind, PromptLabel, Settings};
use agoralume::persist::sanitize;
use agoralume::workspace::{usable_id, PatchError, PersonaError, Workspace, WorkspaceSnapshot};

const DEFAULT_USER_PERSONA_ID: &str = "user-me";

fn ai(id: &str, name: &str) -> Persona {
    Persona {
        id: id.into(),
        name: name.into(),
        kind: PersonaKind::Ai,
        color: "violet".into(),
        avatar_url: None,
        emoji: None,
        gradient: None,
        blurb: None,
        organization_id: None,
        department_id: None,
        system_prompt: None,
        variables: None,
        prompt_hash: None,
    }
}

fn user(id: &str, name: &str) -> Persona {
    let mut p = ai(id, name);
    p.kind = PersonaKind::User;
    p
}

fn renamed(ws: &Workspace, id: &str, name: &str) -> Persona {
    let mut p = ws.persona(id).expect("known persona");
    p.name = name.into();
    p
}

fn reprompted(ws: &Workspace, id: &str, prompt: &str) -> Persona {
    let mut p = ws.persona(id).expect("known persona");
    p.system_prompt = Some(prompt.into());
    p
}

fn settings() -> Settings {
    Settings { ui_language: "zh-Hant".into(), native_language: "繁體中文".into(), chat_font_size: 15 }
}

#[test]
fn create_persona_rejects_duplicate_name_case_insensitively() {
    let mut ws = Workspace::seeded();
    let err = ws.create_persona(ai("clone", "aria")).unwrap_err();
    assert_eq!(err, PersonaError::NameTaken);
    assert!(ws.create_persona(ai("fresh", "Vega")).is_ok());
}

#[test]
fn a_client_proposed_id_that_would_collide_on_disk_is_replaced() {
    let mut ws = Workspace::seeded();
    let slashed = ws.create_group(Group { id: "a/b".into(), name: "Slashed".into(), persona_ids: vec![], self_persona_id: "me".into() });
    let underscored =
        ws.create_group(Group { id: "a_b".into(), name: "Underscored".into(), persona_ids: vec![], self_persona_id: "me".into() });
    assert_ne!(slashed.id, "a/b", "an id with a path separator is not stored verbatim");
    assert_eq!(underscored.id, "a_b", "an already-safe id is still honoured");
    assert_ne!(sanitize(&slashed.id), sanitize(&underscored.id), "the two groups must not share a persistence filename");
    let long = ws.create_group(Group { id: "x".repeat(300), name: "Long".into(), persona_ids: vec![], self_persona_id: "me".into() });
    assert!(long.id.len() <= 64);
}

#[test]
fn create_persona_rejects_second_user() {
    let mut ws = Workspace::seeded();
    let second = user("me2", "Another Me");
    assert_eq!(ws.create_persona(second).unwrap_err(), PersonaError::UserExists);
}

#[test]
fn update_persona_rejects_rename_onto_existing_name() {
    let mut ws = Workspace::seeded();
    let clash = renamed(&ws, "nox", "Aria");
    assert_eq!(ws.update_persona("nox", clash).unwrap_err(), PersonaError::NameTaken);
    let fine = renamed(&ws, "nox", "Nyx");
    assert!(ws.update_persona("nox", fine).is_ok());
    assert!(ws.update_persona("nyx_missing", ai("nyx_missing", "X")).is_err());
}

#[test]
fn snapshot_collapses_extra_user_identities() {
    let extra = user("alter-ego", "Masked");
    let snapshot = WorkspaceSnapshot {
        organizations: vec![],
        departments: vec![],
        personas: vec![user(DEFAULT_USER_PERSONA_ID, "Alex"), extra, ai("aria", "Aria")],
        groups: vec![Group {
            id: "g".into(),
            name: "G".into(),
            persona_ids: vec!["alter-ego".into(), "aria".into()],
            self_persona_id: "alter-ego".into(),
        }],
        settings: settings(),
        prompt_labels: Vec::new(),
        memories: Vec::new(),
    };
    let ws = Workspace::from_snapshot(snapshot);
    let users: Vec<&Persona> = ws.personas.iter().filter(|p| p.kind == PersonaKind::User).collect();
    assert_eq!(users.len(), 1);
    assert_eq!(users[0].id, DEFAULT_USER_PERSONA_ID);
    let group = &ws.groups[0];
    assert_eq!(group.self_persona_id, DEFAULT_USER_PERSONA_ID);
    assert!(!group.persona_ids.iter().any(|id| id == "alter-ego"));
    assert!(group.persona_ids.iter().any(|id| id == "aria"));
}

#[test]
fn a_snapshot_without_a_user_gets_the_default_identity() {
    let snapshot = WorkspaceSnapshot {
        organizations: vec![],
        departments: vec![],
        personas: vec![ai("aria", "Aria")],
        groups: vec![Group { id: "g".into(), name: "G".into(), persona_ids: vec!["aria".into()], self_persona_id: "gone".into() }],
        settings: settings(),
        prompt_labels: vec![PromptLabel { hash: "h".into(), label: "old".into() }, PromptLabel { hash: "h".into(), label: "new".into() }],
        memories: Vec::new(),
    };
    let ws = Workspace::from_snapshot(snapshot);
    assert_eq!(ws.personas[0].id, DEFAULT_USER_PERSONA_ID);
    assert_eq!(ws.personas[0].kind, PersonaKind::User);
    assert_eq!(ws.groups[0].self_persona_id, DEFAULT_USER_PERSONA_ID);
    assert_eq!(ws.prompt_labels(), vec![PromptLabel { hash: "h".into(), label: "new".into() }]);
}

#[test]
fn create_persona_computes_prompt_hash() {
    let mut ws = Workspace::seeded();
    let mut p = ai("scribe", "Scribe");
    p.system_prompt = Some("You are Scribe, a careful note-taker.".into());
    p.prompt_hash = Some("client-supplied-garbage".into());
    let created = ws.create_persona(p).unwrap();
    assert_eq!(created.prompt_hash, prompt_hash(Some("You are Scribe, a careful note-taker.")));
    assert!(created.prompt_hash.is_some());
    assert!(ws.create_persona(ai("blank", "Blank")).unwrap().prompt_hash.is_none());
}

#[test]
fn prompt_hash_is_sha256_hex_of_the_trimmed_prompt() {
    assert_eq!(prompt_hash(Some("  abc \n")), Some("ba7816bf8f01cfea414140de5dae2223b00361a396177a9cb410ff61f20015ad".to_string()));
    assert_eq!(prompt_hash(Some("   ")), None);
    assert_eq!(prompt_hash(None), None);
}

#[test]
fn update_persona_hash_tracks_and_restores_prompt() {
    let mut ws = Workspace::seeded();
    let original = ws.persona("aria").unwrap().prompt_hash.unwrap();
    let edited = ws.update_persona("aria", reprompted(&ws, "aria", "A brand new Aria.")).unwrap();
    let edited_hash = edited.prompt_hash.unwrap();
    assert_ne!(edited_hash, original);
    let seeded_text = "You are {{persona_name}} in {{department_name}}, a warm and curious host in {{setting}}. Always reply in {{user_language}}.";
    let restored = ws.update_persona("aria", reprompted(&ws, "aria", seeded_text)).unwrap();
    assert_eq!(restored.prompt_hash, Some(original));
}

#[test]
fn set_prompt_label_names_and_clears() {
    let mut ws = Workspace::seeded();
    let hash = ws.persona("aria").unwrap().prompt_hash.unwrap();
    let named = ws.set_prompt_label(&hash, "  bar 版  ");
    assert_eq!(named.label, "bar 版");
    assert_eq!(ws.prompt_labels(), vec![PromptLabel { hash: hash.clone(), label: "bar 版".into() }]);
    let cleared = ws.set_prompt_label(&hash, "   ");
    assert_eq!(cleared.label, "");
    assert!(ws.prompt_labels().is_empty());
}

#[test]
fn prompt_labels_list_sorted_by_hash() {
    let mut ws = Workspace::seeded();
    ws.set_prompt_label("c", "three");
    ws.set_prompt_label("a", "one");
    ws.set_prompt_label("b", "two");
    ws.set_prompt_label("a", "uno");
    let hashes: Vec<String> = ws.prompt_labels().into_iter().map(|l| l.hash).collect();
    assert_eq!(hashes, vec!["a", "b", "c"]);
    assert_eq!(ws.prompt_labels()[0].label, "uno");
}

#[test]
fn add_memory_tags_current_hash_and_refuses_hashless() {
    let mut ws = Workspace::seeded();
    let hash = ws.persona("aria").unwrap().prompt_hash.unwrap();
    let mem = ws.add_memory("aria", "  the user prefers tea over coffee  ").unwrap();
    assert_eq!(mem.prompt_hash, hash);
    assert_eq!(mem.content, "the user prefers tea over coffee");
    assert_eq!(mem.persona_id, "aria");
    assert!(ws.add_memory("aria", "   ").is_none());
    assert!(ws.add_memory(DEFAULT_USER_PERSONA_ID, "anything").is_none());
    assert!(ws.add_memory("ghost", "anything").is_none());
}

#[test]
fn memories_are_tagged_per_identity_version() {
    let mut ws = Workspace::seeded();
    let v1 = ws.persona("aria").unwrap().prompt_hash.unwrap();
    ws.add_memory("aria", "remembered under the original Aria").unwrap();
    ws.update_persona("aria", reprompted(&ws, "aria", "A brand new Aria.")).unwrap();
    let v2 = ws.persona("aria").unwrap().prompt_hash.unwrap();
    assert_ne!(v1, v2);
    ws.add_memory("aria", "remembered under the new Aria").unwrap();
    let all = ws.persona_memories("aria");
    assert_eq!(all.len(), 2);
    let under_v1: Vec<&str> = all.iter().filter(|m| m.prompt_hash == v1).map(|m| m.content.as_str()).collect();
    let under_v2: Vec<&str> = all.iter().filter(|m| m.prompt_hash == v2).map(|m| m.content.as_str()).collect();
    assert_eq!(under_v1, ["remembered under the original Aria"]);
    assert_eq!(under_v2, ["remembered under the new Aria"]);
}

#[test]
fn recall_is_limited_to_the_current_identity() {
    let mut ws = Workspace::seeded();
    ws.add_memory("aria", "written under the original Aria").unwrap();
    assert_eq!(ws.persona_memories("aria").len(), 1);
    assert_eq!(ws.recallable_memories("aria").len(), 1);
    ws.update_persona("aria", reprompted(&ws, "aria", "A brand new Aria.")).unwrap();
    let v2 = ws.persona("aria").unwrap().prompt_hash.unwrap();
    ws.add_memory("aria", "written under the new Aria").unwrap();
    assert_eq!(ws.persona_memories("aria").len(), 2);
    let recallable = ws.recallable_memories("aria");
    assert_eq!(recallable.len(), 1);
    assert_eq!(recallable[0].content, "written under the new Aria");
    assert!(recallable.iter().all(|m| m.prompt_hash == v2));
}

#[test]
fn recall_is_empty_without_a_prompt() {
    let ws = Workspace::seeded();
    assert!(ws.persona("user-me").and_then(|p| p.prompt_hash).is_none());
    assert!(ws.recallable_memories("user-me").is_empty());
}

#[test]
fn delete_memory_is_scoped_and_cascades_with_persona() {
    let mut ws = Workspace::seeded();
    let aria_mem = ws.add_memory("aria", "aria's note").unwrap();
    ws.add_memory("nox", "nox's note").unwrap();
    assert!(!ws.delete_memory("nox", &aria_mem.id));
    assert_eq!(ws.persona_memories("aria").len(), 1);
    assert!(ws.delete_memory("aria", &aria_mem.id));
    assert!(ws.persona_memories("aria").is_empty());
    ws.delete_persona("nox");
    assert!(ws.persona_memories("nox").is_empty());
}

#[test]
fn the_last_user_identity_cannot_be_deleted() {
    let mut ws = Workspace::seeded();
    assert!(!ws.delete_persona(DEFAULT_USER_PERSONA_ID));
    assert!(ws.persona(DEFAULT_USER_PERSONA_ID).is_some());
    assert!(!ws.delete_persona("nobody"));
}

#[test]
fn deleting_a_persona_drops_it_from_groups() {
    let mut ws = Workspace::seeded();
    assert!(ws.delete_persona("nox"));
    assert!(ws.groups.iter().all(|g| !g.persona_ids.iter().any(|p| p == "nox")));
    assert!(ws.persona("nox").is_none());
}

#[test]
fn deleting_an_organization_cascades_to_departments_and_links() {
    let mut ws = Workspace::seeded();
    assert!(ws.delete_organization("aurora"));
    assert!(ws.organizations.is_empty());
    assert!(ws.departments.is_empty());
    assert!(ws.personas.iter().all(|p| p.organization_id.is_none() && p.department_id.is_none()));
    assert!(!ws.delete_organization("aurora"));
}

#[test]
fn deleting_a_department_clears_only_its_links() {
    let mut ws = Workspace::seeded();
    assert!(ws.delete_department("broadcast"));
    assert_eq!(ws.persona("nox").unwrap().department_id, None);
    assert_eq!(ws.persona("aria").unwrap().department_id.as_deref(), Some("class-2a"));
    assert_eq!(ws.persona("nox").unwrap().organization_id.as_deref(), Some("aurora"));
}

#[test]
fn updates_keep_the_id_and_report_unknown_ones() {
    let mut ws = Workspace::seeded();
    let org = Organization { id: "other".into(), name: "Renamed".into(), color: None, blurb: None, variables: None };
    let updated = ws.update_organization("aurora", org).unwrap();
    assert_eq!(updated.id, "aurora");
    assert_eq!(updated.name, "Renamed");
    let dept = Department { id: "x".into(), organization_id: "aurora".into(), name: "D".into(), color: None, blurb: None, variables: None };
    assert_eq!(ws.update_department("missing", dept).unwrap_err(), PatchError::NotFound);
    let g = Group { id: "zzz".into(), name: "Renamed lounge".into(), persona_ids: vec![], self_persona_id: "user-me".into() };
    assert_eq!(ws.update_group("lounge", g).unwrap().id, "lounge");
    assert!(ws.delete_group("lounge"));
    assert!(!ws.delete_group("lounge"));
}

#[test]
fn roster_puts_the_user_first_then_members_once() {
    let mut ws = Workspace::seeded();
    ws.create_group(Group {
        id: "dup".into(),
        name: "Dup".into(),
        persona_ids: vec!["user-me".into(), "aria".into(), "aria".into(), "ghost".into(), "nox".into()],
        self_persona_id: "user-me".into(),
    });
    let roster = ws.group_roster("dup").unwrap();
    let names: Vec<(&str, bool)> = roster.iter().map(|m| (m.name.as_str(), m.is_self)).collect();
    assert_eq!(names, vec![("Alex", true), ("Aria", false), ("Nox", false)]);
    assert!(ws.group_roster("missing").is_none());
}

#[test]
fn turn_members_are_the_ai_members_of_the_group() {
    let ws = Workspace::seeded();
    let (me, ai) = ws.turn_members("lab").unwrap();
    assert_eq!(me, "user-me");
    assert_eq!(ai, vec!["aria".to_string(), "nox".to_string()]);
    assert!(ws.turn_members("missing").is_none());
}

#[test]
fn variables_resolve_down_the_inheritance_chain() {
    let mut ws = Workspace::seeded();
    let mut p = ws.persona("aria").unwrap();
    p.variables = Some(vec![("setting".into(), "the rooftop".into()), ("mood".into(), "calm".into())]);
    ws.update_persona("aria", p.clone()).unwrap();
    let mut vars = ws.resolve_variables(&p);
    vars.sort();
    assert_eq!(
        vars,
        vec![
            ("mood".to_string(), "calm".to_string()),
            ("setting".to_string(), "the rooftop".to_string()),
            ("world".to_string(), "a bright near-future Tokyo".to_string()),
        ]
    );
    let nox = ws.persona("nox").unwrap();
    let mut vars = ws.resolve_variables(&nox);
    vars.sort();
    assert_eq!(
        vars,
        vec![
            ("setting".to_string(), "the after-school broadcast room".to_string()),
            ("world".to_string(), "a bright near-future Tokyo".to_string()),
        ]
    );
}

#[test]
fn usable_ids_are_short_safe_slugs() {
    assert!(usable_id("a_b-9"));
    assert!(!usable_id(""));
    assert!(!usable_id("a/b"));
    assert!(!usable_id(&"x".repeat(65)));
    assert!(usable_id(&"x".repeat(64)));
}

#[test]
fn sanitize_maps_unsafe_characters_to_underscores() {
    assert_eq!(sanitize("../evil"), "___evil");
    assert_eq!(sanitize("ok-id_1"), "ok-id_1");
}

#[test]
fn snapshots_round_trip_the_workspace() {
    let mut ws = Workspace::seeded();
    ws.add_memory("aria", "note").unwrap();
    let snap = ws.to_snapshot();
    assert_eq!(snap.personas.len(), ws.personas.len());
    assert_eq!(snap.memories.len(), 1);
    let back = Workspace::from_snapshot(snap);
    assert_eq!(back.personas.len(), ws.personas.len());
    assert_eq!(back.persona("aria").unwrap().prompt_hash, ws.persona("aria").unwrap().prompt_hash);
}

#[test]
fn settings_updates_always_apply() {
    let mut ws = Workspace::seeded();
    let s = Settings { ui_language: "en".into(), native_language: "English".into(), chat_font_size: 17 };
    assert_eq!(ws.update_settings(s).unwrap().chat_font_size, 17);
    assert_eq!(ws.settings.ui_language, "en");
}

#[test]
fn the_last_user_identity_cannot_become_an_ai_persona() {
    let mut ws = Workspace::seeded();
    let before = ws.to_snapshot();
    let mut demoted = ws.persona(DEFAULT_USER_PERSONA_ID).expect("the user identity");
    demoted.kind = PersonaKind::Ai;
    assert_eq!(ws.update_persona(DEFAULT_USER_PERSONA_ID, demoted).unwrap_err(), PersonaError::LastUser);
    let after = ws.to_snapshot();
    assert_eq!(after.personas.len(), before.personas.len());
    assert_eq!(ws.persona(DEFAULT_USER_PERSONA_ID).unwrap().kind, PersonaKind::User);
    assert_eq!(after.personas.iter().filter(|p| p.kind == PersonaKind::User).count(), 1);
    // Renaming the user identity, keeping its kind, is still fine.
    let renamed_user = renamed(&ws, DEFAULT_USER_PERSONA_ID, "Sam");
    assert_eq!(ws.update_persona(DEFAULT_USER_PERSONA_ID, renamed_user).unwrap().name, "Sam");
}

#[test]
fn seeded_workspace_holds_the_starting_cast() {
    let ws = Workspace::seeded();
    let snap = ws.to_snapshot();
    let ids: Vec<&str> = snap.personas.iter().map(|p| p.id.as_str()).collect();
    assert_eq!(ids, ["user-me", "aria", "nox", "sol"]);
    assert_eq!(snap.personas[0].kind, PersonaKind::User);
    assert!(snap.personas[0].prompt_hash.is_none());
    for p in &snap.personas[1..] {
        assert_eq!(p.kind, PersonaKind::Ai);
        assert_eq!(p.prompt_hash, prompt_hash(p.system_prompt.as_deref()));
        assert_eq!(p.prompt_hash.as_ref().unwrap().len(), 64);
    }
    let groups: Vec<(&str, usize)> = snap.groups.iter().map(|g| (g.id.as_str(), g.persona_ids.len())).collect();
    assert_eq!(groups, [("lounge", 3), ("lab", 2)]);
    assert_eq!(snap.organizations.len(), 1);
    assert_eq!(snap.departments.len(), 2);
    assert_eq!(snap.settings.chat_font_size, 15);
}
