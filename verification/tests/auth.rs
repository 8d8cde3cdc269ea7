use agoralume::auth::{
    generate_boot_password, generate_token, hash_password, login, login_at, verify_password, LoginError, LoginThrottle,
    Subject, TokenStore, ACCESS_TOKEN_TTL_MS, REUSE_GRACE_MS,
};

#[test]
fn the_first_two_failures_are_free() {
    let mut throttle = LoginThrottle::default();
    throttle.record_failure("alice");
    throttle.record_failure("alice");
    assert_eq!(throttle.retry_after_secs("alice"), None);
}

#[test]
fn the_third_failure_starts_a_short_wait() {
    let mut throttle = LoginThrottle::default();
    for _ in 0..3 {
        throttle.record_failure("alice");
    }
    let wait = throttle.retry_after_secs("alice").expect("throttled after 3 failures");
    assert!(wait > 0 && wait <= 8);
}

#[test]
fn a_success_clears_the_throttle() {
    let mut throttle = LoginThrottle::default();
    for _ in 0..3 {
        throttle.record_failure("alice");
    }
    throttle.record_success("alice");
    assert_eq!(throttle.retry_after_secs("alice"), None);
}

#[test]
fn usernames_are_throttled_independently() {
    let mut throttle = LoginThrottle::default();
    for _ in 0..3 {
        throttle.record_failure("alice");
    }
    assert_eq!(throttle.retry_after_secs("bob"), None);
}

#[test]
fn the_wait_rounds_up_to_whole_seconds_and_ends() {
    let mut throttle = LoginThrottle::default();
    for _ in 0..3 {
        throttle.record_failure_at("alice", 1_000);
    }
    assert_eq!(throttle.retry_after_secs_at("alice", 1_000), Some(8));
    assert_eq!(throttle.retry_after_secs_at("alice", 8_999), Some(1));
    assert_eq!(throttle.retry_after_secs_at("alice", 9_000), None);
}

#[test]
fn hashed_password_verifies_and_rejects_a_wrong_one() {
    let hash = hash_password("correct horse battery staple");
    assert!(verify_password("correct horse battery staple", &hash));
    assert!(!verify_password("wrong", &hash));
}

#[test]
fn a_malformed_stored_hash_fails_closed() {
    assert!(!verify_password("anything", "not a real hash"));
}

#[test]
fn access_token_verifies_immediately_after_issue() {
    let mut store = TokenStore::default();
    let issued = store.issue(Subject::Account("acct-1".to_string()));
    assert_eq!(store.verify_access(&issued.access_token), Some(Subject::Account("acct-1".to_string())));
}

#[test]
fn unknown_token_does_not_verify() {
    let mut store = TokenStore::default();
    assert_eq!(store.verify_access("not-a-real-token"), None);
}

#[test]
fn an_expired_access_token_stops_verifying() {
    let mut store = TokenStore::default();
    store.issue_at(Subject::Admin, 0, "a".to_string(), "r".to_string());
    assert_eq!(store.verify_access_at("a", ACCESS_TOKEN_TTL_MS), Some(Subject::Admin));
    assert_eq!(store.verify_access_at("a", ACCESS_TOKEN_TTL_MS + 1), None);
    assert_eq!(store.verify_access_at("a", 0), None);
}

#[test]
fn refresh_token_mints_a_new_working_access_token() {
    let mut store = TokenStore::default();
    let issued = store.issue(Subject::Admin);
    let (fresh, subject) = store.refresh(&issued.refresh_token).expect("a valid refresh token");
    assert_eq!(subject, Subject::Admin);
    assert_eq!(store.verify_access(&fresh.access_token), Some(Subject::Admin));
}

#[test]
fn an_access_token_is_not_accepted_as_a_refresh_token() {
    let mut store = TokenStore::default();
    let issued = store.issue(Subject::Admin);
    assert!(store.refresh(&issued.access_token).is_none());
}

#[test]
fn refreshing_rotates_the_refresh_token() {
    let mut store = TokenStore::default();
    let issued = store.issue(Subject::Admin);
    let (fresh, _) = store.refresh(&issued.refresh_token).expect("a valid refresh token");
    assert_ne!(fresh.refresh_token, issued.refresh_token);
    assert_eq!(store.verify_access(&fresh.access_token), Some(Subject::Admin));
    assert!(store.refresh(&fresh.refresh_token).is_some());
}

#[test]
fn a_racing_second_use_of_a_just_rotated_token_gets_the_same_replacement() {
    let mut store = TokenStore::default();
    let issued = store.issue(Subject::Admin);
    let (first, _) = store.refresh(&issued.refresh_token).expect("first use rotates it");
    let (second, _) = store.refresh(&issued.refresh_token).expect("a racing second use, within grace");
    assert_eq!(first.refresh_token, second.refresh_token);
    assert_eq!(store.verify_access(&second.access_token), Some(Subject::Admin));
}

#[test]
fn a_rotated_token_is_refused_once_the_grace_window_passes() {
    let mut store = TokenStore::default();
    let t0 = 1_000_000;
    store.issue_at(Subject::Admin, t0, "a0".to_string(), "r0".to_string());
    store.refresh_at("r0", t0, "a1".to_string(), "r1".to_string()).expect("rotates it");
    assert!(store.refresh_at("r0", t0 + REUSE_GRACE_MS + 100, "a2".to_string(), "r2".to_string()).is_none());
}

#[test]
fn a_grace_window_replay_does_not_resurrect_a_revoked_session() {
    let mut store = TokenStore::default();
    let issued = store.issue(Subject::Account("acct-1".to_string()));
    store.refresh(&issued.refresh_token).expect("rotates it");
    store.revoke_subject(&Subject::Account("acct-1".to_string()));
    assert!(store.refresh(&issued.refresh_token).is_none());
}

#[test]
fn revoking_a_subject_kills_both_token_kinds_and_leaves_others_alone() {
    let mut store = TokenStore::default();
    let alice = store.issue(Subject::Account("acct-1".to_string()));
    let alice_phone = store.issue(Subject::Account("acct-1".to_string()));
    let bob = store.issue(Subject::Account("acct-2".to_string()));

    store.revoke_subject(&Subject::Account("acct-1".to_string()));

    assert_eq!(store.verify_access(&alice.access_token), None);
    assert_eq!(store.verify_access(&alice_phone.access_token), None);
    assert!(store.refresh(&alice.refresh_token).is_none());
    assert!(store.refresh(&alice_phone.refresh_token).is_none());

    assert!(store.verify_access(&bob.access_token).is_some());
    assert!(store.refresh(&bob.refresh_token).is_some());
}

#[test]
fn revoking_presented_tokens_drops_only_those() {
    let mut store = TokenStore::default();
    let one = store.issue(Subject::Admin);
    let two = store.issue(Subject::Admin);
    store.revoke_tokens(Some(&one.access_token), Some(&one.refresh_token));
    assert_eq!(store.verify_access(&one.access_token), None);
    assert!(store.refresh(&one.refresh_token).is_none());
    assert_eq!(store.verify_access(&two.access_token), Some(Subject::Admin));
}

#[test]
fn boot_passwords_and_tokens_are_reasonably_unpredictable() {
    assert_ne!(generate_boot_password(), generate_boot_password());
    assert_ne!(generate_token(), generate_token());
    assert_eq!(generate_boot_password().chars().count(), 20);
}

#[test]
fn boot_passwords_avoid_look_alike_characters() {
    for _ in 0..20 {
        let p = generate_boot_password();
        assert!(p.chars().all(|c| c.is_ascii_alphanumeric() && !"0O1lI".contains(c)));
    }
    assert_eq!(generate_token().len(), 64);
}

#[test]
fn wrong_password_is_rejected() {
    let hash = hash_password("alice-pw");
    let dummy = hash_password("dummy");
    let mut throttle = LoginThrottle::default();
    let mut tokens = TokenStore::default();
    let known = Some((Subject::Account("acct-1".into()), hash.as_str()));
    let r = login(&mut throttle, &mut tokens, "alice", "nope", known.clone(), &dummy);
    assert_eq!(r.unwrap_err(), LoginError::InvalidCredentials);
    let r = login(&mut throttle, &mut tokens, "ghost", "alice-pw", None, &dummy);
    assert_eq!(r.unwrap_err(), LoginError::InvalidCredentials, "an unknown user gets the same answer");
    let (issued, subject) = login(&mut throttle, &mut tokens, "alice", "alice-pw", known, &dummy).expect("right password");
    assert_eq!(subject, Subject::Account("acct-1".into()));
    assert_eq!(tokens.verify_access(&issued.access_token), Some(Subject::Account("acct-1".into())));
}

#[test]
fn a_throttled_username_is_refused_before_its_password_is_checked() {
    let hash = hash_password("pw");
    let mut throttle = LoginThrottle::default();
    let mut tokens = TokenStore::default();
    let now = 1_000_000;
    for _ in 0..3 {
        throttle.record_failure_at("admin", now);
    }
    let r = login_at(
        &mut throttle,
        &mut tokens,
        "admin",
        "pw",
        Some((Subject::Admin, hash.as_str())),
        &hash,
        now + 1,
        "a".repeat(64),
        "r".repeat(64),
    );
    assert_eq!(r.unwrap_err(), LoginError::TooManyAttempts { retry_after_secs: 8 });
    let r = login_at(
        &mut throttle,
        &mut tokens,
        "admin",
        "pw",
        Some((Subject::Admin, hash.as_str())),
        &hash,
        now + 8_001,
        "a".repeat(64),
        "r".repeat(64),
    );
    let (issued, subject) = r.expect("the wait is over and the password is right");
    assert_eq!((subject, issued.access_token.len()), (Subject::Admin, 64));
    assert_eq!(throttle.retry_after_secs_at("admin", now + 8_002), None, "a success clears the record");
}

#[test]
fn a_token_is_lowercase_hex() {
    let t = generate_token();
    assert!(t.chars().all(|c| c.is_ascii_digit() || ('a'..='f').contains(&c)));
}
