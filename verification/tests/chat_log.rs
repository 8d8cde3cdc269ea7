use agoralume::chat_log::{has_read, list_window, mark_read, new_turn, reconstruct_turn, set_turn_member, state_rank, window_bounds};
use agoralume::models::{Message, TurnMemberState, TurnTrigger};

fn line(id: &str, who: &str, ts: i64) -> Message {
    Message::conversation("g".into(), who.into(), format!("text {id}"), None, id.into(), ts)
}

fn log(n: usize) -> Vec<Message> {
    (0..n).map(|i| line(&format!("m{i}"), "nox", i as i64)).collect()
}

#[test]
fn an_anchored_window_takes_neighbours_on_each_side() {
    let l = log(10);
    assert_eq!(window_bounds(&l, Some("m5"), Some(2), Some(1), None), Some((3, 7)));
    assert_eq!(window_bounds(&l, Some("m1"), Some(5), None, None), Some((0, 2)));
    assert_eq!(window_bounds(&l, Some("m8"), None, Some(5), None), Some((8, 10)));
    assert_eq!(window_bounds(&l, Some("nope"), Some(2), None, None), None);
    assert!(list_window(&l, Some("nope"), Some(2), None, None).is_empty());
}

#[test]
fn the_tail_window_reaches_back_over_the_unread_run_but_not_past_the_cap() {
    let l = log(10);
    assert_eq!(window_bounds(&l, None, Some(3), None, None), Some((7, 10)));
    assert_eq!(window_bounds(&l, None, Some(3), None, Some(4)), Some((5, 10)));
    assert_eq!(window_bounds(&l, None, None, None, None), Some((0, 10)));
    let big = log(400);
    assert_eq!(window_bounds(&big, None, None, None, Some(-1)), Some((240, 400)));
    let w = list_window(&l, None, Some(2), None, None);
    assert_eq!(w.iter().map(|m| m.id().to_string()).collect::<Vec<_>>(), vec!["m8", "m9"]);
}

#[test]
fn a_read_receipt_is_recorded_once() {
    let mut l = log(3);
    assert!(mark_read(&mut l, "m1", "aria"));
    assert!(!mark_read(&mut l, "m1", "aria"));
    assert!(has_read(&l, "m1", "aria"));
    assert!(!has_read(&l, "m1", "nox"));
    assert!(!mark_read(&mut l, "missing", "aria"));
    l.push(Message::mood("g".into(), "nox".into(), "🙂".into(), None, "mood1".into(), 9));
    assert!(!mark_read(&mut l, "mood1", "aria"));
}

#[test]
fn a_turn_is_rebuilt_from_the_last_user_line() {
    let mut l = vec![
        line("u1", "me", 1),
        line("a1", "aria", 2),
        line("u2", "me", 3),
        line("n1", "nox", 4),
        line("n2", "nox", 5),
    ];
    mark_read(&mut l, "u2", "sol");
    let members = vec!["aria".to_string(), "nox".to_string(), "sol".to_string()];
    let turn = reconstruct_turn("g", &"me".to_string(), &members, &l).unwrap();
    assert_eq!(turn.id, "u2");
    assert_eq!(turn.started_at, 3);
    assert!(!turn.active);
    assert!(matches!(&turn.trigger, TurnTrigger::Message { message_id, .. } if message_id == "u2"));
    assert_eq!(turn.members[0].state, TurnMemberState::Pending);
    assert_eq!(turn.members[1].state, TurnMemberState::Replied);
    assert_eq!(turn.members[1].reply_id.as_deref(), Some("n1"));
    assert_eq!(turn.members[2].state, TurnMemberState::Read);
    assert!(reconstruct_turn("g", &"nobody".to_string(), &members, &l).is_none());
}

#[test]
fn member_progress_only_advances() {
    let members = vec!["aria".to_string(), "nox".to_string()];
    let mut turn = new_turn("g".into(), TurnTrigger::Event { label: "rain".into() }, &members, "t1".into(), 5);
    assert!(turn.active);
    assert!(set_turn_member(&mut turn, "aria", TurnMemberState::Replied, Some("r1".into())));
    assert!(!set_turn_member(&mut turn, "aria", TurnMemberState::Read, None));
    assert!(set_turn_member(&mut turn, "aria", TurnMemberState::Replied, Some("r2".into())));
    assert_eq!(turn.members[0].reply_id.as_deref(), Some("r1"));
    assert!(!set_turn_member(&mut turn, "ghost", TurnMemberState::Read, None));
    assert_eq!(turn.members[1].state, TurnMemberState::Pending);
    assert!(state_rank(TurnMemberState::Pending) < state_rank(TurnMemberState::Read));
    assert!(state_rank(TurnMemberState::Read) < state_rank(TurnMemberState::Replied));
}
