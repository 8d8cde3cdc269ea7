//! A group's message log and its turn bar: windows of history for lazy
//! loading, read receipts, and the per-member progress of a turn (including
//! rebuilding the last turn from the log after a restart).

use vstd::prelude::*;
use vstd::string::*;

use crate::models::{
    opt_view, AgentTrace, GroupSuggestions, ReadReceipt, spec_message_id, spec_message_ts, Message, Turn, TurnMember, TurnMemberState, TurnTrigger,
};
use crate::workspace::{first_index, lemma_first_index, lemma_first_index_is};

verus! {

/// How many lines the tail window reaches back at most.
pub const INITIAL_CAP: usize = 160;

/// Whether a message has id `id`.
pub open spec fn message_with_id(id: Seq<char>) -> spec_fn(Message) -> bool {
    |m: Message| spec_message_id(m)@ == id
}

/// Whether a message is newer than the read mark `since`.
pub open spec fn newer_than(since: i64) -> spec_fn(Message) -> bool {
    |m: Message| spec_message_ts(m) > since
}

/// `a - b`, or 0 when `b` is larger.
pub open spec fn sat_sub(a: int, b: int) -> int {
    if a >= b {
        a - b
    } else {
        0
    }
}

/// The bounds `start..end` of a history window, or `None` for an unknown
/// anchor: around an anchor, up to `before` older lines and `after` newer
/// ones; without one, the tail, reaching back over `before` lines and over
/// the unread run after `since`, but never more than the cap.
pub open spec fn spec_window_bounds(
    list: Seq<Message>,
    anchor: Option<Seq<char>>,
    before: Option<usize>,
    after: Option<usize>,
    since: Option<i64>,
) -> Option<(int, int)> {
    match anchor {
        Some(id) => {
            let idx = first_index(list, message_with_id(id));
            if idx < 0 {
                None
            } else {
                let start = sat_sub(idx, match before {
                    Some(b) => b as int,
                    None => 0,
                });
                let end = match after {
                    Some(n) => if idx + 1 + n < list.len() {
                        idx + 1 + n
                    } else {
                        list.len() as int
                    },
                    None => idx + 1,
                };
                Some((start, end))
            }
        },
        None => {
            let end = list.len() as int;
            let cap = sat_sub(end, INITIAL_CAP as int);
            let by_before = sat_sub(end, match before {
                Some(b) => b as int,
                None => end,
            });
            let reach = match since {
                Some(ts) => {
                    let u = first_index(list, newer_than(ts));
                    let unread = if u < 0 {
                        end
                    } else {
                        u
                    };
                    if by_before < unread {
                        by_before
                    } else {
                        unread
                    }
                },
                None => by_before,
            };
            Some((if reach > cap {
                reach
            } else {
                cap
            }, end))
        },
    }
}

/// The tail window shown when a chat opens (no anchor): it ends at the
/// newest line and never reaches back past the cap; it always shows the last
/// `before` lines (as far as the cap allows), and with no read mark exactly
/// those; every unread line within the cap is shown; and the read mark only
/// widens the window, and only back to the first unread line.
pub proof fn lemma_tail_window(list: Seq<Message>, before: Option<usize>, since: Option<i64>)
    ensures
        match spec_window_bounds(list, None, before, None, since) {
            Some((s, e)) => {
                let len = list.len() as int;
                let floor = if len >= INITIAL_CAP { len - INITIAL_CAP } else { 0 };
                let last_b = match before {
                    Some(b) => if len >= b { len - b } else { 0 },
                    None => 0,
                };
                &&& e == len
                &&& floor <= s <= len
                &&& s <= (if last_b > floor { last_b } else { floor })
                &&& since is None ==> s == (if last_b > floor { last_b } else { floor })
                &&& match since {
                    Some(ts) => {
                        &&& forall|i: int|
                            0 <= i < len && spec_message_ts(#[trigger] list[i]) > ts ==> s <= (if i > floor {
                                i
                            } else {
                                floor
                            })
                        &&& floor < s < last_b ==> spec_message_ts(list[s]) > ts && forall|i: int|
                            0 <= i < s ==> spec_message_ts(#[trigger] list[i]) <= ts
                        &&& s < last_b ==> exists|i: int| 0 <= i <= s && spec_message_ts(#[trigger] list[i]) > ts
                    },
                    None => true,
                }
            },
            None => false,
        },
{
    match since {
        Some(ts) => {
            lemma_first_index(list, newer_than(ts));
        },
        None => {},
    }
}

/// A window around an anchor: an unknown anchor gives none; otherwise the
/// window holds the anchor message itself, up to `before` lines before it
/// (all of them, as far as the log reaches) and up to `after` lines after it,
/// whatever the read mark.
pub proof fn lemma_anchor_window(
    list: Seq<Message>,
    id: Seq<char>,
    before: Option<usize>,
    after: Option<usize>,
    since: Option<i64>,
)
    ensures
        !(exists|i: int| 0 <= i < list.len() && spec_message_id(#[trigger] list[i])@ == id)
            ==> spec_window_bounds(list, Some(id), before, after, since) is None,
        forall|i: int|
            0 <= i < list.len() && spec_message_id(#[trigger] list[i])@ == id ==> match spec_window_bounds(
                list,
                Some(id),
                before,
                after,
                since,
            ) {
                Some((s, e)) => {
                    let k = first_index(list, message_with_id(id));
                    &&& 0 <= s <= k < e <= list.len()
                    &&& k <= i
                    &&& spec_message_id(list[k])@ == id
                    &&& s == (match before {
                        Some(b) => if k >= b { k - b } else { 0 },
                        None => k,
                    })
                    &&& e == (match after {
                        Some(n) => if k + 1 + n < list.len() { k + 1 + n } else { list.len() as int },
                        None => k + 1,
                    })
                    &&& spec_window_bounds(list, Some(id), before, after, since) == spec_window_bounds(
                        list,
                        Some(id),
                        before,
                        after,
                        None,
                    )
                },
                None => false,
            },
{
    lemma_first_index(list, message_with_id(id));
    let k = first_index(list, message_with_id(id));
    if k < 0 {
        assert forall|i: int| 0 <= i < list.len() implies spec_message_id(#[trigger] list[i])@ != id by {
            assert(!message_with_id(id)(list[i]));
        }
    } else {
        assert forall|i: int| 0 <= i < list.len() && spec_message_id(#[trigger] list[i])@ == id implies k <= i by {
            if i < k {
                assert(!message_with_id(id)(list[i]));
            }
        }
    }
}

/// The index of the first message with id `id`.
fn find_message(list: &Vec<Message>, id: &String) -> (r: Option<usize>)
    ensures
        match r {
            Some(i) => i == first_index(list@, message_with_id(id@)) && i < list@.len(),
            None => first_index(list@, message_with_id(id@)) == -1,
        },
{
    crate::workspace::find_where(
        list,
        (|m: &Message| -> (b: bool)
            ensures
                b == (spec_message_id(*m)@ == id@),
            { String::from_str(m.id()) == *id }),
        Ghost(message_with_id(id@)),
    )
}

/// The bounds of a history window (see [`spec_window_bounds`]).
pub fn window_bounds(
    list: &Vec<Message>,
    anchor: Option<&str>,
    before: Option<usize>,
    after: Option<usize>,
    since: Option<i64>,
) -> (r: Option<(usize, usize)>)
    requires
        after matches Some(n) ==> n <= usize::MAX - list@.len(),
    ensures
        match r {
            Some((s, e)) => spec_window_bounds(list@, match anchor {
                Some(a) => Some(a@),
                None => None,
            }, before, after, since) == Some((s as int, e as int)) && s <= e <= list@.len(),
            None => spec_window_bounds(list@, match anchor {
                Some(a) => Some(a@),
                None => None,
            }, before, after, since) is None,
        },
{
    match anchor {
        Some(a) => {
            let key = String::from_str(a);
            let len = list.len();
            let idx = match find_message(list, &key) {
                None => return None,
                Some(i) => i,
            };
            let b = match before {
                Some(b) => b,
                None => 0,
            };
            let start = if idx >= b { idx - b } else { 0 };
            let end = match after {
                Some(n) => if idx + 1 + n < len { idx + 1 + n } else { len },
                None => idx + 1,
            };
            Some((start, end))
        },
        None => {
            let end = list.len();
            let cap = if end >= INITIAL_CAP { end - INITIAL_CAP } else { 0 };
            let b = match before {
                Some(b) => b,
                None => end,
            };
            let by_before = if end >= b { end - b } else { 0 };
            let reach = match since {
                Some(ts) => {
                    let u = crate::workspace::find_where(
                        list,
                        (|m: &Message| -> (b: bool)
                            ensures
                                b == (spec_message_ts(*m) > ts),
                            { m.ts() > ts }),
                        Ghost(newer_than(ts)),
                    );
                    let unread = match u {
                        Some(i) => i,
                        None => end,
                    };
                    if by_before < unread { by_before } else { unread }
                },
                None => by_before,
            };
            Some((if reach > cap { reach } else { cap }, end))
        },
    }
}

/// A contiguous window of a log, oldest first (see [`spec_window_bounds`]);
/// empty for an unknown anchor.
pub fn list_window(
    list: &Vec<Message>,
    anchor: Option<&str>,
    before: Option<usize>,
    after: Option<usize>,
    since: Option<i64>,
) -> (r: Vec<Message>)
    requires
        after matches Some(n) ==> n <= usize::MAX - list@.len(),
    ensures
        match spec_window_bounds(list@, match anchor {
            Some(a) => Some(a@),
            None => None,
        }, before, after, since) {
            Some((s, e)) => r@.len() == e - s && forall|k: int| 0 <= k < r@.len() ==> (#[trigger] r@[k])@ == list@[s + k]@,
            None => r@.len() == 0,
        },
{
    match window_bounds(list, anchor, before, after, since) {
        None => Vec::new(),
        Some((start, end)) => {
            let mut out: Vec<Message> = Vec::new();
            let mut i = start;
            while i < end
                invariant
                    start <= i <= end <= list@.len(),
                    out@.len() == i - start,
                    forall|k: int| 0 <= k < out@.len() ==> (#[trigger] out@[k])@ == list@[start + k]@,
                decreases end - i,
            {
                out.push(list[i].copy());
                i = i + 1;
            }
            out
        },
    }
}

// --- Read receipts ----------------------------------------------------------------

/// The AI personas that have read a message (none unless it is a spoken line
/// with receipts).
pub open spec fn spec_readers(m: Message) -> Seq<Seq<char>> {
    match m {
        Message::Conversation { read_by: Some(v), .. } => v.deep_view(),
        _ => Seq::empty(),
    }
}

/// Whether message `message_id` can take a new read receipt from `persona_id`:
/// the first message with that id is a spoken line the persona hasn't read.
pub open spec fn spec_receipt_added(list: Seq<Message>, message_id: Seq<char>, persona_id: Seq<char>) -> bool {
    let i = first_index(list, message_with_id(message_id));
    &&& i >= 0
    &&& list[i] is Conversation
    &&& !spec_readers(list[i]).contains(persona_id)
}

/// Once a persona's receipt is on a message, the message takes no second
/// one from it: a repeated read changes nothing.
proof fn lemma_receipt_settled(before: Seq<Message>, after: Seq<Message>, message_id: Seq<char>, persona_id: Seq<char>, i: int)
    requires
        i == first_index(before, message_with_id(message_id)),
        0 <= i < before.len(),
        after.len() == before.len(),
        forall|k: int| 0 <= k < before.len() && k != i ==> #[trigger] after[k] == before[k],
        spec_message_id(after[i])@ == spec_message_id(before[i])@,
        spec_readers(after[i]).contains(persona_id),
    ensures
        !spec_receipt_added(after, message_id, persona_id),
{
    let f = message_with_id(message_id);
    lemma_first_index(before, f);
    assert forall|j: int| 0 <= j < i implies !f(#[trigger] after[j]) by {
        assert(after[j] == before[j]);
    }
    lemma_first_index_is(after, f, i);
}

/// Records that an AI persona processed a message; a repeated read is a
/// no-op. Returns whether a receipt was added (to be persisted and
/// broadcast). Afterwards the message takes no further receipt from the
/// persona, so reading it again returns `false` and changes nothing.
pub fn mark_read(list: &mut Vec<Message>, message_id: &str, persona_id: &str) -> (r: bool)
    ensures
        r == spec_receipt_added(old(list)@, message_id@, persona_id@),
        !spec_receipt_added(final(list)@, message_id@, persona_id@),
        !r ==> final(list)@ == old(list)@,
        r ==> ({
            let i = first_index(old(list)@, message_with_id(message_id@));
            &&& final(list)@.len() == old(list)@.len()
            &&& forall|k: int| 0 <= k < old(list)@.len() && k != i ==> #[trigger] final(list)@[k] == old(list)@[k]
            &&& final(list)@[i] matches Message::Conversation { id, group_id, persona_id: p, ts, text, streaming, read_by: Some(v) }
            &&& old(list)@[i] matches Message::Conversation { id: id0, group_id: g0, persona_id: p0, ts: ts0, text: t0, streaming: s0, .. }
            &&& id == id0 && group_id == g0 && p == p0 && ts == ts0 && text == t0 && streaming == s0
            &&& v.deep_view() == spec_readers(old(list)@[i]).push(persona_id@)
        }),
{
    let key = String::from_str(message_id);
    let i = match find_message(list, &key) {
        None => return false,
        Some(i) => i,
    };
    proof {
        lemma_first_index(list@, message_with_id(message_id@));
    }
    let already = match &list[i] {
        Message::Conversation { read_by, .. } => match read_by {
            Some(v) => crate::text::contains_string(v, persona_id),
            None => false,
        },
        _ => return false,
    };
    proof {
        match list@[i as int] {
            Message::Conversation { read_by: Some(v), .. } => {
                assert(crate::text::views(v@) =~= v.deep_view());
            },
            _ => {},
        }
    }
    if already {
        return false;
    }
    let ghost before = list@;
    let m = list.remove(i);
    let m2 = match m {
        Message::Conversation { id, group_id, persona_id: p, ts, text, streaming, read_by } => {
            let mut v = match read_by {
                Some(v) => v,
                None => Vec::new(),
            };
            let ghost v0 = v.deep_view();
            v.push(String::from_str(persona_id));
            assert(v.deep_view() =~= v0.push(persona_id@));
            Message::Conversation { id, group_id, persona_id: p, ts, text, streaming, read_by: Some(v) }
        },
        other => other,
    };
    list.insert(i, m2);
    proof {
        assert forall|k: int| 0 <= k < before.len() && k != i implies #[trigger] list@[k] == before[k] by {}
        let ii = i as int;
        match list@[ii] {
            Message::Conversation { read_by: Some(v), .. } => {
                assert(v.deep_view()[v.deep_view().len() - 1] == persona_id@);
            },
            _ => {},
        }
        lemma_receipt_settled(before, list@, message_id@, persona_id@, ii);
    }
    true
}

/// Whether an AI persona has already read a given message.
pub fn has_read(list: &Vec<Message>, message_id: &str, persona_id: &str) -> (r: bool)
    ensures
        r == ({
            let i = first_index(list@, message_with_id(message_id@));
            i >= 0 && (list@[i] matches Message::Conversation { read_by: Some(v), .. } && v.deep_view().contains(persona_id@))
        }),
{
    let key = String::from_str(message_id);
    let i = match find_message(list, &key) {
        None => return false,
        Some(i) => i,
    };
    match &list[i] {
        Message::Conversation { read_by: Some(v), .. } => {
            assert(crate::text::views(v@) =~= v.deep_view());
            crate::text::contains_string(v, persona_id)
        },
        _ => false,
    }
}

// --- Turns ----------------------------------------------------------------------

/// Orders member states so progress only ever advances.
pub open spec fn spec_state_rank(state: TurnMemberState) -> u8 {
    match state {
        TurnMemberState::Pending => 0,
        TurnMemberState::Read => 1,
        TurnMemberState::Replied => 2,
    }
}

/// The rank of a member state: pending, then read, then replied.
pub fn state_rank(state: TurnMemberState) -> (r: u8)
    ensures
        r == spec_state_rank(state),
{
    match state {
        TurnMemberState::Pending => 0,
        TurnMemberState::Read => 1,
        TurnMemberState::Replied => 2,
    }
}

/// A fresh turn: every AI member starts pending.
pub fn new_turn(group_id: String, trigger: TurnTrigger, member_ids: &Vec<String>, id: String, started_at: i64) -> (r: Turn)
    ensures
        r.id == id,
        r.group_id == group_id,
        r.trigger == trigger,
        r.started_at == started_at,
        r.active,
        r.members@.len() == member_ids@.len(),
        forall|k: int|
            0 <= k < member_ids@.len() ==> (#[trigger] r.members@[k]).persona_id == member_ids@[k]
                && r.members@[k].state == TurnMemberState::Pending && r.members@[k].reply_id is None,
{
    let mut members: Vec<TurnMember> = Vec::new();
    let mut i: usize = 0;
    while i < member_ids.len()
        invariant
            i <= member_ids@.len(),
            members@.len() == i,
            forall|k: int|
                0 <= k < i ==> (#[trigger] members@[k]).persona_id == member_ids@[k] && members@[k].state
                    == TurnMemberState::Pending && members@[k].reply_id is None,
        decreases member_ids@.len() - i,
    {
        members.push(TurnMember { persona_id: member_ids[i].clone(), state: TurnMemberState::Pending, reply_id: None });
        i = i + 1;
    }
    Turn { id, group_id, trigger, started_at, active: true, members }
}

/// Whether a member is `persona_id`.
pub open spec fn member_with_id(id: Seq<char>) -> spec_fn(TurnMember) -> bool {
    |m: TurnMember| m.persona_id@ == id
}

/// Records one member's progress in a turn. Advances only (pending, read,
/// replied); the first reply id is kept as the jump target. Returns whether
/// the turn changed (to be broadcast); `false` when the member isn't part of
/// the turn or the state would move back.
pub fn set_turn_member(turn: &mut Turn, persona_id: &str, state: TurnMemberState, reply_id: Option<String>) -> (r: bool)
    ensures
        ({
            let i = first_index(old(turn).members@, member_with_id(persona_id@));
            &&& r == (i >= 0 && spec_state_rank(state) >= spec_state_rank(old(turn).members@[i].state))
            &&& !r ==> *final(turn) == *old(turn)
            &&& r ==> {
                &&& final(turn).members@ == old(turn).members@.update(i, TurnMember {
                    persona_id: old(turn).members@[i].persona_id,
                    state,
                    reply_id: if old(turn).members@[i].reply_id is Some {
                        old(turn).members@[i].reply_id
                    } else {
                        reply_id
                    },
                })
                &&& final(turn).id == old(turn).id && final(turn).group_id == old(turn).group_id
                &&& final(turn).trigger == old(turn).trigger && final(turn).started_at == old(turn).started_at
                &&& final(turn).active == old(turn).active
            }
        }),
        // Progress never moves back, and a jump target once set stays.
        final(turn).members@.len() == old(turn).members@.len(),
        forall|k: int| 0 <= k < old(turn).members@.len() ==> spec_state_rank(#[trigger] final(turn).members@[k].state) >= spec_state_rank(old(turn).members@[k].state),
        forall|k: int| 0 <= k < old(turn).members@.len() && old(turn).members@[k].reply_id is Some ==> #[trigger] final(turn).members@[k].reply_id == old(turn).members@[k].reply_id,
{
    let key = String::from_str(persona_id);
    let found = crate::workspace::find_where(
        &turn.members,
        (|m: &TurnMember| -> (b: bool)
            ensures
                b == (m.persona_id@ == key@),
            { m.persona_id == key }),
        Ghost(member_with_id(key@)),
    );
    let i = match found {
        None => return false,
        Some(i) => i,
    };
    proof {
        lemma_first_index(turn.members@, member_with_id(persona_id@));
    }
    if state_rank(state) < state_rank(turn.members[i].state) {
        return false;
    }
    let m = turn.members.remove(i);
    let reply = match m.reply_id {
        Some(r) => Some(r),
        None => reply_id,
    };
    turn.members.insert(i, TurnMember { persona_id: m.persona_id, state, reply_id: reply });
    proof {
        assert(turn.members@ =~= old(turn).members@.update(i as int, turn.members@[i as int]));
    }
    true
}

/// Whether a message is a spoken line by `persona_id`.
pub open spec fn spoken_by(m: Message, persona_id: Seq<char>) -> bool {
    m matches Message::Conversation { persona_id: p, .. } && p@ == persona_id
}

/// The index of the last spoken line by `self_id`, or -1.
pub open spec fn spec_last_spoken_by(list: Seq<Message>, self_id: Seq<char>) -> int
    decreases list.len(),
{
    if list.len() == 0 {
        -1
    } else if spoken_by(list.last(), self_id) {
        list.len() - 1
    } else {
        spec_last_spoken_by(list.drop_last(), self_id)
    }
}

/// The id of `pid`'s first spoken line from index `from` on, before `self_id`
/// speaks again.
pub open spec fn spec_first_reply(list: Seq<Message>, from: int, self_id: Seq<char>, pid: Seq<char>) -> Option<Seq<char>>
    decreases list.len() - from,
{
    if from < 0 || from >= list.len() {
        None
    } else {
        match list[from] {
            Message::Conversation { persona_id, id, .. } => if persona_id@ == self_id {
                None
            } else if persona_id@ == pid {
                Some(id@)
            } else {
                spec_first_reply(list, from + 1, self_id, pid)
            },
            _ => spec_first_reply(list, from + 1, self_id, pid),
        }
    }
}

/// A member's state in a rebuilt turn: replied if it spoke after the
/// trigger, read if it holds a receipt for it, else pending.
pub open spec fn spec_member_state(reply: Option<Seq<char>>, readers: Seq<Seq<char>>, pid: Seq<char>) -> TurnMemberState {
    if reply is Some {
        TurnMemberState::Replied
    } else if readers.contains(pid) {
        TurnMemberState::Read
    } else {
        TurnMemberState::Pending
    }
}

proof fn lemma_last_spoken_by(list: Seq<Message>, self_id: Seq<char>)
    ensures
        spec_last_spoken_by(list, self_id) >= 0 ==> spec_last_spoken_by(list, self_id) < list.len() && spoken_by(
            list[spec_last_spoken_by(list, self_id)],
            self_id,
        ),
        spec_last_spoken_by(list, self_id) >= -1,
    decreases list.len(),
{
    if list.len() > 0 && !spoken_by(list.last(), self_id) {
        lemma_last_spoken_by(list.drop_last(), self_id);
        let t = spec_last_spoken_by(list.drop_last(), self_id);
        if t >= 0 {
            assert(list.drop_last()[t] == list[t]);
        }
    }
}

fn last_spoken_by(list: &Vec<Message>, self_id: &String) -> (r: Option<usize>)
    ensures
        match r {
            Some(i) => i == spec_last_spoken_by(list@, self_id@) && i < list@.len(),
            None => spec_last_spoken_by(list@, self_id@) == -1,
        },
{
    let mut n = list.len();
    assert(list@.subrange(0, n as int) =~= list@);
    while n > 0
        invariant
            n <= list@.len(),
            spec_last_spoken_by(list@, self_id@) == spec_last_spoken_by(list@.subrange(0, n as int), self_id@),
        decreases n,
    {
        let ghost pre = list@.subrange(0, n as int);
        assert(pre.last() == list@[n - 1]);
        let hit = match &list[n - 1] {
            Message::Conversation { persona_id, .. } => *persona_id == *self_id,
            _ => false,
        };
        if hit {
            return Some(n - 1);
        }
        assert(pre.drop_last() =~= list@.subrange(0, n - 1));
        n = n - 1;
    }
    None
}

fn first_reply(list: &Vec<Message>, from: usize, self_id: &String, pid: &String) -> (r: Option<String>)
    ensures
        crate::models::opt_view(r) == spec_first_reply(list@, from as int, self_id@, pid@),
{
    let mut i = from;
    while i < list.len()
        invariant
            from <= i,
            spec_first_reply(list@, from as int, self_id@, pid@) == spec_first_reply(list@, i as int, self_id@, pid@),
        decreases list@.len() - i,
    {
        match &list[i] {
            Message::Conversation { persona_id, id, .. } => {
                if *persona_id == *self_id {
                    return None;
                }
                if *persona_id == *pid {
                    return Some(id.clone());
                }
            },
            _ => {},
        }
        i = i + 1;
    }
    None
}

/// Rebuilds a message-triggered turn from a group's log, given the group's
/// "you" and AI members: the trigger is the last line "you" sent; each
/// member is replied (with its first reply as the jump target) if it spoke
/// before "you" spoke again, read if it holds a receipt for the trigger,
/// else pending. `None` when "you" never spoke.
pub fn reconstruct_turn(group_id: &str, self_id: &String, member_ids: &Vec<String>, list: &Vec<Message>) -> (r: Option<Turn>)
    ensures
        ({
            let t = spec_last_spoken_by(list@, self_id@);
            &&& r is None <==> t < 0
            &&& r matches Some(turn) ==> {
                &&& list@[t] matches Message::Conversation { id, ts, text, .. }
                &&& turn.id@ == spec_message_id(list@[t])@
                &&& turn.group_id@ == group_id@
                &&& turn.trigger matches TurnTrigger::Message { message_id, persona_id, text: tt }
                &&& message_id@ == spec_message_id(list@[t])@ && persona_id@ == self_id@
                &&& list@[t] matches Message::Conversation { text, .. } && tt@ == text@
                &&& turn.started_at == spec_message_ts(list@[t])
                &&& !turn.active
                &&& turn.members@.len() == member_ids@.len()
                &&& forall|k: int| 0 <= k < member_ids@.len() ==> {
                    let reply = spec_first_reply(list@, t + 1, self_id@, member_ids@[k]@);
                    &&& (#[trigger] turn.members@[k]).persona_id == member_ids@[k]
                    &&& crate::models::opt_view(turn.members@[k].reply_id) == reply
                    &&& turn.members@[k].state == spec_member_state(reply, spec_readers(list@[t]), member_ids@[k]@)
                }
            }
        }),
{
    let len = list.len();
    let t = match last_spoken_by(list, self_id) {
        None => return None,
        Some(t) => t,
    };
    proof {
        lemma_last_spoken_by(list@, self_id@);
    }
    let from = t + 1;
    let (trigger_id, ts, text, readers) = match &list[t] {
        Message::Conversation { id, ts, text, read_by, .. } => {
            let readers: Vec<String> = match read_by {
                Some(v) => crate::models::copy_strings(v),
                None => Vec::new(),
            };
            (id.clone(), *ts, text.clone(), readers)
        },
        _ => {
            return None;
        },
    };
    proof {
        assert(crate::text::views(readers@) =~= spec_readers(list@[t as int]));
    }
    let mut members: Vec<TurnMember> = Vec::new();
    let mut k: usize = 0;
    while k < member_ids.len()
        invariant
            k <= member_ids@.len(),
            t < list@.len(),
            from == t + 1,
            crate::text::views(readers@) == spec_readers(list@[t as int]),
            members@.len() == k,
            forall|j: int| 0 <= j < k ==> {
                let reply = spec_first_reply(list@, t + 1, self_id@, member_ids@[j]@);
                &&& (#[trigger] members@[j]).persona_id == member_ids@[j]
                &&& crate::models::opt_view(members@[j].reply_id) == reply
                &&& members@[j].state == spec_member_state(reply, spec_readers(list@[t as int]), member_ids@[j]@)
            },
        decreases member_ids@.len() - k,
    {
        let pid = &member_ids[k];
        let reply = first_reply(list, from, self_id, pid);
        let state = if reply.is_some() {
            TurnMemberState::Replied
        } else if crate::text::contains_string(&readers, pid.as_str()) {
            TurnMemberState::Read
        } else {
            TurnMemberState::Pending
        };
        members.push(TurnMember { persona_id: pid.clone(), state, reply_id: reply });
        k = k + 1;
    }
    let trigger = TurnTrigger::Message { message_id: trigger_id.clone(), persona_id: self_id.clone(), text };
    Some(Turn { id: trigger_id, group_id: String::from_str(group_id), trigger, started_at: ts, active: false, members })
}

/// The id of the newest conversation line at or before index `i` (moods and
/// notices skipped), if any.
pub open spec fn spec_last_conversation(list: Seq<Message>, n: int) -> Option<Seq<char>>
    decreases n,
{
    if n <= 0 {
        None
    } else {
        match list[n - 1] {
            Message::Conversation { id, .. } => Some(id@),
            _ => spec_last_conversation(list, n - 1),
        }
    }
}

/// The id of a log's most recent conversation line, skipping moods and system
/// notices; `None` when the group has no chat yet. Cached suggestions are
/// keyed on it: when it changes, they no longer follow the latest message.
pub fn last_conversation_id(list: &Vec<Message>) -> (r: Option<String>)
    ensures
        opt_view(r) == spec_last_conversation(list@, list@.len() as int),
{
    let mut i = list.len();
    while i > 0
        invariant
            i <= list@.len(),
            spec_last_conversation(list@, list@.len() as int) == spec_last_conversation(list@, i as int),
        decreases i,
    {
        match &list[i - 1] {
            Message::Conversation { id, .. } => {
                return Some(id.clone());
            },
            _ => {},
        }
        i = i - 1;
    }
    None
}

/// What a group's live stream carries.
#[derive(Clone, Debug)]
pub enum StreamEvent {
    /// A new message (reply or mood): the stream's default frame.
    Message(Message),
    /// A read receipt.
    Read(ReadReceipt),
    /// The coordinator started (`true`) or finished (`false`) a turn.
    Activity(bool),
    /// The current turn's snapshot.
    Turn(Turn),
    /// A trace of one agent inference, for the debug panel.
    Debug(AgentTrace),
    /// Freshly generated conversation suggestions.
    Suggestions(GroupSuggestions),
}

/// The frame name a stream event is sent under; `None` for the default
/// (`message`) frame.
pub open spec fn spec_frame_name(e: StreamEvent) -> Option<Seq<char>> {
    match e {
        StreamEvent::Message(_) => None,
        StreamEvent::Read(_) => Some("read"@),
        StreamEvent::Activity(_) => Some("activity"@),
        StreamEvent::Turn(_) => Some("turn"@),
        StreamEvent::Debug(_) => Some("debug"@),
        StreamEvent::Suggestions(_) => Some("suggestions"@),
    }
}

/// The frame name of a stream event, matching the listeners a client holds.
pub fn frame_name(e: &StreamEvent) -> (r: Option<&'static str>)
    ensures
        match r {
            Some(n) => spec_frame_name(*e) == Some(n@),
            None => spec_frame_name(*e) is None,
        },
{
    match e {
        StreamEvent::Message(_) => None,
        StreamEvent::Read(_) => Some("read"),
        StreamEvent::Activity(_) => Some("activity"),
        StreamEvent::Turn(_) => Some("turn"),
        StreamEvent::Debug(_) => Some("debug"),
        StreamEvent::Suggestions(_) => Some("suggestions"),
    }
}

/// A group's compressed older history: the running summary, and the id of the
/// last conversation line folded into it (`None` while nothing is).
#[derive(Clone, Debug)]
pub struct GroupSummary {
    pub text: String,
    pub through_id: Option<String>,
}

impl GroupSummary {
    /// Nothing compressed yet.
    pub fn empty() -> (r: GroupSummary)
        ensures
            r.text@.len() == 0,
            r.through_id is None,
    {
        GroupSummary { text: String::new(), through_id: None }
    }
}

/// A seeded line as plain values: who, what (the text, or the mood), and its
/// note (moods only).
pub open spec fn seed_view(m: Message) -> (bool, Seq<char>, Seq<char>, Option<Seq<char>>) {
    match m {
        Message::Conversation { persona_id, text, .. } => (true, persona_id@, text@, None),
        Message::Mood { persona_id, mood, note, .. } => (false, persona_id@, mood@, opt_view(note)),
        Message::System { persona_id, reason, .. } => (false, persona_id@, reason@, None),
    }
}

/// The opening history of a fresh backend, so it shows content at once: the
/// lounge with a relaxed Aria greeting and Nox approving, and the lab with a
/// focused Nox. Ids are drawn from `seq` upwards, stamped `now`.
pub fn seed_messages(now: i64, seq: u64) -> (r: Vec<(String, Vec<Message>)>)
    requires
        seq <= u64::MAX - 4,
    ensures
        r@.len() == 2,
        r@[0].0@ == "lounge"@,
        r@[0].1@.len() == 3,
        seed_view(r@[0].1@[0]) == (false, "aria"@, "\u{1f60c} relaxed"@, Some("settling into the lounge"@)),
        seed_view(r@[0].1@[1]) == (true, "aria"@,
            "Welcome to AgoraLume! Ask us anything \u{2014} Nox and Sol are here too."@, None::<Seq<char>>),
        seed_view(r@[0].1@[2]) == (true, "nox"@, "A multi-persona group chat. Efficient. I approve."@, None::<Seq<char>>),
        r@[1].0@ == "lab"@,
        r@[1].1@.len() == 1,
        seed_view(r@[1].1@[0]) == (false, "nox"@, "\u{1f914} focused"@, None::<Seq<char>>),
        forall|g: int, k: int| 0 <= g < 2 && 0 <= k < r@[g].1@.len() ==> {
            &&& spec_message_ts(#[trigger] r@[g].1@[k]) == now
            &&& spec_message_id(r@[g].1@[k])@ == crate::models::spec_next_id(now as int, (seq + (if g == 0 { k } else { 3 })) as nat)
            &&& crate::models::spec_message_group(r@[g].1@[k])@ == r@[g].0@
        },
{
    let lounge = vec![
        Message::mood(
            String::from_str("lounge"),
            String::from_str("aria"),
            String::from_str("\u{1f60c} relaxed"),
            Some(String::from_str("settling into the lounge")),
            crate::models::next_id(now, seq),
            now,
        ),
        Message::conversation(
            String::from_str("lounge"),
            String::from_str("aria"),
            String::from_str("Welcome to AgoraLume! Ask us anything \u{2014} Nox and Sol are here too."),
            None,
            crate::models::next_id(now, seq + 1),
            now,
        ),
        Message::conversation(
            String::from_str("lounge"),
            String::from_str("nox"),
            String::from_str("A multi-persona group chat. Efficient. I approve."),
            None,
            crate::models::next_id(now, seq + 2),
            now,
        ),
    ];
    let lab = vec![
        Message::mood(
            String::from_str("lab"),
            String::from_str("nox"),
            String::from_str("\u{1f914} focused"),
            None,
            crate::models::next_id(now, seq + 3),
            now,
        ),
    ];
    vec![(String::from_str("lounge"), lounge), (String::from_str("lab"), lab)]
}

} // verus!
