//! What an LLM-backed brain sends a model besides the persona's own prompt:
//! the standing instructions for a decision, a summary and a suggestion pass,
//! the XML-tagged inputs of the latter two, and the clean-up of the
//! suggestions that come back.

use vstd::prelude::*;
use vstd::string::*;

use crate::agent::brain::{MemberInfo, SuggestionRequest, SummaryRequest};
use crate::agent::output::{looks_repetitive, spec_looks_repetitive};
use crate::agent::prompt::{spec_directory_lines, write_member_line};
use crate::models::opt_view;
use crate::text::{decimal, spec_decimal, spec_trim, trim, views};

verus! {

/// How the agent is told to use the `respond` schema and the context it has,
/// appended after the persona's own prompt (character first, mechanics second).
pub const GUIDANCE: &'static str = "\
You are one participant in a group text chat. The context above is given in \
XML-tagged sections: <persona> and <context> are you; <group_members> lists who \
is in this room; <directory> lists other members of the workspace you may refer \
to by their exact, globally-unique name (with their short bio) even though they \
are not here. The message below may open with a <summary> of earlier \
conversation that has scrolled out of view — treat it as established background — \
then carries the live <conversation>, then any <environment> events, and ends \
with the current <time> (with timezone). Inside \
<conversation>, each line is a <message from=\"NAME\" time=\"TIMESTAMP\">…</message> \
element: `from` is the speaker and `time` is when they sent it (same timezone as \
<time>), so you can judge what is recent and what is stale. Decide your single next \
action using the response schema. Speak only when you have something worth \
adding; otherwise choose `read` to stay silent. Moods are UI-only flavour and \
are never shown to other participants as text. Keep any reply to one short chat \
message.";

/// Appended to every decision preamble, since the `remember` tool is always
/// offered.
pub const REMEMBER_GUIDANCE: &'static str = "\
You have a remember tool that saves a durable fact about this conversation for \
your future self as this character. Use it sparingly, only for something worth \
recalling in a later conversation (a stated preference, a commitment, a lasting \
detail) — not passing chit-chat. Never mention the tool itself to the group.";

/// Appended only when a `recall_memory` tool is registered too, so a persona
/// with no memories is never told about a tool it lacks.
pub const RECALL_GUIDANCE: &'static str = "\
You also have a recall_memory tool holding things you have remembered as this \
character. Use it only when recalling a saved detail would actually change your \
reply — most turns need no lookup. Never mention the tool itself to the group.";

/// How the model is told to compress older history into running notes.
pub const SUMMARY_GUIDANCE: &'static str = "\
You maintain a running summary of an ongoing group chat so its older history can \
be dropped from context without losing what matters. You are given the summary \
so far (if any) inside <summary_so_far>, then the next batch of older messages \
inside <older_messages>. Produce ONE updated summary that folds the new batch \
into the prior one. Preserve durable facts: decisions made, commitments, \
participants and their stated views, open questions, and anything a later reply \
would need to stay consistent. Drop greetings, filler, and resolved small talk. \
Write compact plain notes (short bullet points or a few short paragraphs), in \
the conversation's own language — not a message addressed to anyone. Output only \
the summary.";

/// How the model is told to propose openers the user could send.
pub const SUGGEST_GUIDANCE: &'static str = "\
You help a user who isn't sure what to say next in a group text chat. You are \
given who is in the room in <group_members> (the human is marked \"(the user)\"), \
an optional <summary> of earlier talk, the recent <conversation>, the user's \
language in <language>, and the current <time> with a coarse part of day. \
Propose a few short messages THE USER could send next to start or revive the \
conversation. Rules: write in the first person AS the user (not as any AI \
member); keep each to one short, natural sentence that can be sent verbatim; fit \
the part of day (never ask about the evening in the morning, or vice versa); and \
prefer variety — a question, a fresh topic, a follow-up on what was just said. \
Write them in the user's language when <language> is given, otherwise match the \
conversation's language. Output only the response schema.";

/// Output-token ceiling for one suggestion pass.
pub const SUGGEST_MAX_TOKENS: u64 = 300;

/// The most suggestions kept, however many the model returns.
pub const SUGGEST_MAX_ITEMS: usize = 6;

/// The model-call budget of one decision: remember, recall, and the call that
/// carries the decision.
pub const MEMORY_MAX_TURNS: usize = 3;

/// A decision's preamble: the trimmed persona prompt, the guidance, the
/// remember note, and the recall note when there is something to recall.
pub open spec fn spec_decision_preamble(system: Seq<char>, has_recall: bool) -> Seq<char> {
    let base = spec_trim(system) + "\n\n"@ + GUIDANCE@ + "\n\n"@ + REMEMBER_GUIDANCE@;
    if has_recall {
        base + "\n\n"@ + RECALL_GUIDANCE@
    } else {
        base
    }
}

/// Builds a decision's preamble.
pub fn decision_preamble(system: &str, has_recall: bool) -> (r: String)
    ensures
        r@ == spec_decision_preamble(system@, has_recall),
{
    let mut r = trim(system);
    r.append("\n\n");
    r.append(GUIDANCE);
    r.append("\n\n");
    r.append(REMEMBER_GUIDANCE);
    if has_recall {
        r.append("\n\n");
        r.append(RECALL_GUIDANCE);
    }
    r
}

/// The text of a decision attempt: the conversation, followed by the
/// corrective note when the previous answer was rejected.
pub open spec fn spec_attempt_text(conversation: Seq<char>, correction: Option<Seq<char>>) -> Seq<char> {
    match correction {
        Some(hint) => conversation + "\n\n<retry_note>"@ + hint + "</retry_note>"@,
        None => conversation,
    }
}

/// Builds the text of a decision attempt.
pub fn attempt_text(conversation: &str, correction: Option<&str>) -> (r: String)
    ensures
        r@ == spec_attempt_text(conversation@, match correction {
            Some(h) => Some(h@),
            None => None,
        }),
{
    let mut r = String::from_str(conversation);
    if let Some(hint) = correction {
        r.append("\n\n<retry_note>");
        r.append(hint);
        r.append("</retry_note>");
    }
    r
}

/// Lines, each followed by a newline.
pub open spec fn spec_lines(lines: Seq<Seq<char>>) -> Seq<char>
    decreases lines.len(),
{
    if lines.len() == 0 {
        Seq::empty()
    } else {
        spec_lines(lines.drop_last()) + lines.last() + "\n"@
    }
}

fn append_lines(out: &mut String, lines: &Vec<String>)
    ensures
        final(out)@ == old(out)@ + spec_lines(views(lines@)),
{
    let ghost start = out@;
    let mut i: usize = 0;
    while i < lines.len()
        invariant
            i <= lines@.len(),
            out@ == start + spec_lines(views(lines@).subrange(0, i as int)),
        decreases lines@.len() - i,
    {
        assert(views(lines@).subrange(0, i + 1).drop_last() =~= views(lines@).subrange(0, i as int));
        out.append(lines[i].as_str());
        out.append("\n");
        i = i + 1;
    }
    assert(views(lines@).subrange(0, lines@.len() as int) =~= views(lines@));
}

/// Text that counts: present and not blank, trimmed.
pub open spec fn spec_present_text(s: Option<Seq<char>>) -> Option<Seq<char>> {
    match s {
        Some(t) => if spec_trim(t).len() == 0 {
            None
        } else {
            Some(spec_trim(t))
        },
        None => None,
    }
}

fn present_text(s: &Option<String>) -> (r: Option<String>)
    ensures
        opt_view(r) == spec_present_text(opt_view(*s)),
{
    match s {
        Some(t) => {
            let x = trim(t.as_str());
            if x.unicode_len() == 0 {
                None
            } else {
                Some(x)
            }
        },
        None => None,
    }
}

/// A compression pass's input: the prior summary (when there is one) framed
/// as `<summary_so_far>`, then the batch of older lines in `<older_messages>`.
pub open spec fn spec_summary_input(prior: Option<Seq<char>>, lines: Seq<Seq<char>>) -> Seq<char> {
    let head = match spec_present_text(prior) {
        Some(p) => "<summary_so_far>\n"@ + p + "\n</summary_so_far>\n\n"@,
        None => Seq::empty(),
    };
    head + "<older_messages>\n"@ + spec_lines(lines) + "</older_messages>"@
}

/// Builds a compression pass's input.
pub fn summary_input(request: &SummaryRequest) -> (r: String)
    ensures
        r@ == spec_summary_input(opt_view(request.prior), views(request.lines@)),
{
    let mut r = String::new();
    match present_text(&request.prior) {
        Some(p) => {
            r.append("<summary_so_far>\n");
            r.append(p.as_str());
            r.append("\n</summary_so_far>\n\n");
        },
        None => {},
    }
    r.append("<older_messages>\n");
    append_lines(&mut r, &request.lines);
    r.append("</older_messages>");
    r
}

/// A suggestion pass's input: each section that carries something — the room's
/// members, the summary, the recent lines, the language — then the time and
/// the number of suggestions asked for (at least one).
pub open spec fn spec_suggestion_input(
    members: Seq<MemberInfo>,
    summary: Option<Seq<char>>,
    recent: Seq<Seq<char>>,
    language: Option<Seq<char>>,
    now: Seq<char>,
    time_of_day: Seq<char>,
    min_count: usize,
) -> Seq<char> {
    let m = if members.len() == 0 {
        Seq::empty()
    } else {
        "<group_members>\n"@ + spec_directory_lines(members) + "</group_members>\n\n"@
    };
    let s = match spec_present_text(summary) {
        Some(t) => "<summary>\n"@ + t + "\n</summary>\n\n"@,
        None => Seq::empty(),
    };
    let c = if recent.len() == 0 {
        Seq::empty()
    } else {
        "<conversation>\n"@ + spec_lines(recent) + "</conversation>\n\n"@
    };
    let l = match spec_present_text(language) {
        Some(t) => "<language>"@ + t + "</language>\n\n"@,
        None => Seq::empty(),
    };
    let count: nat = if min_count >= 1 { min_count as nat } else { 1 };
    m + s + c + l + "<time>\n"@ + now + " ("@ + time_of_day + ")\n</time>\n\n"@ + "Suggest at least "@
        + spec_decimal(count) + " messages."@
}

fn append_members(out: &mut String, members: &Vec<MemberInfo>)
    ensures
        final(out)@ == old(out)@ + spec_directory_lines(members@),
{
    let ghost start = out@;
    let mut i: usize = 0;
    while i < members.len()
        invariant
            i <= members@.len(),
            out@ == start + spec_directory_lines(members@.subrange(0, i as int)),
        decreases members@.len() - i,
    {
        assert(members@.subrange(0, i + 1).drop_last() =~= members@.subrange(0, i as int));
        let m = &members[i];
        let blurb: Option<&str> = match &m.blurb {
            Some(b) => Some(b.as_str()),
            None => None,
        };
        write_member_line(out, m.name.as_str(), m.is_user, blurb);
        i = i + 1;
    }
    assert(members@.subrange(0, members@.len() as int) =~= members@);
}

/// Builds a suggestion pass's input.
#[verifier::spinoff_prover]
#[verifier::rlimit(40)]
pub fn suggestion_input(request: &SuggestionRequest) -> (r: String)
    ensures
        r@ == spec_suggestion_input(
            request.members@,
            opt_view(request.summary),
            views(request.recent@),
            opt_view(request.language),
            request.now@,
            request.time_of_day@,
            request.min_count,
        ),
{
    let mut r = String::new();
    if request.members.len() > 0 {
        r.append("<group_members>\n");
        append_members(&mut r, &request.members);
        r.append("</group_members>\n\n");
    }
    match present_text(&request.summary) {
        Some(t) => {
            r.append("<summary>\n");
            r.append(t.as_str());
            r.append("\n</summary>\n\n");
        },
        None => {},
    }
    if request.recent.len() > 0 {
        r.append("<conversation>\n");
        append_lines(&mut r, &request.recent);
        r.append("</conversation>\n\n");
    }
    match present_text(&request.language) {
        Some(t) => {
            r.append("<language>");
            r.append(t.as_str());
            r.append("</language>\n\n");
        },
        None => {},
    }
    r.append("<time>\n");
    r.append(request.now.as_str());
    r.append(" (");
    r.append(request.time_of_day.as_str());
    r.append(")\n</time>\n\n");
    r.append("Suggest at least ");
    let count: u64 = if request.min_count >= 1 { request.min_count as u64 } else { 1 };
    let d = decimal(count);
    r.append(d.as_str());
    r.append(" messages.");
    r
}

/// The suggestions kept from what a model proposed: each trimmed, the blank
/// and runaway-repetitive ones dropped, duplicates dropped, in order, and at
/// most [`SUGGEST_MAX_ITEMS`].
pub open spec fn spec_select(lines: Seq<Seq<char>>) -> Seq<Seq<char>>
    decreases lines.len(),
{
    if lines.len() == 0 {
        Seq::empty()
    } else {
        let kept = spec_select(lines.drop_last());
        let t = spec_trim(lines.last());
        if kept.len() >= SUGGEST_MAX_ITEMS || t.len() == 0 || spec_looks_repetitive(t) || kept.contains(t) {
            kept
        } else {
            kept.push(t)
        }
    }
}

/// Cleans up a model's proposed suggestions.
pub fn select_suggestions(lines: &Vec<String>) -> (r: Vec<String>)
    ensures
        views(r@) == spec_select(views(lines@)),
{
    let mut out: Vec<String> = Vec::new();
    let mut i: usize = 0;
    while i < lines.len()
        invariant
            i <= lines@.len(),
            views(out@) == spec_select(views(lines@).subrange(0, i as int)),
            out@.len() <= SUGGEST_MAX_ITEMS,
        decreases lines@.len() - i,
    {
        assert(views(lines@).subrange(0, i + 1).drop_last() =~= views(lines@).subrange(0, i as int));
        if out.len() < SUGGEST_MAX_ITEMS {
            let t = trim(lines[i].as_str());
            if t.unicode_len() > 0 && !looks_repetitive(t.as_str()) && !crate::text::contains_string(&out, t.as_str()) {
                out.push(t);
                assert(views(out@) =~= spec_select(views(lines@).subrange(0, i as int)).push(spec_trim(lines@[i as int]@)));
            }
        }
        i = i + 1;
    }
    assert(views(lines@).subrange(0, lines@.len() as int) =~= views(lines@));
    out
}

/// What is kept is a short list of distinct, non-blank openers.
pub proof fn lemma_selected_are_clean(lines: Seq<Seq<char>>)
    ensures
        spec_select(lines).len() <= SUGGEST_MAX_ITEMS,
        forall|i: int| 0 <= i < spec_select(lines).len() ==> #[trigger] spec_select(lines)[i].len() > 0,
        forall|i: int, j: int|
            0 <= i < j < spec_select(lines).len() ==> spec_select(lines)[i] != spec_select(lines)[j],
    decreases lines.len(),
{
    if lines.len() > 0 {
        lemma_selected_are_clean(lines.drop_last());
        let kept = spec_select(lines.drop_last());
        let t = spec_trim(lines.last());
        if !(kept.len() >= SUGGEST_MAX_ITEMS || t.len() == 0 || spec_looks_repetitive(t) || kept.contains(t)) {
            assert forall|i: int, j: int| 0 <= i < j < kept.push(t).len() implies kept.push(t)[i] != kept.push(t)[j] by {
                if j == kept.len() {
                    assert(kept[i] == kept.push(t)[i]);
                    if kept[i] == t {
                        assert(kept.contains(t));
                    }
                }
            }
        }
    }
}

} // verus!
