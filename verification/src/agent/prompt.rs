//! Prompt assembly: the persona, its inherited variables, the room's roster,
//! the wider directory, the clean transcript and the injected events, each in
//! its own XML-tagged section.

use vstd::prelude::*;
use vstd::string::*;

use crate::agent::brain::{AgentPersona, AgentPrompt, MemberInfo};
use crate::models::{opt_view, Message, Persona, Variables};
use crate::text::{
    decimal_signed, lex_lt, spec_decimal, spec_decimal_signed, spec_digit, spec_lex_lt,
    chars_of, is_blank, push_char, spec_ascii_lower_seq, spec_is_blank, spec_trim, to_ascii_lower,
    trim,
};
use crate::workspace::RosterMember;

verus! {

/// One line of the Context Stream: who said it, what, and when.
#[derive(Clone, Debug)]
pub struct ContextLine {
    pub name: String,
    pub text: String,
    pub ts: i64,
}

/// The XML escape of one character.
pub open spec fn spec_escape_char(c: char) -> Seq<char> {
    if c == '&' {
        "&amp;"@
    } else if c == '<' {
        "&lt;"@
    } else if c == '>' {
        "&gt;"@
    } else if c == '"' {
        "&quot;"@
    } else {
        seq![c]
    }
}

/// A text with `&`, `<`, `>` and `"` replaced by their XML entities.
pub open spec fn spec_xml_escape(s: Seq<char>) -> Seq<char>
    decreases s.len(),
{
    if s.len() == 0 {
        Seq::empty()
    } else {
        spec_xml_escape(s.drop_last()) + spec_escape_char(s.last())
    }
}

/// Minimal XML escaping, so a name or message can't break out of its element.
pub fn xml_escape(s: &str) -> (r: String)
    ensures
        r@ == spec_xml_escape(s@),
{
    let cs = chars_of(s);
    let mut out = String::new();
    let mut i: usize = 0;
    while i < cs.len()
        invariant
            cs@ == s@,
            i <= cs@.len(),
            out@ == spec_xml_escape(cs@.subrange(0, i as int)),
        decreases cs@.len() - i,
    {
        let c = cs[i];
        if c == '&' {
            out.append("&amp;");
        } else if c == '<' {
            out.append("&lt;");
        } else if c == '>' {
            out.append("&gt;");
        } else if c == '"' {
            out.append("&quot;");
        } else {
            push_char(&mut out, c);
            assert(out@ =~= spec_xml_escape(cs@.subrange(0, i as int)) + seq![c]);
        }
        i = i + 1;
        assert(cs@.subrange(0, i as int).drop_last() =~= cs@.subrange(0, i - 1));
    }
    assert(cs@.subrange(0, cs@.len() as int) =~= cs@);
    out
}

/// The marker that flags the human in a member list.
pub open spec fn spec_marker(is_user: bool) -> Seq<char> {
    if is_user {
        " (the user)"@
    } else {
        Seq::empty()
    }
}

/// A blurb counts when present and not blank; it is shown trimmed.
pub open spec fn spec_shown_blurb(blurb: Option<Seq<char>>) -> Option<Seq<char>> {
    match blurb {
        Some(b) => if spec_is_blank(b) {
            None
        } else {
            Some(spec_trim(b))
        },
        None => None,
    }
}

/// One `- Name (marker): blurb` bullet, without the blurb clause when there is
/// none.
pub open spec fn spec_member_line(name: Seq<char>, is_user: bool, blurb: Option<Seq<char>>) -> Seq<char> {
    match spec_shown_blurb(blurb) {
        Some(b) => "- "@ + name + spec_marker(is_user) + ": "@ + b + "\n"@,
        None => "- "@ + name + spec_marker(is_user) + "\n"@,
    }
}

/// Appends one member bullet.
pub fn write_member_line(out: &mut String, name: &str, is_user: bool, blurb: Option<&str>)
    ensures
        final(out)@ == old(out)@ + spec_member_line(
            name@,
            is_user,
            match blurb {
                Some(b) => Some(b@),
                None => None,
            },
        ),
{
    proof {
        reveal_strlit("");
        assert(""@ =~= Seq::<char>::empty());
    }
    let shown: Option<String> = match blurb {
        Some(b) => if is_blank(b) {
            None
        } else {
            Some(trim(b))
        },
        None => None,
    };
    out.append("- ");
    out.append(name);
    if is_user {
        out.append(" (the user)");
    } else {
        out.append("");
    }
    match shown {
        Some(b) => {
            out.append(": ");
            out.append(b.as_str());
            out.append("\n");
        },
        None => {
            out.append("\n");
        },
    }
}

/// The bullets of a room roster, in order.
pub open spec fn spec_roster_lines(roster: Seq<RosterMember>) -> Seq<char>
    decreases roster.len(),
{
    if roster.len() == 0 {
        Seq::empty()
    } else {
        spec_roster_lines(roster.drop_last()) + spec_member_line(
            roster.last().name@,
            roster.last().is_self,
            opt_view(roster.last().blurb),
        )
    }
}

/// The bullets of directory entries, in order.
pub open spec fn spec_directory_lines(members: Seq<MemberInfo>) -> Seq<char>
    decreases members.len(),
{
    if members.len() == 0 {
        Seq::empty()
    } else {
        spec_directory_lines(members.drop_last()) + spec_member_line(
            members.last().name@,
            members.last().is_user,
            opt_view(members.last().blurb),
        )
    }
}

/// A name as matched against the roster: trimmed and ASCII-lowercased.
pub open spec fn spec_name_key(name: Seq<char>) -> Seq<char> {
    spec_ascii_lower_seq(spec_trim(name))
}

/// Whether someone of this name is already in the room.
pub open spec fn spec_present(roster: Seq<RosterMember>, name: Seq<char>) -> bool {
    exists|i: int| 0 <= i < roster.len() && spec_name_key(#[trigger] roster[i].name@) == spec_name_key(name)
}

/// The directory entries not already listed in the roster, in order.
pub open spec fn spec_others(directory: Seq<MemberInfo>, roster: Seq<RosterMember>) -> Seq<MemberInfo>
    decreases directory.len(),
{
    if directory.len() == 0 {
        Seq::empty()
    } else if spec_present(roster, directory.last().name@) {
        spec_others(directory.drop_last(), roster)
    } else {
        spec_others(directory.drop_last(), roster).push(directory.last())
    }
}

/// Inserts a pair into a key-sorted list, before the first larger key.
pub open spec fn spec_insert_sorted(sorted: Seq<(String, String)>, kv: (String, String)) -> Seq<(String, String)>
    decreases sorted.len(),
{
    if sorted.len() == 0 {
        seq![kv]
    } else if spec_lex_lt(sorted[0].0@, kv.0@) {
        seq![sorted[0]] + spec_insert_sorted(sorted.drop_first(), kv)
    } else {
        seq![kv] + sorted
    }
}

/// The variables sorted by key (insertion order for equal keys).
pub open spec fn spec_sort_vars(vars: Seq<(String, String)>) -> Seq<(String, String)>
    decreases vars.len(),
{
    if vars.len() == 0 {
        Seq::empty()
    } else {
        spec_insert_sorted(spec_sort_vars(vars.drop_last()), vars.last())
    }
}

fn insert_sorted(sorted: &mut Vec<(String, String)>, kv: (String, String))
    ensures
        final(sorted)@ == spec_insert_sorted(old(sorted)@, kv),
{
    let mut pos: usize = 0;
    assert(sorted@.subrange(0, sorted@.len() as int) =~= sorted@);
    assert(sorted@.subrange(0, 0) + sorted@ =~= sorted@);
    assert(sorted@.subrange(0, 0) + spec_insert_sorted(sorted@, kv) =~= spec_insert_sorted(sorted@, kv));
    while pos < sorted.len() && lex_lt(sorted[pos].0.as_str(), kv.0.as_str())
        invariant
            pos <= sorted@.len(),
            sorted@ == old(sorted)@,
            spec_insert_sorted(sorted@, kv) == sorted@.subrange(0, pos as int) + spec_insert_sorted(sorted@.subrange(pos as int, sorted@.len() as int), kv),
        decreases sorted@.len() - pos,
    {
        let ghost rest = sorted@.subrange(pos as int, sorted@.len() as int);
        assert(rest[0] == sorted@[pos as int]);
        assert(rest.drop_first() =~= sorted@.subrange(pos + 1, sorted@.len() as int));
        assert(sorted@.subrange(0, pos + 1) =~= sorted@.subrange(0, pos as int) + seq![rest[0]]);
        pos = pos + 1;
    }
    proof {
        let rest = sorted@.subrange(pos as int, sorted@.len() as int);
        assert(sorted@.subrange(0, 0) + spec_insert_sorted(sorted@.subrange(0, sorted@.len() as int), kv) =~= spec_insert_sorted(sorted@, kv)) by {
            assert(sorted@.subrange(0, sorted@.len() as int) =~= sorted@);
        }
        if pos < sorted@.len() {
            assert(rest[0] == sorted@[pos as int]);
        }
    }
    sorted.insert(pos, kv);
    proof {
        let old_s = old(sorted)@;
        let rest = old_s.subrange(pos as int, old_s.len() as int);
        assert(spec_insert_sorted(rest, kv) == seq![kv] + rest);
        assert(sorted@ =~= old_s.subrange(0, pos as int) + (seq![kv] + rest));
    }
}

fn clone_pair(kv: &(String, String)) -> (r: (String, String))
    ensures
        r == *kv,
{
    (kv.0.clone(), kv.1.clone())
}

/// The variables sorted by key, for a stable, reproducible prompt.
pub fn sort_vars(vars: &Variables) -> (r: Variables)
    ensures
        r@ == spec_sort_vars(vars@),
{
    let mut out: Vec<(String, String)> = Vec::new();
    let mut i: usize = 0;
    while i < vars.len()
        invariant
            i <= vars@.len(),
            out@ == spec_sort_vars(vars@.subrange(0, i as int)),
        decreases vars@.len() - i,
    {
        let kv = clone_pair(&vars[i]);
        insert_sorted(&mut out, kv);
        i = i + 1;
        assert(vars@.subrange(0, i as int).drop_last() =~= vars@.subrange(0, i - 1));
    }
    assert(vars@.subrange(0, vars@.len() as int) =~= vars@);
    out
}

/// `- key: value` bullets for the sorted variables.
pub open spec fn spec_var_lines(vars: Seq<(String, String)>) -> Seq<char>
    decreases vars.len(),
{
    if vars.len() == 0 {
        Seq::empty()
    } else {
        spec_var_lines(vars.drop_last()) + "- "@ + vars.last().0@ + ": "@ + vars.last().1@ + "\n"@
    }
}

/// The system section: persona, context variables, group members, and the
/// directory of everyone else.
pub open spec fn spec_system(
    persona: AgentPersona,
    roster: Seq<RosterMember>,
    directory: Seq<MemberInfo>,
) -> Seq<char> {
    let p = if persona.system_prompt@.len() == 0 {
        Seq::empty()
    } else {
        "<persona>\n"@ + spec_trim(persona.system_prompt@) + "\n</persona>\n"@
    };
    let c = if persona.variables@.len() == 0 {
        Seq::empty()
    } else {
        "\n<context>\n"@ + spec_var_lines(spec_sort_vars(persona.variables@)) + "</context>\n"@
    };
    let g = if roster.len() == 0 {
        Seq::empty()
    } else {
        "\n<group_members>\n"@ + spec_roster_lines(roster) + "</group_members>\n"@
    };
    let others = spec_others(directory, roster);
    let d = if others.len() == 0 {
        Seq::empty()
    } else {
        "\n<directory>\n"@ + spec_directory_lines(others) + "</directory>\n"@
    };
    p + c + g + d
}

/// One transcript element with its sender and send time.
pub open spec fn spec_message_line(line: ContextLine, time: Seq<char>) -> Seq<char> {
    "<message from=\""@ + spec_xml_escape(line.name@) + "\" time=\""@ + time + "\">"@
        + spec_xml_escape(line.text@) + "</message>\n"@
}

/// The transcript elements, each with its rendered time.
pub open spec fn spec_message_lines(lines: Seq<ContextLine>, times: Seq<Seq<char>>) -> Seq<char>
    decreases lines.len(),
{
    if lines.len() == 0 {
        Seq::empty()
    } else {
        spec_message_lines(lines.drop_last(), times) + spec_message_line(
            lines.last(),
            times[lines.len() - 1],
        )
    }
}

/// `- event` bullets.
pub open spec fn spec_event_lines(events: Seq<String>) -> Seq<char>
    decreases events.len(),
{
    if events.len() == 0 {
        Seq::empty()
    } else {
        spec_event_lines(events.drop_last()) + "- "@ + events.last()@ + "\n"@
    }
}

/// The conversation section: the current time, the transcript, and the
/// environment events.
pub open spec fn spec_conversation(
    lines: Seq<ContextLine>,
    times: Seq<Seq<char>>,
    events: Seq<String>,
    now: Seq<char>,
) -> Seq<char> {
    let t = if now.len() == 0 {
        Seq::empty()
    } else {
        "<time>\n"@ + now + "\n</time>\n\n"@
    };
    let e = if events.len() == 0 {
        Seq::empty()
    } else {
        "\n<environment>\n"@ + spec_event_lines(events) + "</environment>\n"@
    };
    t + "<conversation>\n"@ + spec_message_lines(lines, times) + "</conversation>\n"@ + e
}

/// The last spoken line, if any.
pub open spec fn spec_last_text(lines: Seq<ContextLine>) -> Option<Seq<char>> {
    if lines.len() == 0 {
        None
    } else {
        Some(lines.last().text@)
    }
}

/// The last line a prompt carries is the newest transcript line: none for an
/// empty transcript, and whatever line was added last.
pub proof fn lemma_last_line_is_the_newest(lines: Seq<ContextLine>, line: ContextLine)
    ensures
        spec_last_text(Seq::<ContextLine>::empty()) is None,
        spec_last_text(lines.push(line)) == Some(line.text@),
        lines.len() > 0 ==> spec_last_text(lines) == Some(lines[lines.len() - 1].text@),
{
    assert(lines.push(line).last() == line);
}

fn empty_literal()
    ensures
        ""@ == Seq::<char>::empty(),
{
    proof {
        reveal_strlit("");
        assert(""@ =~= Seq::<char>::empty());
    }
}

fn roster_present(roster: &Vec<RosterMember>, name: &str) -> (r: bool)
    ensures
        r == spec_present(roster@, name@),
{
    let key = to_ascii_lower(trim(name).as_str());
    let mut i: usize = 0;
    while i < roster.len()
        invariant
            i <= roster@.len(),
            key@ == spec_name_key(name@),
            forall|k: int| 0 <= k < i ==> spec_name_key(#[trigger] roster@[k].name@) != spec_name_key(name@),
        decreases roster@.len() - i,
    {
        let other = to_ascii_lower(trim(roster[i].name.as_str()).as_str());
        if other == key {
            return true;
        }
        i = i + 1;
    }
    false
}

/// Builds the system section.
#[verifier::rlimit(100)]
#[verifier::spinoff_prover]
fn build_system(persona: &AgentPersona, roster: &Vec<RosterMember>, directory: &Vec<MemberInfo>) -> (r: String)
    ensures
        r@ == spec_system(*persona, roster@, directory@),
{
    empty_literal();
    let mut system = String::new();
    if persona.system_prompt.unicode_len() > 0 {
        system.append("<persona>\n");
        let t = trim(persona.system_prompt.as_str());
        system.append(t.as_str());
        system.append("\n</persona>\n");
    }
    let ghost after_p = system@;
    if persona.variables.len() > 0 {
        let vars = sort_vars(&persona.variables);
        system.append("\n<context>\n");
        let ghost base = system@;
        let mut i: usize = 0;
        while i < vars.len()
            invariant
                i <= vars@.len(),
                system@ == base + spec_var_lines(vars@.subrange(0, i as int)),
            decreases vars@.len() - i,
        {
            system.append("- ");
            system.append(vars[i].0.as_str());
            system.append(": ");
            system.append(vars[i].1.as_str());
            system.append("\n");
            i = i + 1;
            assert(vars@.subrange(0, i as int).drop_last() =~= vars@.subrange(0, i - 1));
            assert(system@ =~= base + spec_var_lines(vars@.subrange(0, i as int)));
        }
        assert(vars@.subrange(0, vars@.len() as int) =~= vars@);
        system.append("</context>\n");
    }
    let ghost after_c = system@;
    if roster.len() > 0 {
        system.append("\n<group_members>\n");
        let ghost base = system@;
        let mut i: usize = 0;
        while i < roster.len()
            invariant
                i <= roster@.len(),
                system@ == base + spec_roster_lines(roster@.subrange(0, i as int)),
            decreases roster@.len() - i,
        {
            let m = &roster[i];
            let blurb: Option<&str> = match &m.blurb {
                Some(b) => Some(b.as_str()),
                None => None,
            };
            write_member_line(&mut system, m.name.as_str(), m.is_self, blurb);
            i = i + 1;
            assert(roster@.subrange(0, i as int).drop_last() =~= roster@.subrange(0, i - 1));
            assert(system@ =~= base + spec_roster_lines(roster@.subrange(0, i as int)));
        }
        assert(roster@.subrange(0, roster@.len() as int) =~= roster@);
        system.append("</group_members>\n");
    }
    let ghost after_g = system@;
    let mut others: Vec<&MemberInfo> = Vec::new();
    let mut i: usize = 0;
    while i < directory.len()
        invariant
            i <= directory@.len(),
            others@.len() == spec_others(directory@.subrange(0, i as int), roster@).len(),
            forall|k: int| 0 <= k < others@.len() ==> *others@[k] == #[trigger] spec_others(directory@.subrange(0, i as int), roster@)[k],
        decreases directory@.len() - i,
    {
        assert(directory@.subrange(0, i + 1).drop_last() =~= directory@.subrange(0, i as int));
        if !roster_present(roster, directory[i].name.as_str()) {
            others.push(&directory[i]);
        }
        i = i + 1;
    }
    assert(directory@.subrange(0, directory@.len() as int) =~= directory@);
    let ghost others_spec = spec_others(directory@, roster@);
    if others.len() > 0 {
        system.append("\n<directory>\n");
        let ghost base = system@;
        let mut k: usize = 0;
        while k < others.len()
            invariant
                k <= others@.len(),
                others@.len() == others_spec.len(),
                forall|j: int| 0 <= j < others@.len() ==> *others@[j] == #[trigger] others_spec[j],
                system@ == base + spec_directory_lines(others_spec.subrange(0, k as int)),
            decreases others@.len() - k,
        {
            let m = others[k];
            let blurb: Option<&str> = match &m.blurb {
                Some(b) => Some(b.as_str()),
                None => None,
            };
            write_member_line(&mut system, m.name.as_str(), m.is_user, blurb);
            k = k + 1;
            assert(others_spec.subrange(0, k as int).drop_last() =~= others_spec.subrange(0, k - 1));
            assert(system@ =~= base + spec_directory_lines(others_spec.subrange(0, k as int)));
        }
        assert(others_spec.subrange(0, others_spec.len() as int) =~= others_spec);
        system.append("</directory>\n");
    }
    assert(system@ =~= spec_system(*persona, roster@, directory@));
    system
}

/// Builds the conversation section from the transcript and its rendered times.
fn build_conversation(lines: &Vec<ContextLine>, times: &Vec<String>, events: &Vec<String>, now: &str) -> (r: String)
    requires
        times@.len() == lines@.len(),
    ensures
        r@ == spec_conversation(lines@, crate::text::views(times@), events@, now@),
{
    empty_literal();
    let ghost tv = crate::text::views(times@);
    let mut conversation = String::new();
    if now.unicode_len() > 0 {
        conversation.append("<time>\n");
        conversation.append(now);
        conversation.append("\n</time>\n\n");
    }
    conversation.append("<conversation>\n");
    let ghost base = conversation@;
    let mut i: usize = 0;
    while i < lines.len()
        invariant
            i <= lines@.len(),
            times@.len() == lines@.len(),
            tv == crate::text::views(times@),
            conversation@ == base + spec_message_lines(lines@.subrange(0, i as int), tv),
        decreases lines@.len() - i,
    {
        conversation.append("<message from=\"");
        let n = xml_escape(lines[i].name.as_str());
        conversation.append(n.as_str());
        conversation.append("\" time=\"");
        conversation.append(times[i].as_str());
        conversation.append("\">");
        let t = xml_escape(lines[i].text.as_str());
        conversation.append(t.as_str());
        conversation.append("</message>\n");
        i = i + 1;
        assert(lines@.subrange(0, i as int).drop_last() =~= lines@.subrange(0, i - 1));
        assert(tv[i - 1] == times@[i - 1]@);
        assert(conversation@ =~= base + spec_message_lines(lines@.subrange(0, i as int), tv));
    }
    assert(lines@.subrange(0, lines@.len() as int) =~= lines@);
    conversation.append("</conversation>\n");
    if events.len() > 0 {
        conversation.append("\n<environment>\n");
        let ghost base2 = conversation@;
        let mut k: usize = 0;
        while k < events.len()
            invariant
                k <= events@.len(),
                conversation@ == base2 + spec_event_lines(events@.subrange(0, k as int)),
            decreases events@.len() - k,
        {
            conversation.append("- ");
            conversation.append(events[k].as_str());
            conversation.append("\n");
            k = k + 1;
            assert(events@.subrange(0, k as int).drop_last() =~= events@.subrange(0, k - 1));
            assert(conversation@ =~= base2 + spec_event_lines(events@.subrange(0, k as int)));
        }
        assert(events@.subrange(0, events@.len() as int) =~= events@);
        conversation.append("</environment>\n");
    }
    assert(conversation@ =~= spec_conversation(lines@, tv, events@, now@));
    conversation
}

/// Renders the persona, clean transcript and injected events into a prompt,
/// given each transcript line's rendered send time.
pub fn assemble_prompt_at(
    persona: &AgentPersona,
    roster: &Vec<RosterMember>,
    directory: &Vec<MemberInfo>,
    transcript: &Vec<ContextLine>,
    times: &Vec<String>,
    events: &Vec<String>,
    now: &str,
) -> (p: AgentPrompt)
    requires
        times@.len() == transcript@.len(),
    ensures
        p.system@ == spec_system(*persona, roster@, directory@),
        p.conversation@ == spec_conversation(transcript@, crate::text::views(times@), events@, now@),
        p.persona_name == persona.name,
        opt_view(p.last_line) == spec_last_text(transcript@),
        p.recallable_memories@.len() == 0,
{
    let system = build_system(persona, roster, directory);
    let conversation = build_conversation(transcript, times, events, now);
    let last_line = if transcript.len() > 0 {
        Some(transcript[transcript.len() - 1].text.clone())
    } else {
        None
    };
    AgentPrompt {
        system,
        conversation,
        persona_name: persona.name.clone(),
        last_line,
        recallable_memories: Vec::new(),
    }
}

/// The earliest send time, in milliseconds from the epoch, shown as local
/// time: one day after the start of chrono's range (1 January of year
/// -262,143), so that no local offset (always under a day) leaves it.
pub const LOCAL_TS_MIN_MS: i64 = -8_334_601_142_400_000;

/// The latest send time shown as local time: one day before the end of
/// chrono's range (the last millisecond of year 262,142).
pub const LOCAL_TS_MAX_MS: i64 = 8_210_266_790_399_999;

/// Whether `y` is a leap year of the proleptic Gregorian calendar.
pub open spec fn spec_leap_year(y: int) -> bool {
    y % 4 == 0 && (y % 100 != 0 || y % 400 == 0)
}

/// The number of days in month `m` (1 to 12) of year `y`.
pub open spec fn spec_days_in_month(y: int, m: int) -> int {
    if m == 2 {
        if spec_leap_year(y) { 29 } else { 28 }
    } else if m == 4 || m == 6 || m == 9 || m == 11 {
        30
    } else {
        31
    }
}

/// Days from 1970-01-01 to the proleptic Gregorian date `y`-`m`-`d`
/// (negative before it).
pub open spec fn spec_days_from_civil(y: int, m: int, d: int) -> int {
    let y2 = if m <= 2 { y - 1 } else { y };
    let era = y2 / 400;
    let yoe = y2 - era * 400;
    let mp = if m > 2 { m - 3 } else { m + 9 };
    let doy = (153 * mp + 2) / 5 + d - 1;
    let doe = yoe * 365 + yoe / 4 - yoe / 100 + doy;
    era * 146097 + doe - 719468
}

/// `n` in decimal, zero-padded on the left to at least four digits.
pub open spec fn spec_pad4(n: nat) -> Seq<char> {
    let t = spec_decimal(n);
    if t.len() < 4 {
        Seq::new((4 - t.len()) as nat, |i: int| '0') + t
    } else {
        t
    }
}

/// `n < 100` as exactly two decimal digits.
pub open spec fn spec_two_digits(n: int) -> Seq<char> {
    seq![spec_digit((n / 10) as nat), spec_digit((n % 10) as nat)]
}

/// A year as RFC 3339 writes it: four digits from 0 to 9999, otherwise an
/// explicit sign and at least four digits.
pub open spec fn spec_year_text(y: int) -> Seq<char> {
    if 0 <= y <= 9999 {
        spec_pad4(y as nat)
    } else if y < 0 {
        seq!['-'] + spec_pad4((-y) as nat)
    } else {
        seq!['+'] + spec_pad4(y as nat)
    }
}

/// The text `YYYY-MM-DDTHH:MM:SS±HH:MM` of a local date, time and offset.
pub open spec fn spec_rfc3339_text(
    y: int,
    mo: int,
    d: int,
    h: int,
    mi: int,
    sec: int,
    behind: bool,
    oh: int,
    om: int,
) -> Seq<char> {
    spec_year_text(y) + seq!['-'] + spec_two_digits(mo) + seq!['-'] + spec_two_digits(d) + seq!['T']
        + spec_two_digits(h) + seq![':'] + spec_two_digits(mi) + seq![':'] + spec_two_digits(sec) + seq![
        if behind { '-' } else { '+' },
    ] + spec_two_digits(oh) + seq![':'] + spec_two_digits(om)
}

/// Whether `t` is an RFC 3339 local rendering, to whole seconds, of the
/// instant `ts` milliseconds after the epoch: a valid date and time with an
/// offset in hours and minutes, such that the time less the offset is the
/// instant cut to whole seconds, up to the 30 seconds by which an offset
/// with a seconds part is rounded to whole minutes.
pub open spec fn spec_rfc3339_of(t: Seq<char>, ts: int) -> bool {
    exists|y: int, mo: int, d: int, h: int, mi: int, sec: int, behind: bool, oh: int, om: int|
        #![trigger spec_rfc3339_text(y, mo, d, h, mi, sec, behind, oh, om)]
        {
            &&& 1 <= mo <= 12
            &&& 1 <= d <= spec_days_in_month(y, mo)
            &&& 0 <= h < 24
            &&& 0 <= mi < 60
            &&& 0 <= sec < 60
            &&& 0 <= oh < 100
            &&& 0 <= om < 60
            &&& t == spec_rfc3339_text(y, mo, d, h, mi, sec, behind, oh, om)
            &&& {
                let local = spec_days_from_civil(y, mo, d) * 86400 + h * 3600 + mi * 60 + sec;
                let offset = if behind { -(oh * 3600 + om * 60) } else { oh * 3600 + om * 60 };
                -30 <= local - offset - ts / 1000 <= 30
            }
        }
}

/// The send-time text of a message stamped `ts`: its local RFC 3339 form
/// between [`LOCAL_TS_MIN_MS`] and [`LOCAL_TS_MAX_MS`], its raw millis in
/// decimal beyond.
pub open spec fn spec_send_time(t: Seq<char>, ts: i64) -> bool {
    if LOCAL_TS_MIN_MS <= ts <= LOCAL_TS_MAX_MS {
        spec_rfc3339_of(t, ts as int)
    } else {
        t == spec_decimal_signed(ts as int)
    }
}

/// An epoch-millisecond time in the server's local RFC 3339 form, to whole
/// seconds with the offset in hours and minutes
/// (`chrono::TimeZone::timestamp_millis_opt` on `Local`, then
/// `to_rfc3339_opts(Secs, false)`). Inside the bound the timestamp is in
/// chrono's range, so `timestamp_millis_opt` gives a single instant, and the
/// offset cannot push the local time out of range, where `to_rfc3339_opts`
/// would panic. Which offset the machine's time zone gives is not stated;
/// `to_rfc3339_opts` rounds an offset with seconds to whole minutes.
#[verifier::external_body]
fn local_rfc3339(ts: i64) -> (r: Option<String>)
    requires
        LOCAL_TS_MIN_MS <= ts <= LOCAL_TS_MAX_MS,
    ensures
        match r {
            Some(t) => spec_rfc3339_of(t@, ts as int),
            None => false,
        },
{
    match chrono::TimeZone::timestamp_millis_opt(&chrono::Local, ts) {
        chrono::LocalResult::Single(dt) => Some(dt.to_rfc3339_opts(chrono::SecondsFormat::Secs, false)),
        _ => None,
    }
}

/// An epoch-millisecond send time in the server's local RFC 3339 form, or
/// the raw millis in decimal outside [`LOCAL_TS_MIN_MS`]..=[`LOCAL_TS_MAX_MS`].
pub fn format_ts(ts: i64) -> (r: String)
    ensures
        spec_send_time(r@, ts),
        !(LOCAL_TS_MIN_MS <= ts <= LOCAL_TS_MAX_MS) ==> r@ == spec_decimal_signed(ts as int),
{
    if LOCAL_TS_MIN_MS <= ts && ts <= LOCAL_TS_MAX_MS {
        match local_rfc3339(ts) {
            Some(text) => text,
            None => decimal_signed(ts),
        }
    } else {
        decimal_signed(ts)
    }
}

/// The current local time as RFC 3339 with the server's offset (chrono's
/// `Local::now`). Depends on the clock and time zone.
#[verifier::external_body]
pub fn local_now() -> (r: String) {
    chrono::Local::now().to_rfc3339_opts(chrono::SecondsFormat::Secs, false)
}

/// Renders the persona, clean transcript and injected events into the
/// prompt a brain consumes, stamping each message with its local send time.
/// `now` is an RFC 3339 timestamp (empty to omit the `<time>` section).
pub fn assemble_prompt(
    persona: &AgentPersona,
    roster: &Vec<RosterMember>,
    directory: &Vec<MemberInfo>,
    transcript: &Vec<ContextLine>,
    events: &Vec<String>,
    now: &str,
) -> (p: AgentPrompt)
    ensures
        p.system@ == spec_system(*persona, roster@, directory@),
        exists|times: Seq<Seq<char>>|
            times.len() == transcript@.len() && (forall|k: int|
                0 <= k < times.len() ==> spec_send_time(#[trigger] times[k], transcript@[k].ts))
                && p.conversation@ == #[trigger] spec_conversation(transcript@, times, events@, now@),
        p.persona_name == persona.name,
        opt_view(p.last_line) == spec_last_text(transcript@),
        p.recallable_memories@.len() == 0,
{
    let mut times: Vec<String> = Vec::new();
    let mut i: usize = 0;
    while i < transcript.len()
        invariant
            i <= transcript@.len(),
            times@.len() == i,
            forall|k: int| 0 <= k < i ==> spec_send_time(#[trigger] times@[k]@, transcript@[k].ts),
        decreases transcript@.len() - i,
    {
        times.push(format_ts(transcript[i].ts));
        i = i + 1;
    }
    let p = assemble_prompt_at(persona, roster, directory, transcript, &times, events, now);
    let ghost tv = crate::text::views(times@);
    assert(tv.len() == transcript@.len());
    assert forall|k: int| 0 <= k < tv.len() implies spec_send_time(#[trigger] tv[k], transcript@[k].ts) by {
        assert(tv[k] == times@[k]@);
    }
    p
}

/// The persona name a transcript shows for an author: its name, or the raw
/// id when the persona is gone.
pub open spec fn spec_author_name(personas: Seq<Persona>, id: String) -> Seq<char>
    decreases personas.len(),
{
    if personas.len() == 0 {
        id@
    } else if personas[0].id@ == id@ {
        personas[0].name@
    } else {
        spec_author_name(personas.drop_first(), id)
    }
}

fn author_name(personas: &Vec<Persona>, id: &String) -> (r: String)
    ensures
        r@ == spec_author_name(personas@, *id),
{
    let mut i: usize = 0;
    assert(personas@.subrange(0, personas@.len() as int) =~= personas@);
    while i < personas.len()
        invariant
            i <= personas@.len(),
            spec_author_name(personas@, *id) == spec_author_name(personas@.subrange(i as int, personas@.len() as int), *id),
        decreases personas@.len() - i,
    {
        assert(personas@.subrange(i as int, personas@.len() as int)[0] == personas@[i as int]);
        assert(personas@.subrange(i as int, personas@.len() as int).drop_first() =~= personas@.subrange(i + 1, personas@.len() as int));
        if personas[i].id == *id {
            return personas[i].name.clone();
        }
        i = i + 1;
    }
    id.clone()
}

/// The spoken lines of a log, with author names — moods and system notices
/// never enter it.
pub open spec fn spec_spoken(messages: Seq<Message>) -> Seq<(String, String, i64)>
    decreases messages.len(),
{
    if messages.len() == 0 {
        Seq::empty()
    } else {
        let rest = spec_spoken(messages.drop_last());
        match messages.last() {
            Message::Conversation { persona_id, text, ts, .. } => rest.push((persona_id, text, ts)),
            _ => rest,
        }
    }
}

/// Builds the Context Stream for a group's log: the spoken lines only, in
/// order, each named by its author's persona name (or id when unknown).
pub fn build_transcript(messages: &Vec<Message>, personas: &Vec<Persona>) -> (r: Vec<ContextLine>)
    ensures
        r@.len() == spec_spoken(messages@).len(),
        forall|k: int|
            0 <= k < r@.len() ==> {
                let (pid, text, ts) = spec_spoken(messages@)[k];
                &&& (#[trigger] r@[k]).text == text
                &&& r@[k].ts == ts
                &&& r@[k].name@ == spec_author_name(personas@, pid)
            },
{
    let mut out: Vec<ContextLine> = Vec::new();
    let mut i: usize = 0;
    while i < messages.len()
        invariant
            i <= messages@.len(),
            out@.len() == spec_spoken(messages@.subrange(0, i as int)).len(),
            forall|k: int|
                0 <= k < out@.len() ==> {
                    let (pid, text, ts) = spec_spoken(messages@.subrange(0, i as int))[k];
                    &&& (#[trigger] out@[k]).text == text
                    &&& out@[k].ts == ts
                    &&& out@[k].name@ == spec_author_name(personas@, pid)
                },
        decreases messages@.len() - i,
    {
        assert(messages@.subrange(0, i + 1).drop_last() =~= messages@.subrange(0, i as int));
        match &messages[i] {
            Message::Conversation { persona_id, text, ts, .. } => {
                let name = author_name(personas, persona_id);
                out.push(ContextLine { name, text: text.clone(), ts: *ts });
            },
            _ => {},
        }
        i = i + 1;
    }
    assert(messages@.subrange(0, messages@.len() as int) =~= messages@);
    out
}

/// Moods never enter the transcript: a log that gains a mood or a system
/// notice yields the same Context Stream as before.
pub proof fn lemma_moods_never_enter_transcript(messages: Seq<Message>, m: Message)
    requires
        !(m is Conversation),
    ensures
        spec_spoken(messages.push(m)) == spec_spoken(messages),
{
    assert(messages.push(m).drop_last() =~= messages);
}

/// Resolves a persona into the identity + variables a brain needs.
pub fn build_persona(persona: &Persona, variables: Variables) -> (r: AgentPersona)
    ensures
        r.name == persona.name,
        r.system_prompt@ == match persona.system_prompt {
            Some(p) => p@,
            None => Seq::empty(),
        },
        r.variables == variables,
{
    let system_prompt = match &persona.system_prompt {
        Some(p) => p.clone(),
        None => String::new(),
    };
    AgentPersona { name: persona.name.clone(), system_prompt, variables }
}

/// Every persona in the workspace, as the member directory.
pub fn build_directory(personas: &Vec<Persona>) -> (r: Vec<MemberInfo>)
    ensures
        r@.len() == personas@.len(),
        forall|k: int|
            0 <= k < r@.len() ==> (#[trigger] r@[k]).name == personas@[k].name && r@[k].blurb
                == personas@[k].blurb && r@[k].is_user == (personas@[k].kind
                == crate::models::PersonaKind::User),
{
    let mut out: Vec<MemberInfo> = Vec::new();
    let mut i: usize = 0;
    while i < personas.len()
        invariant
            i <= personas@.len(),
            out@.len() == i,
            forall|k: int|
                0 <= k < i ==> (#[trigger] out@[k]).name == personas@[k].name && out@[k].blurb
                    == personas@[k].blurb && out@[k].is_user == (personas@[k].kind
                    == crate::models::PersonaKind::User),
        decreases personas@.len() - i,
    {
        let p = &personas[i];
        let blurb = match &p.blurb {
            Some(b) => Some(b.clone()),
            None => None,
        };
        out.push(MemberInfo { name: p.name.clone(), blurb, is_user: p.kind == crate::models::PersonaKind::User });
        i = i + 1;
    }
    out
}

} // verus!
