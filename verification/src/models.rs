//! The shared data types: personas and the buckets they sit in, groups,
//! memories, chat messages, turns, and token usage — plus the identity hash
//! that versions a persona's prompt.

use sha2::Digest;
use vstd::prelude::*;
use vstd::string::*;
use vstd::utf8::*;

use crate::text::{decimal, decimal_signed, push_char, spec_decimal, spec_decimal_signed, spec_trim, trim};

verus! {

/// Template variables as ordered `(key, value)` pairs, keys distinct.
pub type Variables = Vec<(String, String)>;

/// The two persona roles: a user's own identity vs. an AI agent.
#[derive(Clone, Copy, Debug, PartialEq, Eq, Structural)]
pub enum PersonaKind {
    User,
    Ai,
}

/// A bucket for classifying personas that also carries shared template
/// variables its members inherit.
#[derive(Clone, Debug)]
pub struct Organization {
    pub id: String,
    pub name: String,
    pub color: Option<String>,
    pub blurb: Option<String>,
    pub variables: Option<Variables>,
}

/// A sub-unit inside an organization; its variables sit between the org's and
/// the persona's in the inheritance chain.
#[derive(Clone, Debug)]
pub struct Department {
    pub id: String,
    pub organization_id: String,
    pub name: String,
    pub color: Option<String>,
    pub blurb: Option<String>,
    pub variables: Option<Variables>,
}

/// A user identity or an AI agent.
#[derive(Clone, Debug)]
pub struct Persona {
    pub id: String,
    pub name: String,
    pub kind: PersonaKind,
    pub color: String,
    pub avatar_url: Option<String>,
    pub emoji: Option<String>,
    pub gradient: Option<String>,
    pub blurb: Option<String>,
    pub organization_id: Option<String>,
    pub department_id: Option<String>,
    pub system_prompt: Option<String>,
    pub variables: Option<Variables>,
    /// Content hash of the raw `system_prompt` — the persona's identity
    /// version. Always recomputed by the server, never taken from input.
    pub prompt_hash: Option<String>,
}

/// An organization as plain values.
pub struct OrganizationView {
    pub id: Seq<char>,
    pub name: Seq<char>,
    pub color: Option<Seq<char>>,
    pub blurb: Option<Seq<char>>,
    pub variables: Option<Seq<(Seq<char>, Seq<char>)>>,
}

impl View for Organization {
    type V = OrganizationView;

    open spec fn view(&self) -> OrganizationView {
        OrganizationView {
            id: self.id@,
            name: self.name@,
            color: opt_view(self.color),
            blurb: opt_view(self.blurb),
            variables: self.variables.deep_view(),
        }
    }
}

impl DeepView for Organization {
    type V = OrganizationView;

    open spec fn deep_view(&self) -> OrganizationView {
        self@
    }
}

/// A department as plain values.
pub struct DepartmentView {
    pub id: Seq<char>,
    pub organization_id: Seq<char>,
    pub name: Seq<char>,
    pub color: Option<Seq<char>>,
    pub blurb: Option<Seq<char>>,
    pub variables: Option<Seq<(Seq<char>, Seq<char>)>>,
}

impl View for Department {
    type V = DepartmentView;

    open spec fn view(&self) -> DepartmentView {
        DepartmentView {
            id: self.id@,
            organization_id: self.organization_id@,
            name: self.name@,
            color: opt_view(self.color),
            blurb: opt_view(self.blurb),
            variables: self.variables.deep_view(),
        }
    }
}

impl DeepView for Department {
    type V = DepartmentView;

    open spec fn deep_view(&self) -> DepartmentView {
        self@
    }
}

/// A persona as plain values.
pub struct PersonaView {
    pub id: Seq<char>,
    pub name: Seq<char>,
    pub kind: PersonaKind,
    pub color: Seq<char>,
    pub avatar_url: Option<Seq<char>>,
    pub emoji: Option<Seq<char>>,
    pub gradient: Option<Seq<char>>,
    pub blurb: Option<Seq<char>>,
    pub organization_id: Option<Seq<char>>,
    pub department_id: Option<Seq<char>>,
    pub system_prompt: Option<Seq<char>>,
    pub variables: Option<Seq<(Seq<char>, Seq<char>)>>,
    pub prompt_hash: Option<Seq<char>>,
}

impl View for Persona {
    type V = PersonaView;

    open spec fn view(&self) -> PersonaView {
        PersonaView {
            id: self.id@,
            name: self.name@,
            kind: self.kind,
            color: self.color@,
            avatar_url: opt_view(self.avatar_url),
            emoji: opt_view(self.emoji),
            gradient: opt_view(self.gradient),
            blurb: opt_view(self.blurb),
            organization_id: opt_view(self.organization_id),
            department_id: opt_view(self.department_id),
            system_prompt: opt_view(self.system_prompt),
            variables: self.variables.deep_view(),
            prompt_hash: opt_view(self.prompt_hash),
        }
    }
}

impl DeepView for Persona {
    type V = PersonaView;

    open spec fn deep_view(&self) -> PersonaView {
        self@
    }
}

/// A copy of an optional string.
pub fn copy_opt_string(s: &Option<String>) -> (r: Option<String>)
    ensures
        r == *s,
{
    match s {
        Some(t) => Some(t.clone()),
        None => None,
    }
}

/// A copy of a list of strings.
pub fn copy_strings(v: &Vec<String>) -> (r: Vec<String>)
    ensures
        r@ == v@,
{
    let mut out: Vec<String> = Vec::new();
    let mut i: usize = 0;
    while i < v.len()
        invariant
            i <= v@.len(),
            out@ == v@.subrange(0, i as int),
        decreases v@.len() - i,
    {
        out.push(v[i].clone());
        i = i + 1;
    }
    assert(v@.subrange(0, v@.len() as int) =~= v@);
    out
}

/// A copy of a variable list.
pub fn copy_vars(v: &Variables) -> (r: Variables)
    ensures
        r@ == v@,
{
    let mut out: Variables = Vec::new();
    let mut i: usize = 0;
    while i < v.len()
        invariant
            i <= v@.len(),
            out@ == v@.subrange(0, i as int),
        decreases v@.len() - i,
    {
        out.push((v[i].0.clone(), v[i].1.clone()));
        i = i + 1;
    }
    assert(v@.subrange(0, v@.len() as int) =~= v@);
    out
}

/// A copy of an optional variable list.
pub fn copy_opt_vars(v: &Option<Variables>) -> (r: Option<Variables>)
    ensures
        r.deep_view() == v.deep_view(),
        r is Some <==> v is Some,
        r is Some ==> r->0@ == v->0@,
{
    match v {
        Some(vars) => {
            let c = copy_vars(vars);
            assert(c.deep_view() =~= vars.deep_view());
            Some(c)
        },
        None => None,
    }
}

impl Organization {
    /// A field-by-field copy.
    pub fn copy(&self) -> (r: Organization)
        ensures
            r@ == self@,
    {
        Organization {
            id: self.id.clone(),
            name: self.name.clone(),
            color: copy_opt_string(&self.color),
            blurb: copy_opt_string(&self.blurb),
            variables: copy_opt_vars(&self.variables),
        }
    }
}

impl Department {
    /// A field-by-field copy.
    pub fn copy(&self) -> (r: Department)
        ensures
            r@ == self@,
    {
        Department {
            id: self.id.clone(),
            organization_id: self.organization_id.clone(),
            name: self.name.clone(),
            color: copy_opt_string(&self.color),
            blurb: copy_opt_string(&self.blurb),
            variables: copy_opt_vars(&self.variables),
        }
    }
}

impl Persona {
    /// A field-by-field copy.
    pub fn copy(&self) -> (r: Persona)
        ensures
            r@ == self@,
    {
        Persona {
            id: self.id.clone(),
            name: self.name.clone(),
            kind: self.kind,
            color: self.color.clone(),
            avatar_url: copy_opt_string(&self.avatar_url),
            emoji: copy_opt_string(&self.emoji),
            gradient: copy_opt_string(&self.gradient),
            blurb: copy_opt_string(&self.blurb),
            organization_id: copy_opt_string(&self.organization_id),
            department_id: copy_opt_string(&self.department_id),
            system_prompt: copy_opt_string(&self.system_prompt),
            variables: copy_opt_vars(&self.variables),
            prompt_hash: copy_opt_string(&self.prompt_hash),
        }
    }
}

/// The SHA-256 digest of a byte string (as computed by the `sha2` crate).
pub uninterp spec fn sha256_digest(data: Seq<u8>) -> Seq<u8>;

/// SHA-256 of `data`, via `sha2::Sha256::digest`.
#[verifier::external_body]
fn sha256(data: &[u8]) -> (r: Vec<u8>)
    ensures
        r@ == sha256_digest(data@),
        r@.len() == 32,
{
    sha2::Sha256::digest(data).to_vec()
}

/// The lowercase hex digit for `d < 16`.
pub open spec fn spec_hex_digit(d: nat) -> char {
    if d < 10 {
        (('0' as u32) + d) as char
    } else {
        (('a' as u32) + (d - 10)) as char
    }
}

/// Lowercase hex, two digits per byte.
pub open spec fn spec_hex(bytes: Seq<u8>) -> Seq<char>
    decreases bytes.len(),
{
    if bytes.len() == 0 {
        Seq::empty()
    } else {
        spec_hex(bytes.drop_last()).push(spec_hex_digit((bytes.last() / 16) as nat)).push(
            spec_hex_digit((bytes.last() % 16) as nat),
        )
    }
}

fn hex_digit(d: u8) -> (c: char)
    requires
        d < 16,
    ensures
        c == spec_hex_digit(d as nat),
{
    if d < 10 {
        (48u8 + d) as char
    } else {
        (97u8 + (d - 10)) as char
    }
}

/// Hex takes two characters per byte.
pub proof fn lemma_hex_len(bytes: Seq<u8>)
    ensures
        spec_hex(bytes).len() == 2 * bytes.len(),
    decreases bytes.len(),
{
    if bytes.len() > 0 {
        lemma_hex_len(bytes.drop_last());
    }
}

/// Lowercase hex encoding of `bytes`.
pub fn to_hex(bytes: &Vec<u8>) -> (r: String)
    ensures
        r@ == spec_hex(bytes@),
{
    let mut r = String::new();
    let mut i: usize = 0;
    while i < bytes.len()
        invariant
            i <= bytes@.len(),
            r@ == spec_hex(bytes@.subrange(0, i as int)),
        decreases bytes@.len() - i,
    {
        let b = bytes[i];
        push_char(&mut r, hex_digit(b / 16));
        push_char(&mut r, hex_digit(b % 16));
        i = i + 1;
        assert(bytes@.subrange(0, i as int).drop_last() =~= bytes@.subrange(0, i - 1));
    }
    assert(bytes@.subrange(0, bytes@.len() as int) =~= bytes@);
    r
}

/// The identity hash of a raw system prompt: hex SHA-256 of its trimmed UTF-8
/// text, or `None` for an absent or blank prompt.
pub open spec fn spec_prompt_hash(system_prompt: Option<Seq<char>>) -> Option<Seq<char>> {
    match system_prompt {
        None => None,
        Some(text) => if spec_trim(text).len() == 0 {
            None
        } else {
            Some(spec_hex(sha256_digest(encode_utf8(spec_trim(text)))))
        },
    }
}

/// The view of an optional string.
pub open spec fn opt_view(s: Option<String>) -> Option<Seq<char>> {
    match s {
        Some(t) => Some(t@),
        None => None,
    }
}

/// The identity hash of a raw system-prompt template: the unresolved text only,
/// so it changes exactly when the author rewrites who the character is.
/// `None` for an empty or absent prompt. Content-addressed, so pasting earlier
/// exact text back resolves to the same hash.
pub fn prompt_hash(system_prompt: Option<&str>) -> (r: Option<String>)
    ensures
        r matches Some(h) ==> h@.len() == 64,
        opt_view(r) == spec_prompt_hash(
            match system_prompt {
                Some(s) => Some(s@),
                None => None,
            },
        ),
{
    match system_prompt {
        None => None,
        Some(s) => {
            let text = trim(s);
            if text.unicode_len() == 0 {
                None
            } else {
                let digest = sha256(text.as_str().as_bytes());
                proof {
                    lemma_hex_len(digest@);
                }
                Some(to_hex(&digest))
            }
        },
    }
}

impl Persona {
    /// Recomputes the identity hash from the current `system_prompt`, so the
    /// stored hash is never trusted from client input or a stale snapshot.
    pub fn refresh_prompt_hash(&mut self)
        ensures
            opt_view(final(self).prompt_hash) == spec_prompt_hash(opt_view(old(self).system_prompt)),
            final(self).prompt_hash matches Some(h) ==> h@.len() == 64,
            final(self).id == old(self).id,
            final(self).name == old(self).name,
            final(self).kind == old(self).kind,
            final(self).system_prompt == old(self).system_prompt,
            final(self).blurb == old(self).blurb,
            final(self).organization_id == old(self).organization_id,
            final(self).department_id == old(self).department_id,
            final(self).variables == old(self).variables,
            final(self).color == old(self).color,
            final(self).avatar_url == old(self).avatar_url,
            final(self).emoji == old(self).emoji,
            final(self).gradient == old(self).gradient,
    {
        let h = match &self.system_prompt {
            Some(p) => prompt_hash(Some(p.as_str())),
            None => prompt_hash(None),
        };
        self.prompt_hash = h;
    }
}

/// A user-assigned name for a persona identity hash.
#[derive(Clone, Debug, PartialEq, Eq)]
pub struct PromptLabel {
    pub hash: String,
    pub label: String,
}

/// Request body for naming a prompt identity hash. A blank label clears it.
#[derive(Clone, Debug)]
pub struct PromptLabelInput {
    pub label: String,
}

/// One persona-scoped memory, tagged with the identity hash in force when it
/// was written.
#[derive(Clone, Debug)]
pub struct Memory {
    pub id: String,
    pub persona_id: String,
    pub prompt_hash: String,
    pub content: String,
    /// Milliseconds since the Unix epoch when the memory was written.
    pub created_at: i64,
}

/// Request body for writing a memory: just the text to remember.
#[derive(Clone, Debug)]
pub struct MemoryInput {
    pub content: String,
}

/// A chat room: the AI personas that may speak, plus the user identity that
/// represents "you" here.
#[derive(Clone, Debug)]
pub struct Group {
    pub id: String,
    pub name: String,
    pub persona_ids: Vec<String>,
    pub self_persona_id: String,
}

/// A group as plain values.
pub struct GroupView {
    pub id: Seq<char>,
    pub name: Seq<char>,
    pub persona_ids: Seq<Seq<char>>,
    pub self_persona_id: Seq<char>,
}

impl View for Group {
    type V = GroupView;

    open spec fn view(&self) -> GroupView {
        GroupView {
            id: self.id@,
            name: self.name@,
            persona_ids: self.persona_ids.deep_view(),
            self_persona_id: self.self_persona_id@,
        }
    }
}

impl DeepView for Group {
    type V = GroupView;

    open spec fn deep_view(&self) -> GroupView {
        self@
    }
}

impl Group {
    /// A field-by-field copy.
    pub fn copy(&self) -> (r: Group)
        ensures
            r@ == self@,
    {
        let ids = copy_strings(&self.persona_ids);
        assert(ids.deep_view() =~= self.persona_ids.deep_view());
        Group {
            id: self.id.clone(),
            name: self.name.clone(),
            persona_ids: ids,
            self_persona_id: self.self_persona_id.clone(),
        }
    }
}

impl Memory {
    /// A field-by-field copy.
    pub fn copy(&self) -> (r: Memory)
        ensures
            r == *self,
    {
        Memory {
            id: self.id.clone(),
            persona_id: self.persona_id.clone(),
            prompt_hash: self.prompt_hash.clone(),
            content: self.content.clone(),
            created_at: self.created_at,
        }
    }
}

impl Settings {
    /// A field-by-field copy.
    pub fn copy(&self) -> (r: Settings)
        ensures
            r == *self,
    {
        Settings {
            ui_language: self.ui_language.clone(),
            native_language: self.native_language.clone(),
            chat_font_size: self.chat_font_size,
        }
    }
}

/// Conversation-starter suggestions for a group.
#[derive(Clone, Debug)]
pub struct GroupSuggestions {
    pub prompts: Vec<String>,
    pub generated_at: i64,
    pub time_of_day: String,
    pub through_id: Option<String>,
}

/// What the running server offers.
#[derive(Clone, Debug)]
pub struct ServerMeta {
    pub mock: bool,
    pub llm: bool,
    pub persistent: bool,
    pub version: String,
}

/// User-level preferences.
#[derive(Clone, Debug)]
pub struct Settings {
    pub ui_language: String,
    pub native_language: String,
    pub chat_font_size: i32,
}

/// Milliseconds since the Unix epoch (the clock `Date.now()` gives the
/// frontend); 0 if the system clock is before the epoch.
#[verifier::external_body]
pub fn now_ms() -> (r: i64) {
    std::time::SystemTime::now().duration_since(std::time::UNIX_EPOCH).map(
        |d| d.as_millis() as i64,
    ).unwrap_or_default()
}

/// The `m<millis>-<seq>` id shape.
pub open spec fn spec_next_id(millis: int, seq: nat) -> Seq<char> {
    seq!['m'] + spec_decimal_signed(millis) + seq!['-'] + spec_decimal(seq)
}

/// An id in the `m<millis>-<seq>` shape the frontend's mock uses: the clock
/// reading plus a process-wide sequence number the caller draws, so ids stay
/// unique even within one millisecond.
pub fn next_id(millis: i64, seq: u64) -> (r: String)
    ensures
        r@ == spec_next_id(millis as int, seq as nat),
{
    let mut r = String::new();
    push_char(&mut r, 'm');
    let ms = decimal_signed(millis);
    r.append(ms.as_str());
    push_char(&mut r, '-');
    let n = decimal(seq);
    r.append(n.as_str());
    r
}

/// One chat line, tagged by kind.
#[derive(Clone, Debug)]
pub enum Message {
    /// A normal, readable message.
    Conversation {
        id: String,
        group_id: String,
        persona_id: String,
        ts: i64,
        text: String,
        streaming: Option<bool>,
        /// AI persona ids that have successfully processed (read) this message.
        read_by: Option<Vec<String>>,
    },
    /// A persona broadcasting its current mood.
    Mood { id: String, group_id: String, persona_id: String, ts: i64, mood: String, note: Option<String> },
    /// A notice that an agent's inference failed after exhausting retries.
    System {
        id: String,
        group_id: String,
        persona_id: String,
        ts: i64,
        status: Option<u16>,
        reason: String,
    },
}

/// The id of any message.
pub open spec fn spec_message_id(m: Message) -> String {
    match m {
        Message::Conversation { id, .. } => id,
        Message::Mood { id, .. } => id,
        Message::System { id, .. } => id,
    }
}

/// The group of any message.
pub open spec fn spec_message_group(m: Message) -> String {
    match m {
        Message::Conversation { group_id, .. } => group_id,
        Message::Mood { group_id, .. } => group_id,
        Message::System { group_id, .. } => group_id,
    }
}

/// The timestamp of any message.
pub open spec fn spec_message_ts(m: Message) -> i64 {
    match m {
        Message::Conversation { ts, .. } => ts,
        Message::Mood { ts, .. } => ts,
        Message::System { ts, .. } => ts,
    }
}

impl Message {
    /// A conversation line with the given id and send time.
    pub fn conversation(
        group_id: String,
        persona_id: String,
        text: String,
        read_by: Option<Vec<String>>,
        id: String,
        ts: i64,
    ) -> (m: Message)
        ensures
            m == (Message::Conversation {
                id,
                group_id,
                persona_id,
                ts,
                text,
                streaming: None,
                read_by,
            }),
    {
        Message::Conversation { id, group_id, persona_id, ts, text, streaming: None, read_by }
    }

    /// A mood line with the given id and time.
    pub fn mood(
        group_id: String,
        persona_id: String,
        mood: String,
        note: Option<String>,
        id: String,
        ts: i64,
    ) -> (m: Message)
        ensures
            m == (Message::Mood { id, group_id, persona_id, ts, mood, note }),
    {
        Message::Mood { id, group_id, persona_id, ts, mood, note }
    }

    /// A system notice for a failed agent inference.
    pub fn system(
        group_id: String,
        persona_id: String,
        status: Option<u16>,
        reason: String,
        id: String,
        ts: i64,
    ) -> (m: Message)
        ensures
            m == (Message::System { id, group_id, persona_id, ts, status, reason }),
    {
        Message::System { id, group_id, persona_id, ts, status, reason }
    }

    /// The stable id used to look a message up in a group's log.
    pub fn id(&self) -> (r: &str)
        ensures
            r@ == spec_message_id(*self)@,
    {
        match self {
            Message::Conversation { id, .. } => id.as_str(),
            Message::Mood { id, .. } => id.as_str(),
            Message::System { id, .. } => id.as_str(),
        }
    }

    /// The message's creation timestamp (epoch millis).
    pub fn ts(&self) -> (r: i64)
        ensures
            r == spec_message_ts(*self),
    {
        match self {
            Message::Conversation { ts, .. } => *ts,
            Message::Mood { ts, .. } => *ts,
            Message::System { ts, .. } => *ts,
        }
    }
}

/// A message as plain values.
pub enum MessageView {
    Conversation {
        id: Seq<char>,
        group_id: Seq<char>,
        persona_id: Seq<char>,
        ts: i64,
        text: Seq<char>,
        streaming: Option<bool>,
        read_by: Option<Seq<Seq<char>>>,
    },
    Mood {
        id: Seq<char>,
        group_id: Seq<char>,
        persona_id: Seq<char>,
        ts: i64,
        mood: Seq<char>,
        note: Option<Seq<char>>,
    },
    System {
        id: Seq<char>,
        group_id: Seq<char>,
        persona_id: Seq<char>,
        ts: i64,
        status: Option<u16>,
        reason: Seq<char>,
    },
}

impl View for Message {
    type V = MessageView;

    open spec fn view(&self) -> MessageView {
        match *self {
            Message::Conversation { id, group_id, persona_id, ts, text, streaming, read_by } => MessageView::Conversation {
                id: id@,
                group_id: group_id@,
                persona_id: persona_id@,
                ts,
                text: text@,
                streaming,
                read_by: read_by.deep_view(),
            },
            Message::Mood { id, group_id, persona_id, ts, mood, note } => MessageView::Mood {
                id: id@,
                group_id: group_id@,
                persona_id: persona_id@,
                ts,
                mood: mood@,
                note: opt_view(note),
            },
            Message::System { id, group_id, persona_id, ts, status, reason } => MessageView::System {
                id: id@,
                group_id: group_id@,
                persona_id: persona_id@,
                ts,
                status,
                reason: reason@,
            },
        }
    }
}

impl Message {
    /// A field-by-field copy.
    pub fn copy(&self) -> (r: Message)
        ensures
            r@ == self@,
            spec_message_id(r)@ == spec_message_id(*self)@,
            spec_message_ts(r) == spec_message_ts(*self),
    {
        match self {
            Message::Conversation { id, group_id, persona_id, ts, text, streaming, read_by } => {
                let rb = match read_by {
                    Some(v) => {
                        let c = copy_strings(v);
                        assert(c.deep_view() =~= v.deep_view());
                        Some(c)
                    },
                    None => None,
                };
                Message::Conversation {
                    id: id.clone(),
                    group_id: group_id.clone(),
                    persona_id: persona_id.clone(),
                    ts: *ts,
                    text: text.clone(),
                    streaming: *streaming,
                    read_by: rb,
                }
            },
            Message::Mood { id, group_id, persona_id, ts, mood, note } => Message::Mood {
                id: id.clone(),
                group_id: group_id.clone(),
                persona_id: persona_id.clone(),
                ts: *ts,
                mood: mood.clone(),
                note: copy_opt_string(note),
            },
            Message::System { id, group_id, persona_id, ts, status, reason } => Message::System {
                id: id.clone(),
                group_id: group_id.clone(),
                persona_id: persona_id.clone(),
                ts: *ts,
                status: *status,
                reason: reason.clone(),
            },
        }
    }
}

/// A single AI persona acknowledging it processed a message.
#[derive(Clone, Debug)]
pub struct ReadReceipt {
    pub group_id: String,
    pub message_id: String,
    pub persona_id: String,
}

/// How far one AI member has got in the current turn.
#[derive(Clone, Copy, Debug, PartialEq, Eq, Structural)]
pub enum TurnMemberState {
    /// Not yet processed this turn.
    Pending,
    /// Processed and chose not to speak.
    Read,
    /// Processed and spoke.
    Replied,
}

/// One AI member's progress within a turn.
#[derive(Clone, Debug)]
pub struct TurnMember {
    pub persona_id: String,
    pub state: TurnMemberState,
    /// The id of this member's first reply line this turn.
    pub reply_id: Option<String>,
}

/// What kicked off a turn.
#[derive(Clone, Debug)]
pub enum TurnTrigger {
    /// A user (or persona) message.
    Message { message_id: String, persona_id: String, text: String },
    /// An environment event; there is no message to jump to.
    Event { label: String },
}

/// A processing round: what triggered it and how far each AI member has got.
#[derive(Clone, Debug)]
pub struct Turn {
    pub id: String,
    pub group_id: String,
    pub trigger: TurnTrigger,
    pub started_at: i64,
    pub active: bool,
    pub members: Vec<TurnMember>,
}

/// Token usage for one LLM inference.
#[derive(Clone, Copy, Debug)]
pub struct TokenUsage {
    pub prompt_tokens: u64,
    pub completion_tokens: u64,
    pub total_tokens: u64,
    pub cached_prompt_tokens: u64,
}

/// A debug record of one agent inference.
#[derive(Clone, Debug)]
pub struct AgentTrace {
    pub ts: i64,
    pub group_id: String,
    pub persona_id: String,
    pub persona_name: String,
    pub system: String,
    pub conversation: String,
    pub action: String,
    pub message: Option<String>,
    pub mood: Option<String>,
    pub usage: Option<TokenUsage>,
    pub model: Option<String>,
}

/// The `POST /llm/models` request.
#[derive(Clone, Debug)]
pub struct LlmModelsQuery {
    pub base_url: String,
    pub api_key: Option<String>,
}

/// One model a provider's listing endpoint reported.
#[derive(Clone, Debug)]
pub struct LlmModelInfo {
    pub id: String,
    pub name: Option<String>,
}

/// The `POST /llm/models` response.
#[derive(Clone, Debug)]
pub struct LlmModelsView {
    pub models: Vec<LlmModelInfo>,
}

} // verus!
