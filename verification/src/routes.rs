//! The request-level rules of the HTTP surface: what a client may send before
//! it reaches the workspace or an agent, and the problem document each refusal
//! is reported as.

use vstd::prelude::*;
use vstd::string::*;

use crate::api_error::{spec_kind, ApiError};
use crate::models::{opt_view, Memory, PersonaKind};
use crate::text::{spec_trim, trim, views};
use crate::workspace::{
    first_index, group_with_id, persona_with_id, spec_persona_hash, PatchError, PersonaError,
    Workspace,
};

verus! {

/// The most lines one history page may hold, whatever the client asks for.
pub const MAX_WINDOW: usize = 500;

/// The longest message text accepted from a client, in characters.
pub const MAX_MESSAGE_CHARS: usize = 8000;

/// The longest environment-event description accepted, in characters.
pub const MAX_EVENT_CHARS: usize = 1000;

/// A refusal as plain values: status, type URN and detail line.
pub open spec fn problem(e: ApiError) -> (u16, Seq<char>, Option<Seq<char>>) {
    (e.status, e.kind@, opt_view(e.detail))
}

/// The refusal with the given status, slug and detail.
pub open spec fn refusal(status: u16, slug: Seq<char>, detail: Seq<char>) -> (u16, Seq<char>, Option<Seq<char>>) {
    (status, spec_kind(slug), Some(detail))
}

/// `prefix`, the id, and a closing quote.
pub open spec fn quoted(prefix: Seq<char>, id: Seq<char>) -> Seq<char> {
    prefix + id + "\""@
}

fn quote(prefix: &str, id: &str) -> (r: String)
    ensures
        r@ == quoted(prefix@, id@),
{
    let mut s = String::from_str(prefix);
    s.append(id);
    s.append("\"");
    s
}

/// The detail of a 404 for an unknown group.
pub open spec fn no_group(id: Seq<char>) -> Seq<char> {
    quoted("no group with id \""@, id)
}

/// The detail of an unknown persona.
pub open spec fn no_persona(id: Seq<char>) -> Seq<char> {
    quoted("no persona with id \""@, id)
}

/// The 404 for a group id the workspace does not have.
pub fn group_not_found(id: &str) -> (r: ApiError)
    ensures
        problem(r) == refusal(404, "not-found"@, no_group(id@)),
{
    ApiError::not_found(quote("no group with id \"", id))
}

/// A page size as served: at most [`MAX_WINDOW`] lines.
pub fn clamp_window(n: Option<usize>) -> (r: Option<usize>)
    ensures
        r == (match n {
            Some(k) => Some(if k <= MAX_WINDOW { k } else { MAX_WINDOW }),
            None => None,
        }),
{
    match n {
        Some(k) => Some(if k <= MAX_WINDOW { k } else { MAX_WINDOW }),
        None => None,
    }
}

/// `Ok` when the workspace has a group with this id, else its 404.
pub fn require_group(ws: &Workspace, id: &str) -> (r: Result<(), ApiError>)
    ensures
        r is Ok <==> first_index(ws.groups@, group_with_id(id@)) >= 0,
        r matches Err(e) ==> problem(e) == refusal(404, "not-found"@, no_group(id@)),
{
    match ws.turn_members(id) {
        Some(_) => Ok(()),
        None => Err(group_not_found(id)),
    }
}

/// The scope of a usage report: every group (`None`), or one group the
/// workspace has; an unknown group is a 404 rather than an empty report.
pub fn resolve_usage_scope(ws: &Workspace, group_id: Option<&str>) -> (r: Result<Option<String>, ApiError>)
    ensures
        match group_id {
            None => r == Ok::<Option<String>, ApiError>(None),
            Some(id) => {
                &&& r is Ok <==> first_index(ws.groups@, group_with_id(id@)) >= 0
                &&& r matches Ok(s) ==> s is Some && s->0@ == id@
                &&& r matches Err(e) ==> problem(e) == refusal(404, "not-found"@, no_group(id@))
            },
        },
{
    match group_id {
        None => Ok(None),
        Some(id) => match require_group(ws, id) {
            Ok(()) => Ok(Some(String::from_str(id))),
            Err(e) => Err(e),
        },
    }
}

/// What a send request becomes: the author and the trimmed text, or a refusal.
pub open spec fn send_view(r: Result<(String, String), ApiError>) -> Result<(Seq<char>, Seq<char>), (u16, Seq<char>, Option<Seq<char>>)> {
    match r {
        Ok((a, t)) => Ok((a@, t@)),
        Err(e) => Err(problem(e)),
    }
}

/// The rules a user message passes before it is stored: the group exists, the
/// trimmed text is neither blank nor over [`MAX_MESSAGE_CHARS`], and a named
/// author is a user identity (never an AI persona); with no author named, the
/// group's own "you" writes it.
pub open spec fn spec_send(ws: Workspace, group_id: Seq<char>, text: Seq<char>, persona_id: Option<Seq<char>>) -> Result<(Seq<char>, Seq<char>), (u16, Seq<char>, Option<Seq<char>>)> {
    let gi = first_index(ws.groups@, group_with_id(group_id));
    let t = spec_trim(text);
    if gi < 0 {
        Err(refusal(404, "not-found"@, no_group(group_id)))
    } else if t.len() == 0 {
        Err(refusal(422, "invalid-request"@, "message text cannot be blank"@))
    } else if t.len() > MAX_MESSAGE_CHARS {
        Err(refusal(422, "invalid-request"@, "message text is limited to 8000 characters"@))
    } else {
        match persona_id {
            None => Ok((ws.groups@[gi].self_persona_id@, t)),
            Some(p) => {
                let pi = first_index(ws.personas@, persona_with_id(p));
                if pi < 0 {
                    Err(refusal(422, "invalid-request"@, no_persona(p)))
                } else if ws.personas@[pi].kind != PersonaKind::User {
                    Err(refusal(422, "invalid-request"@,
                        "personaId must name a user identity; a message cannot be authored as an AI persona"@))
                } else {
                    Ok((p, t))
                }
            },
        }
    }
}

/// Checks a user message: its author and trimmed text, or the refusal.
pub fn validate_send(ws: &Workspace, group_id: &str, text: &str, persona_id: Option<&str>) -> (r: Result<(String, String), ApiError>)
    ensures
        send_view(r) == spec_send(*ws, group_id@, text@, match persona_id {
            Some(p) => Some(p@),
            None => None,
        }),
{
    let self_id = match ws.turn_members(group_id) {
        None => return Err(group_not_found(group_id)),
        Some((me, _)) => me,
    };
    let t = trim(text);
    let n = t.unicode_len();
    if n == 0 {
        return Err(ApiError::unprocessable(String::from_str("message text cannot be blank")));
    }
    if n > MAX_MESSAGE_CHARS {
        return Err(ApiError::unprocessable(String::from_str("message text is limited to 8000 characters")));
    }
    match persona_id {
        None => Ok((self_id, t)),
        Some(p) => match ws.persona(p) {
            None => Err(ApiError::unprocessable(quote("no persona with id \"", p))),
            Some(persona) => {
                if persona.kind == PersonaKind::User {
                    Ok((String::from_str(p), t))
                } else {
                    Err(ApiError::unprocessable(String::from_str(
                        "personaId must name a user identity; a message cannot be authored as an AI persona",
                    )))
                }
            },
        },
    }
}

/// What an environment event becomes: its trimmed description, or a refusal.
pub open spec fn event_view(r: Result<String, ApiError>) -> Result<Seq<char>, (u16, Seq<char>, Option<Seq<char>>)> {
    match r {
        Ok(t) => Ok(t@),
        Err(e) => Err(problem(e)),
    }
}

/// The rules an environment event passes: the group exists and the trimmed
/// description is neither blank nor over [`MAX_EVENT_CHARS`].
pub open spec fn spec_event(ws: Workspace, group_id: Seq<char>, description: Seq<char>) -> Result<Seq<char>, (u16, Seq<char>, Option<Seq<char>>)> {
    let t = spec_trim(description);
    if first_index(ws.groups@, group_with_id(group_id)) < 0 {
        Err(refusal(404, "not-found"@, no_group(group_id)))
    } else if t.len() == 0 {
        Err(refusal(422, "invalid-request"@, "event description cannot be blank"@))
    } else if t.len() > MAX_EVENT_CHARS {
        Err(refusal(422, "invalid-request"@, "event description is limited to 1000 characters"@))
    } else {
        Ok(t)
    }
}

/// Checks an environment event: its trimmed description, or the refusal.
pub fn validate_event(ws: &Workspace, group_id: &str, description: &str) -> (r: Result<String, ApiError>)
    ensures
        event_view(r) == spec_event(*ws, group_id@, description@),
{
    if let Err(e) = require_group(ws, group_id) {
        return Err(e);
    }
    let t = trim(description);
    let n = t.unicode_len();
    if n == 0 {
        return Err(ApiError::unprocessable(String::from_str("event description cannot be blank")));
    }
    if n > MAX_EVENT_CHARS {
        return Err(ApiError::unprocessable(String::from_str("event description is limited to 1000 characters")));
    }
    Ok(t)
}

/// The detail of a patch that merged into something of the wrong shape.
pub open spec fn misfit(resource: Seq<char>) -> Seq<char> {
    "the patch does not fit a "@ + resource
        + ": a field has the wrong JSON type, or a required field was set to null"@
}

/// How a refused organization, department or group update is reported.
pub fn patch_error(error: PatchError, resource: &str, id: &str) -> (r: ApiError)
    ensures
        problem(r) == (match error {
            PatchError::NotFound => refusal(404, "not-found"@, quoted("no "@ + resource@ + " with id \""@, id@)),
            PatchError::Invalid => refusal(422, "invalid-request"@, misfit(resource@)),
        }),
{
    match error {
        PatchError::NotFound => {
            let mut prefix = String::from_str("no ");
            prefix.append(resource);
            prefix.append(" with id \"");
            let mut s = prefix;
            s.append(id);
            s.append("\"");
            proof {
                assert(s@ =~= quoted("no "@ + resource@ + " with id \""@, id@));
            }
            ApiError::not_found(s)
        },
        PatchError::Invalid => {
            let mut s = String::from_str("the patch does not fit a ");
            s.append(resource);
            s.append(": a field has the wrong JSON type, or a required field was set to null");
            ApiError::unprocessable(s)
        },
    }
}

/// How a refused persona create or update is reported.
pub fn persona_error(error: PersonaError, id: &str) -> (r: ApiError)
    ensures
        problem(r) == (match error {
            PersonaError::NotFound => refusal(404, "not-found"@, no_persona(id@)),
            PersonaError::Invalid => refusal(422, "invalid-request"@, misfit("Persona"@)),
            PersonaError::NameTaken => refusal(409, "name-taken"@,
                "another persona already uses this name; names are globally unique"@),
            PersonaError::UserExists => refusal(409, "user-identity-exists"@,
                "there is already a user identity; a workspace has exactly one \"you\""@),
            PersonaError::LastUser => refusal(409, "last-user-identity"@,
                "refusing to turn the last user identity into an AI persona; every group needs a \"you\""@),
        }),
{
    match error {
        PersonaError::NotFound => ApiError::not_found(quote("no persona with id \"", id)),
        PersonaError::Invalid => {
            let mut s = String::from_str("the patch does not fit a ");
            s.append("Persona");
            s.append(": a field has the wrong JSON type, or a required field was set to null");
            ApiError::unprocessable(s)
        },
        PersonaError::NameTaken => ApiError::conflict(
            "name-taken",
            String::from_str("another persona already uses this name; names are globally unique"),
        ),
        PersonaError::UserExists => ApiError::conflict(
            "user-identity-exists",
            String::from_str("there is already a user identity; a workspace has exactly one \"you\""),
        ),
        PersonaError::LastUser => ApiError::conflict(
            "last-user-identity",
            String::from_str(
                "refusing to turn the last user identity into an AI persona; every group needs a \"you\"",
            ),
        ),
    }
}

/// A memory request's outcome, its refusal as plain values.
pub open spec fn memory_view(r: Result<Memory, ApiError>) -> Result<Memory, (u16, Seq<char>, Option<Seq<char>>)> {
    match r {
        Ok(m) => Ok(m),
        Err(e) => Err(problem(e)),
    }
}

/// Records a memory for a persona on a client's behalf: an unknown persona is
/// a 404; a blank content, or a persona with no prompt to scope it to, a 409.
pub fn create_memory(ws: &mut Workspace, persona_id: &str, content: &str) -> (r: Result<Memory, ApiError>)
    ensures
        ({
            let pi = first_index(old(ws).personas@, persona_with_id(persona_id@));
            let unscopable = spec_trim(content@).len() == 0
                || spec_persona_hash(old(ws).personas@, persona_id@) is None;
            &&& r is Err ==> final(ws)@ == old(ws)@
            &&& pi < 0 ==> memory_view(r) == Err::<Memory, _>(refusal(404, "not-found"@, no_persona(persona_id@)))
            &&& pi >= 0 && unscopable ==> memory_view(r) == Err::<Memory, _>(refusal(409, "memory-unscopable"@,
                    "the persona has no system prompt to scope a memory to, or the content is blank"@))
            &&& (r is Ok <==> pi >= 0 && !unscopable)
            &&& r matches Ok(m) ==> {
                &&& m.persona_id@ == persona_id@
                &&& Some(m.prompt_hash@) == spec_persona_hash(old(ws).personas@, persona_id@)
                &&& m.content@ == spec_trim(content@)
                &&& final(ws).memories@ == old(ws).memories@.push(m)
            }
        }),
{
    if ws.persona(persona_id).is_none() {
        return Err(ApiError::not_found(quote("no persona with id \"", persona_id)));
    }
    match ws.add_memory(persona_id, content) {
        None => Err(ApiError::conflict(
            "memory-unscopable",
            String::from_str("the persona has no system prompt to scope a memory to, or the content is blank"),
        )),
        Some(m) => Ok(m),
    }
}

// --- Cross-origin policy ----------------------------------------------------------

/// Whether `http` accepts a text as a header value: every character is a tab
/// or at least a space, and none is DEL (so any non-ASCII character passes).
pub open spec fn spec_header_value_ok(s: Seq<char>) -> bool {
    forall|i: int| 0 <= i < s.len() ==> (#[trigger] s[i] == '\t' || (' ' <= s[i] && s[i] != '\u{7f}'))
}

/// Whether an origin can be sent back as a header value: the rule by which
/// `http::HeaderValue::from_str` accepts a string (each byte a tab, or at
/// least 32 and not 127), stated in characters as [`spec_header_value_ok`].
fn header_value_ok(s: &str) -> (r: bool)
    ensures
        r == spec_header_value_ok(s@),
{
    let cs = crate::text::chars_of(s);
    let mut i: usize = 0;
    while i < cs.len()
        invariant
            cs@ == s@,
            i <= cs@.len(),
            forall|j: int| 0 <= j < i ==> (#[trigger] cs@[j] == '\t' || (' ' <= cs@[j] && cs@[j] != '\u{7f}')),
        decreases cs@.len() - i,
    {
        let c = cs[i];
        if !(c == '\t' || (' ' <= c && c != '\u{7f}')) {
            assert(!(s@[i as int] == '\t' || (' ' <= s@[i as int] && s@[i as int] != '\u{7f}')));
            return false;
        }
        i = i + 1;
    }
    true
}

/// Which origins may call cross-origin.
#[derive(Clone, Debug)]
pub enum OriginPolicy {
    /// Any origin.
    Any,
    /// Only these, echoed back as given.
    List(Vec<String>),
}

/// The origins of a list that are usable as header values, in order.
pub open spec fn spec_usable_origins(s: Seq<Seq<char>>) -> Seq<Seq<char>>
    decreases s.len(),
{
    if s.len() == 0 {
        Seq::empty()
    } else if spec_header_value_ok(s.last()) {
        spec_usable_origins(s.drop_last()).push(s.last())
    } else {
        spec_usable_origins(s.drop_last())
    }
}

/// The policy a configured origin list gives: any origin when nothing is
/// configured, when an entry is `*`, or when no entry is usable; otherwise
/// exactly the usable entries.
pub open spec fn spec_origin_policy(origins: Option<Seq<Seq<char>>>) -> Option<Seq<Seq<char>>> {
    match origins {
        None => None,
        Some(o) => if exists|i: int| 0 <= i < o.len() && spec_trim(#[trigger] o[i]) == "*"@ {
            None
        } else if spec_usable_origins(o).len() == 0 {
            None
        } else {
            Some(spec_usable_origins(o))
        },
    }
}

/// A policy as plain values: `None` for any origin.
pub open spec fn policy_view(p: OriginPolicy) -> Option<Seq<Seq<char>>> {
    match p {
        OriginPolicy::Any => None,
        OriginPolicy::List(v) => Some(views(v@)),
    }
}

/// The cross-origin policy for the configured origins. A `*` entry, or a list
/// none of whose entries can be a header value, falls back to any origin
/// rather than refusing every caller.
pub fn allow_origin_from(origins: Option<&Vec<String>>) -> (r: OriginPolicy)
    ensures
        policy_view(r) == spec_origin_policy(match origins {
            Some(o) => Some(views(o@)),
            None => None,
        }),
{
    let list = match origins {
        None => return OriginPolicy::Any,
        Some(o) => o,
    };
    let ghost all = views(list@);
    let mut i: usize = 0;
    while i < list.len()
        invariant
            all == views(list@),
            origins == Some(list),
            i <= list@.len(),
            forall|j: int| 0 <= j < i ==> spec_trim(#[trigger] all[j]) != "*"@,
        decreases list@.len() - i,
    {
        let t = trim(list[i].as_str());
        if t == String::from_str("*") {
            assert(all[i as int] == list@[i as int]@);
            assert(exists|j: int| 0 <= j < all.len() && spec_trim(#[trigger] all[j]) == "*"@);

            return OriginPolicy::Any;
        }
        i = i + 1;
    }
    let mut out: Vec<String> = Vec::new();
    let mut k: usize = 0;
    while k < list.len()
        invariant
            all == views(list@),
            origins == Some(list),
            k <= list@.len(),
            views(out@) == spec_usable_origins(all.subrange(0, k as int)),
        decreases list@.len() - k,
    {
        assert(all.subrange(0, k + 1).drop_last() =~= all.subrange(0, k as int));
        if header_value_ok(list[k].as_str()) {
            out.push(list[k].clone());
            assert(views(out@) =~= spec_usable_origins(all.subrange(0, k as int)).push(all[k as int]));
        }
        k = k + 1;
    }
    assert(all.subrange(0, list@.len() as int) =~= all);
    if out.len() == 0 {
        OriginPolicy::Any
    } else {
        OriginPolicy::List(out)
    }
}

} // verus!
