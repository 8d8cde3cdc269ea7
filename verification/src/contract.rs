//! The document-wide passes over the published API contract: the bearer
//! scheme every protected operation needs, the 401/403 each protected
//! operation carries, the relaxed schema every `PATCH` body points at, and
//! the problem document every error response is described as. The passes
//! work on [`ApiDocModel`], the parts of the document they read and change as
//! plain values; the server converts its generated document to and from it.

use vstd::prelude::*;
use vstd::string::*;

use crate::models::opt_view;
use crate::text::{chars_of, ends_with, spec_ends_with, string_from_range};
use crate::workspace::{find_where, first_index, lemma_first_index, lemma_first_index_is};

verus! {

/// The name the bearer scheme is registered under.
pub const BEARER_SCHEME: &'static str = "bearerAuth";

/// The media type every error body is served as.
pub const PROBLEM_JSON: &'static str = "application/problem+json";

/// The description of the 401 every protected operation carries.
pub const NOT_SIGNED_IN: &'static str = "Not signed in";

/// The description of the 403 every protected operation carries.
pub const NOT_PERMITTED: &'static str = "Not permitted for this identity";

/// The index just past the last `/` in `s[..n]`, or 0 when there is none.
pub open spec fn spec_name_start(s: Seq<char>, n: int) -> int
    decreases n,
{
    if n <= 0 {
        0
    } else if s[n - 1] == '/' {
        n
    } else {
        spec_name_start(s, n - 1)
    }
}

/// What follows the last `/` of a reference (all of it when it has none).
pub open spec fn spec_ref_name(s: Seq<char>) -> Seq<char> {
    s.subrange(spec_name_start(s, s.len() as int), s.len() as int)
}

proof fn lemma_name_start_bounds(s: Seq<char>, n: int)
    requires
        0 <= n <= s.len(),
    ensures
        0 <= spec_name_start(s, n) <= n,
    decreases n,
{
    if n > 0 && s[n - 1] != '/' {
        lemma_name_start_bounds(s, n - 1);
    }
}

/// The component name a schema reference points at.
pub fn ref_schema_name(ref_location: &str) -> (r: String)
    ensures
        r@ == spec_ref_name(ref_location@),
{
    let cs = chars_of(ref_location);
    let mut i = cs.len();
    while i > 0 && cs[i - 1] != '/'
        invariant
            cs@ == ref_location@,
            i <= cs@.len(),
            spec_name_start(cs@, cs@.len() as int) == spec_name_start(cs@, i as int),
        decreases i,
    {
        i = i - 1;
    }
    proof {
        lemma_name_start_bounds(cs@, cs@.len() as int);
    }
    string_from_range(&cs, i, cs.len())
}

/// The relaxed schema a `PATCH` body's component gets: `<name>Patch`, unless
/// the component is already shaped as a partial update (`…Patch`, `…Request`).
pub open spec fn spec_patch_schema_name(name: Seq<char>) -> Option<Seq<char>> {
    if spec_ends_with(name, "Patch"@) || spec_ends_with(name, "Request"@) {
        None
    } else {
        Some(name + "Patch"@)
    }
}

/// The relaxed schema's name for a `PATCH` body's component, if it gets one.
pub fn patch_schema_name(name: &str) -> (r: Option<String>)
    ensures
        match r {
            Some(s) => spec_patch_schema_name(name@) == Some(s@),
            None => spec_patch_schema_name(name@) is None,
        },
{
    let cs = chars_of(name);
    if ends_with(&cs, &chars_of("Patch")) || ends_with(&cs, &chars_of("Request")) {
        return None;
    }
    let mut r = String::from_str(name);
    r.append("Patch");
    Some(r)
}

/// The description of a relaxed schema.
pub open spec fn spec_patch_description(name: Seq<char>) -> Seq<char> {
    "A partial "@ + name + ": only the properties present are merged. `id` is ignored."@
}

/// Describes the relaxed schema derived from component `name`.
pub fn patch_schema_description(name: &str) -> (r: String)
    ensures
        r@ == spec_patch_description(name@),
{
    let mut r = String::from_str("A partial ");
    r.append(name);
    r.append(": only the properties present are merged. `id` is ignored.");
    r
}

/// Whether any entry holds.
pub open spec fn spec_any(s: Seq<bool>) -> bool {
    exists|i: int| 0 <= i < s.len() && #[trigger] s[i]
}

/// Whether an operation requires a token. With no requirement of its own it
/// inherits the document-wide one; an explicit list protects it when any
/// entry actually names a scheme (an empty entry is the public opt-out).
pub fn is_protected(requirements: Option<&Vec<bool>>) -> (r: bool)
    ensures
        r == match requirements {
            None => true,
            Some(named) => spec_any(named@),
        },
{
    match requirements {
        None => true,
        Some(named) => {
            let mut i: usize = 0;
            while i < named.len()
                invariant
                    requirements == Some(named),
                    i <= named@.len(),
                    forall|j: int| 0 <= j < i ==> !#[trigger] named@[j],
                decreases named@.len() - i,
            {
                if named[i] {
                    assert(named@[i as int]);
                    assert(spec_any(named@));
                    return true;
                }
                i = i + 1;
            }
            false
        },
    }
}

/// Whether a response status is a failure, which carries a problem document:
/// one starting with `4` or `5`.
pub fn is_error_status(status: &str) -> (r: bool)
    ensures
        r == (status@.len() > 0 && (status@[0] == '4' || status@[0] == '5')),
{
    if status.unicode_len() == 0 {
        return false;
    }
    let c = status.get_char(0);
    c == '4' || c == '5'
}

/// An error response's description: its own, or `Failed` when it has none.
pub fn problem_description(description: &str) -> (r: String)
    ensures
        r@ == if description@.len() == 0 {
            "Failed"@
        } else {
            description@
        },
{
    if description.unicode_len() == 0 {
        String::from_str("Failed")
    } else {
        String::from_str(description)
    }
}

// --- The document as plain values -----------------------------------------------

/// The location every error body's schema is referenced by.
pub const API_ERROR_REF: &'static str = "#/components/schemas/ApiError";

/// The description the bearer scheme is registered with.
pub const BEARER_DESCRIPTION: &'static str = "Access token from `POST /auth/login`. Opaque; does not survive a server restart. Waived when `GET /meta` reports `authRequired: false`.";

/// An operation's HTTP method.
#[derive(Clone, Copy, Debug, PartialEq, Eq, Structural)]
pub enum Method {
    Get,
    Put,
    Post,
    Delete,
    Options,
    Head,
    Patch,
    Trace,
}

/// Where a content entry's schema comes from.
#[derive(Debug)]
pub enum SchemaRef {
    /// A reference by location, such as `#/components/schemas/Group`.
    Ref(String),
    /// A schema written inline, kept in the document's own table under this key.
    Inline(u64),
}

/// A media-type entry of a body or response: its schema, and the key of the
/// rest of the entry (examples, encodings) in the document's own table,
/// `None` for an entry built here.
#[derive(Debug)]
pub struct ContentModel {
    pub schema: Option<SchemaRef>,
    pub rest: Option<u64>,
}

/// A response of an operation.
#[derive(Debug)]
pub enum ResponseModel {
    /// A reference to a shared response, kept in the document's own table.
    Ref(u64),
    /// A response written in place: its description, its media types in
    /// order, and the key of the rest (headers, links), `None` for one built
    /// here.
    Inline { description: String, contents: Vec<(String, ContentModel)>, rest: Option<u64> },
}

/// An operation: where it is, its own security requirements (each entry
/// `true` when it names a scheme, `false` for the empty opt-out), its request
/// body's media types, its responses by status, and the key of the rest.
#[derive(Debug)]
pub struct OperationModel {
    pub path: String,
    pub method: Method,
    pub security: Option<Vec<bool>>,
    pub body: Option<Vec<(String, ContentModel)>>,
    pub responses: Vec<(String, ResponseModel)>,
    pub rest: u64,
}

/// A component schema: whether it is an object schema, its required
/// properties, its description, and the key of the rest (properties, types).
#[derive(Debug)]
pub struct SchemaModel {
    pub is_object: bool,
    pub required: Vec<String>,
    pub description: Option<String>,
    pub rest: u64,
}

/// The document's components: its schemas by name, and whether the bearer
/// scheme has been registered.
#[derive(Debug)]
pub struct ComponentsModel {
    pub schemas: Vec<(String, SchemaModel)>,
    pub bearer_registered: bool,
}

/// The parts of an API document the passes read and change.
#[derive(Debug)]
pub struct ApiDocModel {
    pub operations: Vec<OperationModel>,
    pub components: Option<ComponentsModel>,
}

// --- The bearer scheme ------------------------------------------------------------

/// Registers the bearer scheme the whole API is protected by, creating the
/// components if the document has none; the schemas are kept.
pub fn register_bearer(doc: &mut ApiDocModel)
    ensures
        final(doc).operations == old(doc).operations,
        final(doc).components matches Some(c) && c.bearer_registered && match old(doc).components {
            Some(c0) => c.schemas == c0.schemas,
            None => c.schemas@.len() == 0,
        },
{
    let mut components: Option<ComponentsModel> = None;
    core::mem::swap(&mut components, &mut doc.components);
    let schemas = match components {
        Some(c) => c.schemas,
        None => Vec::new(),
    };
    doc.components = Some(ComponentsModel { schemas, bearer_registered: true });
}

// --- 401 and 403 on protected operations -------------------------------------------

/// Whether an operation requires a token, from its own requirements.
pub open spec fn spec_protected(security: Option<Vec<bool>>) -> bool {
    match security {
        None => true,
        Some(named) => spec_any(named@),
    }
}

/// Whether a response entry has status `s`.
pub open spec fn status_is(s: Seq<char>) -> spec_fn((String, ResponseModel)) -> bool {
    |e: (String, ResponseModel)| e.0@ == s
}

/// Whether a response list has an entry for status `s`.
pub open spec fn spec_has_status(rs: Seq<(String, ResponseModel)>, s: Seq<char>) -> bool {
    first_index(rs, status_is(s)) >= 0
}

/// The problem-document content entry: the `ApiError` schema by reference.
pub open spec fn spec_problem_content(c: ContentModel) -> bool {
    &&& c.rest is None
    &&& match c.schema {
        Some(SchemaRef::Ref(l)) => l@ == API_ERROR_REF@,
        _ => false,
    }
}

/// The problem-document contents of an error response: one
/// `application/problem+json` entry.
pub open spec fn spec_problem_contents(cs: Seq<(String, ContentModel)>) -> bool {
    &&& cs.len() == 1
    &&& cs[0].0@ == PROBLEM_JSON@
    &&& spec_problem_content(cs[0].1)
}

/// A problem-document response built here with description `desc`.
pub open spec fn spec_problem_response(r: ResponseModel, desc: Seq<char>) -> bool {
    match r {
        ResponseModel::Inline { description, contents, rest } => {
            &&& description@ == desc
            &&& rest is None
            &&& spec_problem_contents(contents@)
        },
        ResponseModel::Ref(_) => false,
    }
}

/// `new` is `old` with a problem response for `status` added at the end, or
/// `old` itself when it already has that status.
pub open spec fn spec_added_if_absent(
    old: Seq<(String, ResponseModel)>,
    new: Seq<(String, ResponseModel)>,
    status: Seq<char>,
    desc: Seq<char>,
) -> bool {
    if spec_has_status(old, status) {
        new == old
    } else {
        &&& new.len() == old.len() + 1
        &&& new.subrange(0, old.len() as int) == old
        &&& new.last().0@ == status
        &&& spec_problem_response(new.last().1, desc)
    }
}

/// An operation after the authentication pass: a protected one gains a 401
/// and then a 403 problem response, each unless it has one; nothing else
/// changes.
pub open spec fn spec_auth_op(old: OperationModel, new: OperationModel) -> bool {
    &&& new == OperationModel { responses: new.responses, ..old }
    &&& if spec_protected(old.security) {
        exists|mid: Seq<(String, ResponseModel)>|
            #[trigger] spec_added_if_absent(old.responses@, mid, "401"@, NOT_SIGNED_IN@)
                && spec_added_if_absent(mid, new.responses@, "403"@, NOT_PERMITTED@)
    } else {
        new.responses@ == old.responses@
    }
}

fn problem_content() -> (c: ContentModel)
    ensures
        spec_problem_content(c),
{
    ContentModel { schema: Some(SchemaRef::Ref(String::from_str(API_ERROR_REF))), rest: None }
}

fn problem_contents() -> (cs: Vec<(String, ContentModel)>)
    ensures
        spec_problem_contents(cs@),
{
    let mut cs: Vec<(String, ContentModel)> = Vec::new();
    cs.push((String::from_str(PROBLEM_JSON), problem_content()));
    cs
}

fn find_status(rs: &Vec<(String, ResponseModel)>, status: &String) -> (r: Option<usize>)
    ensures
        match r {
            Some(i) => i == first_index(rs@, status_is(status@)) && i < rs@.len(),
            None => first_index(rs@, status_is(status@)) == -1,
        },
{
    find_where(
        rs,
        (|e: &(String, ResponseModel)| -> (b: bool)
            ensures
                b == (e.0@ == status@),
            { e.0 == *status }),
        Ghost(status_is(status@)),
    )
}

fn add_if_absent(rs: &mut Vec<(String, ResponseModel)>, status: &str, desc: &str)
    ensures
        spec_added_if_absent(old(rs)@, final(rs)@, status@, desc@),
{
    let key = String::from_str(status);
    if find_status(rs, &key).is_none() {
        let r = ResponseModel::Inline { description: String::from_str(desc), contents: problem_contents(), rest: None };
        let ghost before = rs@;
        rs.push((key, r));
        assert(rs@.subrange(0, before.len() as int) =~= before);
        assert(!spec_has_status(before, status@));
    }
}

/// Adds the two authentication failures to every protected operation: a
/// 401 "Not signed in" and a 403 "Not permitted for this identity", each as a
/// problem document, unless the operation already describes that status.
pub fn add_auth_responses(doc: &mut ApiDocModel)
    ensures
        final(doc).components == old(doc).components,
        final(doc).operations@.len() == old(doc).operations@.len(),
        forall|k: int|
            0 <= k < old(doc).operations@.len() ==> spec_auth_op(
                old(doc).operations@[k],
                #[trigger] final(doc).operations@[k],
            ),
{
    let n = doc.operations.len();
    let mut k: usize = 0;
    while k < n
        invariant
            n == old(doc).operations@.len(),
            doc.operations@.len() == n,
            k <= n,
            doc.components == old(doc).components,
            forall|j: int| 0 <= j < k ==> spec_auth_op(old(doc).operations@[j], #[trigger] doc.operations@[j]),
            forall|j: int| k <= j < n ==> #[trigger] doc.operations@[j] == old(doc).operations@[j],
        decreases n - k,
    {
        let mut op = doc.operations.remove(k);
        let ghost op0 = op;
        let protected = match &op.security {
            None => true,
            Some(named) => is_protected(Some(named)),
        };
        if protected {
            add_if_absent(&mut op.responses, "401", NOT_SIGNED_IN);
            let ghost mid = op.responses@;
            add_if_absent(&mut op.responses, "403", NOT_PERMITTED);
            assert(spec_added_if_absent(op0.responses@, mid, "401"@, NOT_SIGNED_IN@));
        }
        doc.operations.insert(k, op);
        assert(spec_auth_op(op0, doc.operations@[k as int]));
        k = k + 1;
    }
}

// --- Problem documents on every error response ---------------------------------------

/// Whether a status is a failure: one starting with `4` or `5`.
pub open spec fn spec_is_error_status(s: Seq<char>) -> bool {
    s.len() > 0 && (s[0] == '4' || s[0] == '5')
}

/// A response after the problem pass: an error response written in place
/// keeps its description (or gets `Failed` when it has none) and its other
/// parts, and its media types become the one problem document; any other
/// response is unchanged.
pub open spec fn spec_problem_fixed(status: Seq<char>, old: ResponseModel, new: ResponseModel) -> bool {
    if spec_is_error_status(status) {
        match old {
            ResponseModel::Inline { description: d0, rest: r0, .. } => match new {
                ResponseModel::Inline { description: d1, contents: c1, rest: r1 } => {
                    &&& r1 == r0
                    &&& d1@ == if d0@.len() == 0 {
                        "Failed"@
                    } else {
                        d0@
                    }
                    &&& spec_problem_contents(c1@)
                },
                ResponseModel::Ref(_) => false,
            },
            ResponseModel::Ref(_) => new == old,
        }
    } else {
        new == old
    }
}

/// An operation after the problem pass: each response as
/// [`spec_problem_fixed`] says, in the same order under the same statuses.
pub open spec fn spec_problem_op(old: OperationModel, new: OperationModel) -> bool {
    &&& new == OperationModel { responses: new.responses, ..old }
    &&& new.responses@.len() == old.responses@.len()
    &&& forall|i: int|
        0 <= i < old.responses@.len() ==> (#[trigger] new.responses@[i]).0 == old.responses@[i].0
            && spec_problem_fixed(old.responses@[i].0@, old.responses@[i].1, new.responses@[i].1)
}

fn fix_response(status: &String, r: ResponseModel) -> (out: ResponseModel)
    ensures
        spec_problem_fixed(status@, r, out),
{
    if is_error_status(status.as_str()) {
        match r {
            ResponseModel::Inline { description, contents: _, rest } => ResponseModel::Inline {
                description: problem_description(description.as_str()),
                contents: problem_contents(),
                rest,
            },
            other => other,
        }
    } else {
        r
    }
}

fn fix_responses(op: &mut OperationModel)
    ensures
        spec_problem_op(*old(op), *final(op)),
{
    let n = op.responses.len();
    let mut i: usize = 0;
    while i < n
        invariant
            n == old(op).responses@.len(),
            op.responses@.len() == n,
            i <= n,
            *op == (OperationModel { responses: op.responses, ..*old(op) }),
            forall|j: int|
                0 <= j < i ==> (#[trigger] op.responses@[j]).0 == old(op).responses@[j].0 && spec_problem_fixed(
                    old(op).responses@[j].0@,
                    old(op).responses@[j].1,
                    op.responses@[j].1,
                ),
            forall|j: int| i <= j < n ==> #[trigger] op.responses@[j] == old(op).responses@[j],
        decreases n - i,
    {
        let (status, r) = op.responses.remove(i);
        let fixed = fix_response(&status, r);
        op.responses.insert(i, (status, fixed));
        i = i + 1;
    }
}

/// Makes every error response of every operation a problem document.
pub fn use_problem_documents(doc: &mut ApiDocModel)
    ensures
        final(doc).components == old(doc).components,
        final(doc).operations@.len() == old(doc).operations@.len(),
        forall|k: int|
            0 <= k < old(doc).operations@.len() ==> spec_problem_op(
                old(doc).operations@[k],
                #[trigger] final(doc).operations@[k],
            ),
{
    let n = doc.operations.len();
    let mut k: usize = 0;
    while k < n
        invariant
            n == old(doc).operations@.len(),
            doc.operations@.len() == n,
            k <= n,
            doc.components == old(doc).components,
            forall|j: int| 0 <= j < k ==> spec_problem_op(old(doc).operations@[j], #[trigger] doc.operations@[j]),
            forall|j: int| k <= j < n ==> #[trigger] doc.operations@[j] == old(doc).operations@[j],
        decreases n - k,
    {
        let mut op = doc.operations.remove(k);
        fix_responses(&mut op);
        doc.operations.insert(k, op);
        k = k + 1;
    }
}

// --- Relaxed schemas for PATCH bodies -------------------------------------------------

/// Whether a media-type entry is for media type `m`.
pub open spec fn media_is(m: Seq<char>) -> spec_fn((String, ContentModel)) -> bool {
    |e: (String, ContentModel)| e.0@ == m
}

/// Whether a schema entry is named `n`.
pub open spec fn name_is(n: Seq<char>) -> spec_fn((String, SchemaModel)) -> bool {
    |e: (String, SchemaModel)| e.0@ == n
}

/// The position of the schema named `n`, or -1.
pub open spec fn spec_schema_at(schemas: Seq<(String, SchemaModel)>, n: Seq<char>) -> int {
    first_index(schemas, name_is(n))
}

/// The component a body's JSON entry refers to by reference, if it does.
pub open spec fn spec_json_ref(body: Option<Vec<(String, ContentModel)>>) -> Option<Seq<char>> {
    match body {
        Some(cs) => {
            let i = first_index(cs@, media_is("application/json"@));
            if i >= 0 {
                match cs@[i].1.schema {
                    Some(SchemaRef::Ref(l)) => Some(spec_ref_name(l@)),
                    _ => None,
                }
            } else {
                None
            }
        },
        None => None,
    }
}

/// A `PATCH` operation's body component and the relaxed schema's name it
/// should point at, when its body refers to a component that gets one.
pub open spec fn spec_patch_names(op: OperationModel) -> Option<(Seq<char>, Seq<char>)> {
    if op.method == Method::Patch {
        match spec_json_ref(op.body) {
            Some(n) => match spec_patch_schema_name(n) {
                Some(p) => Some((n, p)),
                None => None,
            },
            None => None,
        }
    } else {
        None
    }
}

/// Whether relaxed schema `p` of component `n` exists or can be derived:
/// it is there already, or `n` is an object schema.
pub open spec fn spec_derivable(schemas: Seq<(String, SchemaModel)>, n: Seq<char>, p: Seq<char>) -> bool {
    spec_schema_at(schemas, p) >= 0 || (spec_schema_at(schemas, n) >= 0 && schemas[spec_schema_at(schemas, n)].1.is_object)
}

/// The component and relaxed schema an operation is pointed at, given the
/// document's schemas before the pass.
pub open spec fn spec_patch_target(op: OperationModel, schemas: Seq<(String, SchemaModel)>) -> Option<(Seq<char>, Seq<char>)> {
    match spec_patch_names(op) {
        Some((n, p)) => if spec_derivable(schemas, n, p) {
            Some((n, p))
        } else {
            None
        },
        None => None,
    }
}

/// The relaxed schema's name an operation is pointed at, if any.
pub open spec fn spec_target_name(op: OperationModel, schemas: Seq<(String, SchemaModel)>) -> Option<Seq<char>> {
    match spec_patch_target(op, schemas) {
        Some((_, p)) => Some(p),
        None => None,
    }
}

/// The location a reference to component `p` takes.
pub open spec fn spec_schema_location(p: Seq<char>) -> Seq<char> {
    "#/components/schemas/"@ + p
}

/// `s` is component `n`'s schema `base` relaxed: an object schema with no
/// required property, described as a partial `n`, and otherwise the same.
pub open spec fn spec_relaxed(base: SchemaModel, n: Seq<char>, s: SchemaModel) -> bool {
    &&& s.is_object
    &&& s.required@.len() == 0
    &&& opt_view(s.description) == Some(spec_patch_description(n))
    &&& s.rest == base.rest
}

/// Each media-type entry now refers to component `p`, keeping its media type
/// and the rest of the entry.
pub open spec fn spec_repointed_contents(old: Seq<(String, ContentModel)>, new: Seq<(String, ContentModel)>, p: Seq<char>) -> bool {
    &&& new.len() == old.len()
    &&& forall|i: int|
        0 <= i < old.len() ==> (#[trigger] new[i]).0 == old[i].0 && new[i].1.rest == old[i].1.rest && match new[i].1.schema {
            Some(SchemaRef::Ref(l)) => l@ == spec_schema_location(p),
            _ => false,
        }
}

/// The operation with its body pointed at component `p`; nothing else changes.
pub open spec fn spec_repointed(old: OperationModel, new: OperationModel, p: Seq<char>) -> bool {
    &&& new == OperationModel { body: new.body, ..old }
    &&& match old.body {
        Some(c0) => match new.body {
            Some(c1) => spec_repointed_contents(c0@, c1@, p),
            None => false,
        },
        None => new.body is None,
    }
}

/// What the pass did to one operation: a target is pointed at its relaxed
/// schema, which exists afterwards — the one already there, or `n`'s schema
/// relaxed — and any other operation is unchanged.
pub open spec fn spec_target_done(
    old_op: OperationModel,
    new_op: OperationModel,
    before: Seq<(String, SchemaModel)>,
    after: Seq<(String, SchemaModel)>,
) -> bool {
    match spec_patch_target(old_op, before) {
        Some((n, p)) => {
            &&& spec_repointed(old_op, new_op, p)
            &&& spec_schema_at(after, p) >= 0
            &&& spec_schema_at(before, p) >= 0 ==> spec_schema_at(after, p) == spec_schema_at(before, p)
            &&& spec_schema_at(before, p) < 0 ==> spec_relaxed(
                before[spec_schema_at(before, n)].1,
                n,
                after[spec_schema_at(after, p)].1,
            )
        },
        None => new_op == old_op,
    }
}

/// Every schema added after `before` is new, added once, and the relaxed
/// schema of one of the first `m` operations.
pub open spec fn spec_appended(
    before: Seq<(String, SchemaModel)>,
    after: Seq<(String, SchemaModel)>,
    ops: Seq<OperationModel>,
    m: int,
) -> bool {
    forall|j: int|
        before.len() <= j < after.len() ==> {
            &&& spec_schema_at(before, (#[trigger] after[j]).0@) < 0
            &&& spec_schema_at(after, after[j].0@) == j
            &&& exists|k: int| 0 <= k < m && #[trigger] spec_target_name(ops[k], before) == Some(after[j].0@)
        }
}

/// The `PATCH`-body pass: with no components nothing changes; otherwise the
/// schemas only grow, at the end, by the relaxed schemas the operations need,
/// and each operation is as [`spec_target_done`] says.
pub open spec fn spec_patch_pass(old: ApiDocModel, new: ApiDocModel) -> bool {
    match old.components {
        None => new == old,
        Some(c0) => match new.components {
            Some(c1) => {
                &&& c1.bearer_registered == c0.bearer_registered
                &&& c1.schemas@.len() >= c0.schemas@.len()
                &&& c1.schemas@.subrange(0, c0.schemas@.len() as int) == c0.schemas@
                &&& new.operations@.len() == old.operations@.len()
                &&& forall|k: int|
                    0 <= k < old.operations@.len() ==> spec_target_done(
                        old.operations@[k],
                        #[trigger] new.operations@[k],
                        c0.schemas@,
                        c1.schemas@,
                    )
                &&& spec_appended(c0.schemas@, c1.schemas@, old.operations@, old.operations@.len() as int)
            },
            None => false,
        },
    }
}

/// `first_index` over a sequence grown by one element.
proof fn lemma_first_index_push<T>(s: Seq<T>, x: T, f: spec_fn(T) -> bool)
    ensures
        first_index(s, f) >= 0 ==> first_index(s.push(x), f) == first_index(s, f),
        first_index(s, f) < 0 && f(x) ==> first_index(s.push(x), f) == s.len(),
        first_index(s, f) < 0 && !f(x) ==> first_index(s.push(x), f) < 0,
{
    let t = s.push(x);
    lemma_first_index(s, f);
    lemma_first_index(t, f);
    if first_index(s, f) >= 0 {
        let i = first_index(s, f);
        assert forall|j: int| 0 <= j < i implies !f(#[trigger] t[j]) by {
            assert(t[j] == s[j]);
        }
        assert(t[i] == s[i]);
        lemma_first_index_is(t, f, i);
    } else if f(x) {
        assert forall|j: int| 0 <= j < s.len() implies !f(#[trigger] t[j]) by {
            assert(t[j] == s[j]);
        }
        lemma_first_index_is(t, f, s.len() as int);
    } else {
        if first_index(t, f) >= 0 {
            let i = first_index(t, f);
            if i < s.len() {
                assert(t[i] == s[i]);
            }
        }
    }
}

/// `first_index` in a sequence is that of a prefix that has a match.
proof fn lemma_first_index_prefix<T>(s: Seq<T>, pre: Seq<T>, f: spec_fn(T) -> bool)
    requires
        pre.len() <= s.len(),
        s.subrange(0, pre.len() as int) == pre,
        first_index(pre, f) >= 0,
    ensures
        first_index(s, f) == first_index(pre, f),
{
    lemma_first_index(pre, f);
    let i = first_index(pre, f);
    assert forall|j: int| 0 <= j < i implies !f(#[trigger] s[j]) by {
        assert(s[j] == s.subrange(0, pre.len() as int)[j]);
    }
    assert(s[i] == s.subrange(0, pre.len() as int)[i]);
    lemma_first_index_is(s, f, i);
}

/// Two components never share a relaxed schema's name.
proof fn lemma_patch_name_injective(a: Seq<char>, b: Seq<char>, x: Seq<char>)
    requires
        spec_patch_schema_name(a) == Some(x),
        spec_patch_schema_name(b) == Some(x),
    ensures
        a == b,
{
    assert(x == a + "Patch"@);
    assert(x == b + "Patch"@);
    assert(a.len() == b.len());
    assert(a =~= x.subrange(0, a.len() as int));
    assert(b =~= x.subrange(0, b.len() as int));
}

/// Pushing a schema keeps what the pass did to earlier operations.
proof fn lemma_push_keeps_done(
    ops0: Seq<OperationModel>,
    ops: Seq<OperationModel>,
    c0: Seq<(String, SchemaModel)>,
    before: Seq<(String, SchemaModel)>,
    e: (String, SchemaModel),
    k: int,
)
    requires
        k <= ops0.len(),
        k <= ops.len(),
        forall|j: int| 0 <= j < k ==> spec_target_done(ops0[j], #[trigger] ops[j], c0, before),
    ensures
        forall|j: int| 0 <= j < k ==> spec_target_done(ops0[j], #[trigger] ops[j], c0, before.push(e)),
{
    assert forall|j: int| 0 <= j < k implies spec_target_done(ops0[j], #[trigger] ops[j], c0, before.push(e)) by {
        assert(spec_target_done(ops0[j], ops[j], c0, before));
        match spec_patch_target(ops0[j], c0) {
            Some((n, p)) => {
                lemma_first_index_push(before, e, name_is(p));
                lemma_first_index(before, name_is(p));
                let i = spec_schema_at(before, p);
                if i >= 0 {
                    assert(before.push(e)[i] == before[i]);
                }
            },
            None => {},
        }
    }
}

/// Pushing the relaxed schema of operation `k` keeps the record of what was
/// added, now over the first `k + 1` operations.
proof fn lemma_push_keeps_appended(
    c0: Seq<(String, SchemaModel)>,
    before: Seq<(String, SchemaModel)>,
    e: (String, SchemaModel),
    ops0: Seq<OperationModel>,
    k: int,
)
    requires
        0 <= k < ops0.len(),
        c0.len() <= before.len(),
        spec_appended(c0, before, ops0, k),
        spec_schema_at(c0, e.0@) < 0,
        spec_schema_at(before, e.0@) < 0,
        spec_target_name(ops0[k], c0) == Some(e.0@),
    ensures
        spec_appended(c0, before.push(e), ops0, k + 1),
{
    let after = before.push(e);
    assert forall|j: int| c0.len() <= j < after.len() implies {
        &&& spec_schema_at(c0, (#[trigger] after[j]).0@) < 0
        &&& spec_schema_at(after, after[j].0@) == j
        &&& exists|kk: int| 0 <= kk < k + 1 && #[trigger] spec_target_name(ops0[kk], c0) == Some(after[j].0@)
    } by {
        if j < before.len() {
            assert(after[j] == before[j]);
            let w = choose|kk: int| 0 <= kk < k && #[trigger] spec_target_name(ops0[kk], c0) == Some(before[j].0@);
            assert(spec_target_name(ops0[w], c0) == Some(after[j].0@));
            lemma_first_index_push(before, e, name_is(before[j].0@));
        } else {
            assert(after[j] == e);
            lemma_first_index_push(before, e, name_is(e.0@));
            assert(spec_target_name(ops0[k], c0) == Some(after[j].0@));
        }
    }
}

/// A relaxed schema that was already added is component `n`'s schema
/// relaxed, for the one component `n` it is named after.
proof fn lemma_appended_relaxed(
    c0: Seq<(String, SchemaModel)>,
    before: Seq<(String, SchemaModel)>,
    ops0: Seq<OperationModel>,
    ops: Seq<OperationModel>,
    k: int,
    n: Seq<char>,
    p: Seq<char>,
)
    requires
        0 <= k <= ops0.len(),
        k <= ops.len(),
        c0.len() <= before.len(),
        before.subrange(0, c0.len() as int) == c0,
        spec_appended(c0, before, ops0, k),
        forall|j: int| 0 <= j < k ==> spec_target_done(ops0[j], #[trigger] ops[j], c0, before),
        spec_schema_at(c0, p) < 0,
        spec_schema_at(before, p) >= 0,
        spec_patch_schema_name(n) == Some(p),
    ensures
        spec_relaxed(c0[spec_schema_at(c0, n)].1, n, before[spec_schema_at(before, p)].1),
{
    let f = name_is(p);
    let idx = spec_schema_at(before, p);
    lemma_first_index(before, f);
    lemma_first_index(c0, f);
    if idx < c0.len() {
        assert(c0[idx] == before.subrange(0, c0.len() as int)[idx]);
        assert(f(c0[idx]));
    }
    assert(before[idx].0@ == p);
    let w = choose|kk: int| 0 <= kk < k && #[trigger] spec_target_name(ops0[kk], c0) == Some(before[idx].0@);
    assert(spec_target_done(ops0[w], ops[w], c0, before));
    match spec_patch_target(ops0[w], c0) {
        Some((n2, p2)) => {
            assert(p2 == p);
            lemma_patch_name_injective(n, n2, p);
        },
        None => {},
    }
}

fn find_media(cs: &Vec<(String, ContentModel)>, media: &String) -> (r: Option<usize>)
    ensures
        match r {
            Some(i) => i == first_index(cs@, media_is(media@)) && i < cs@.len(),
            None => first_index(cs@, media_is(media@)) == -1,
        },
{
    find_where(
        cs,
        (|e: &(String, ContentModel)| -> (b: bool)
            ensures
                b == (e.0@ == media@),
            { e.0 == *media }),
        Ghost(media_is(media@)),
    )
}

/// The position of the schema named `name` among the first `limit` entries.
fn find_schema_before(schemas: &Vec<(String, SchemaModel)>, name: &String, limit: usize) -> (r: Option<usize>)
    requires
        limit <= schemas@.len(),
    ensures
        match r {
            Some(i) => i == spec_schema_at(schemas@.subrange(0, limit as int), name@) && i < limit,
            None => spec_schema_at(schemas@.subrange(0, limit as int), name@) == -1,
        },
{
    let ghost pre = schemas@.subrange(0, limit as int);
    let ghost f = name_is(name@);
    proof {
        lemma_first_index(pre, f);
    }
    let mut i: usize = 0;
    while i < limit
        invariant
            limit <= schemas@.len(),
            pre == schemas@.subrange(0, limit as int),
            f == name_is(name@),
            i <= limit,
            forall|j: int| 0 <= j < i ==> !f(#[trigger] pre[j]),
        decreases limit - i,
    {
        if schemas[i].0 == *name {
            proof {
                assert(pre[i as int] == schemas@[i as int]);
                lemma_first_index_is(pre, f, i as int);
            }
            return Some(i);
        }
        assert(pre[i as int] == schemas@[i as int]);
        i = i + 1;
    }
    proof {
        lemma_first_index(pre, f);
        if first_index(pre, f) >= 0 {
            assert(!f(pre[first_index(pre, f)]));
        }
    }
    None
}

/// The component a body's JSON entry refers to by reference, if it does.
fn json_body_ref(body: &Option<Vec<(String, ContentModel)>>) -> (r: Option<String>)
    ensures
        opt_view(r) == spec_json_ref(*body),
{
    match body {
        None => None,
        Some(cs) => {
            let media = String::from_str("application/json");
            match find_media(cs, &media) {
                None => None,
                Some(i) => match &cs[i].1.schema {
                    Some(SchemaRef::Ref(l)) => Some(ref_schema_name(l.as_str())),
                    _ => None,
                },
            }
        },
    }
}

/// A `PATCH` operation's body component and relaxed schema name, if any.
fn patch_names(op: &OperationModel) -> (r: Option<(String, String)>)
    ensures
        match r {
            Some((n, p)) => spec_patch_names(*op) == Some((n@, p@)),
            None => spec_patch_names(*op) is None,
        },
{
    if op.method != Method::Patch {
        return None;
    }
    match json_body_ref(&op.body) {
        None => None,
        Some(n) => match patch_schema_name(n.as_str()) {
            Some(p) => Some((n, p)),
            None => None,
        },
    }
}

/// Component `name`'s schema relaxed.
fn relaxed(base: &SchemaModel, name: &str) -> (r: SchemaModel)
    ensures
        spec_relaxed(*base, name@, r),
{
    SchemaModel {
        is_object: true,
        required: Vec::new(),
        description: Some(patch_schema_description(name)),
        rest: base.rest,
    }
}

/// Points every media-type entry of the body at component `p`.
fn repoint(op: &mut OperationModel, p: &String)
    ensures
        spec_repointed(*old(op), *final(op), p@),
{
    let mut body: Option<Vec<(String, ContentModel)>> = None;
    core::mem::swap(&mut body, &mut op.body);
    match body {
        None => {},
        Some(mut cs) => {
            let ghost c0 = cs@;
            let n = cs.len();
            let mut i: usize = 0;
            while i < n
                invariant
                    n == c0.len(),
                    cs@.len() == n,
                    i <= n,
                    forall|j: int|
                        0 <= j < i ==> (#[trigger] cs@[j]).0 == c0[j].0 && cs@[j].1.rest == c0[j].1.rest
                            && match cs@[j].1.schema {
                            Some(SchemaRef::Ref(l)) => l@ == spec_schema_location(p@),
                            _ => false,
                        },
                    forall|j: int| i <= j < n ==> #[trigger] cs@[j] == c0[j],
                decreases n - i,
            {
                let (media, content) = cs.remove(i);
                let mut loc = String::from_str("#/components/schemas/");
                loc.append(p.as_str());
                cs.insert(i, (media, ContentModel { schema: Some(SchemaRef::Ref(loc)), rest: content.rest }));
                i = i + 1;
            }
            op.body = Some(cs);
        },
    }
}

/// Points every `PATCH` body at a schema whose properties are all optional:
/// for a body referring to component `N` (not already a `…Patch` or
/// `…Request`), the schema `NPatch` — the one already there, or `N`'s object
/// schema with no required property, described as a partial `N`. A body whose
/// component is neither is left as it is.
pub fn derive_patch_bodies(doc: &mut ApiDocModel)
    ensures
        spec_patch_pass(*old(doc), *final(doc)),
{
    if doc.components.is_none() {
        return;
    }
    let mut components: Option<ComponentsModel> = None;
    core::mem::swap(&mut components, &mut doc.components);
    let mut c = match components {
        Some(c) => c,
        None => ComponentsModel { schemas: Vec::new(), bearer_registered: false },
    };
    let ghost c0 = c.schemas@;
    let ghost ops0 = doc.operations@;
    let base_len = c.schemas.len();
    let n = doc.operations.len();
    let mut k: usize = 0;
    while k < n
        invariant
            old(doc).components matches Some(oc) && oc.schemas@ == c0 && oc.bearer_registered == c.bearer_registered,
            ops0 == old(doc).operations@,
            doc.components is None,
            base_len == c0.len(),
            n == ops0.len(),
            doc.operations@.len() == n,
            k <= n,
            c.schemas@.len() >= base_len,
            c.schemas@.subrange(0, base_len as int) == c0,
            forall|j: int| 0 <= j < k ==> spec_target_done(ops0[j], #[trigger] doc.operations@[j], c0, c.schemas@),
            forall|j: int| k <= j < n ==> #[trigger] doc.operations@[j] == ops0[j],
            spec_appended(c0, c.schemas@, ops0, k as int),
        decreases n - k,
    {
        let ghost before = c.schemas@;
        let ghost kk = k as int;
        assert(doc.operations@[kk] == ops0[kk]);
        assert(before.subrange(0, base_len as int) == c0);
        match patch_names(&doc.operations[k]) {
            None => {
                assert(spec_patch_target(ops0[kk], c0) is None);
            },
            Some((name, pname)) => {
                let ghost np = name@;
                let ghost pp = pname@;
                let in_old = find_schema_before(&c.schemas, &pname, base_len).is_some();
                let ok = if in_old {
                    proof {
                        lemma_first_index_prefix(before, c0, name_is(pp));
                    }
                    true
                } else {
                    match find_schema_before(&c.schemas, &name, base_len) {
                        Some(i) => {
                            if c.schemas[i].1.is_object {
                                assert(spec_patch_target(ops0[kk], c0) == Some((np, pp)));
                                let found = find_schema_before(&c.schemas, &pname, c.schemas.len());
                                assert(c.schemas@.subrange(0, c.schemas@.len() as int) == before);
                                if found.is_none() {
                                    let r = relaxed(&c.schemas[i].1, name.as_str());
                                    let e = (pname.clone(), r);
                                    proof {
                                        lemma_first_index_push(before, e, name_is(pp));
                                        lemma_push_keeps_done(ops0, doc.operations@, c0, before, e, kk);
                                        lemma_push_keeps_appended(c0, before, e, ops0, kk);
                                        assert(before.push(e).subrange(0, base_len as int) =~= before.subrange(
                                            0,
                                            base_len as int,
                                        ));
                                    }
                                    c.schemas.push(e);
                                } else {
                                    proof {
                                        lemma_appended_relaxed(c0, before, ops0, doc.operations@, kk, np, pp);
                                    }
                                }
                                true
                            } else {
                                false
                            }
                        },
                        None => false,
                    }
                };
                if ok {
                    let mut op = doc.operations.remove(k);
                    repoint(&mut op, &pname);
                    doc.operations.insert(k, op);
                }
            },
        }
        proof {
            assert forall|j: int| 0 <= j < kk implies spec_target_done(ops0[j], #[trigger] doc.operations@[j], c0, c.schemas@) by {
            }
        }
        k = k + 1;
    }
    doc.components = Some(c);
}

} // verus!
