//! The on-disk layout of a persisted workspace: file names, and what a read
//! of the workspace file may end in.

use vstd::prelude::*;
use vstd::string::*;

use crate::text::{chars_of, decimal, push_char, spec_decimal};
use crate::workspace::{spec_id_char, spec_usable_id};

verus! {

/// A resource id as a file name: every character outside `[A-Za-z0-9_-]`
/// becomes `_`.
pub open spec fn spec_sanitize(id: Seq<char>) -> Seq<char> {
    Seq::new(id.len(), |i: int| if spec_id_char(id[i]) {
        id[i]
    } else {
        '_'
    })
}

/// Keeps an id usable as a file name, so writes stay inside their directory.
pub fn sanitize(id: &str) -> (r: String)
    ensures
        r@ == spec_sanitize(id@),
        r@.len() == id@.len(),
        forall|i: int| 0 <= i < r@.len() ==> spec_id_char(#[trigger] r@[i]),
{
    let cs = chars_of(id);
    let mut r = String::new();
    let mut i: usize = 0;
    while i < cs.len()
        invariant
            cs@ == id@,
            i <= cs@.len(),
            r@ =~= spec_sanitize(id@).subrange(0, i as int),
        decreases cs@.len() - i,
    {
        let c = cs[i];
        if ('0' <= c && c <= '9') || ('a' <= c && c <= 'z') || ('A' <= c && c <= 'Z') || c == '-' || c == '_' {
            push_char(&mut r, c);
        } else {
            push_char(&mut r, '_');
        }
        i = i + 1;
    }
    assert(spec_sanitize(id@).subrange(0, i as int) =~= spec_sanitize(id@));
    r
}

/// A usable id is its own file name, so two different usable ids never
/// share a file.
pub proof fn lemma_usable_ids_keep_their_names(a: Seq<char>, b: Seq<char>)
    requires
        spec_usable_id(a),
        spec_usable_id(b),
    ensures
        spec_sanitize(a) == a,
        a != b ==> spec_sanitize(a) != spec_sanitize(b),
{
    assert(spec_sanitize(a) =~= a);
    assert(spec_sanitize(b) =~= b);
}

/// The file a group's log (or summary, suggestions, usage) is kept in.
pub open spec fn spec_group_file(id: Seq<char>) -> Seq<char> {
    spec_sanitize(id) + ".json"@
}

/// The file name of a group's persisted data: its sanitized id plus `.json`.
pub fn group_file_name(group_id: &str) -> (r: String)
    ensures
        r@ == spec_group_file(group_id@),
{
    let mut r = sanitize(group_id);
    r.append(".json");
    r
}

/// The suffix an unreadable file is moved aside with.
pub open spec fn spec_quarantine_suffix(stamp: u64) -> Seq<char> {
    ".corrupt-"@ + spec_decimal(stamp as nat)
}

/// `.corrupt-<stamp>`, appended to a file's path to preserve it.
pub fn quarantine_suffix(stamp: u64) -> (r: String)
    ensures
        r@ == spec_quarantine_suffix(stamp),
{
    let mut r = String::from_str(".corrupt-");
    let d = decimal(stamp);
    r.append(d.as_str());
    r
}

/// The on-disk format version of the workspace file. Bumped only on a
/// breaking change to the snapshot's shape.
pub const WORKSPACE_FORMAT_VERSION: u32 = 1;

/// What a read of the workspace file ends in. None of the three overwrites
/// anything: a file is either used or moved aside.
#[derive(Clone, Copy, Debug, PartialEq, Eq, Structural)]
pub enum WorkspaceLoad {
    /// A versioned envelope of the current version: use its data.
    Current,
    /// A bare snapshot from before the envelope: use it; the next save wraps it.
    Legacy,
    /// An unknown version, or unreadable: move the file aside and seed fresh.
    Quarantine,
}

/// The decision for a workspace file, from whether it parsed as an envelope
/// (and with which version) and whether it parsed as a bare snapshot.
pub open spec fn spec_workspace_load(envelope_version: Option<u32>, bare_parses: bool) -> WorkspaceLoad {
    match envelope_version {
        Some(v) => if v == WORKSPACE_FORMAT_VERSION {
            WorkspaceLoad::Current
        } else {
            WorkspaceLoad::Quarantine
        },
        None => if bare_parses {
            WorkspaceLoad::Legacy
        } else {
            WorkspaceLoad::Quarantine
        },
    }
}

/// Classifies a read workspace file. An envelope of another version is
/// preserved even when its data would parse: the version guards breaking
/// changes.
pub fn classify_workspace_file(envelope_version: Option<u32>, bare_parses: bool) -> (r: WorkspaceLoad)
    ensures
        r == spec_workspace_load(envelope_version, bare_parses),
{
    match envelope_version {
        Some(v) => if v == WORKSPACE_FORMAT_VERSION {
            WorkspaceLoad::Current
        } else {
            WorkspaceLoad::Quarantine
        },
        None => if bare_parses {
            WorkspaceLoad::Legacy
        } else {
            WorkspaceLoad::Quarantine
        },
    }
}

} // verus!
