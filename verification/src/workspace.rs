//! The chat workspace: organizations, departments, personas, groups, prompt
//! labels and memories, with the rules that keep them consistent (cascading
//! deletes, one user identity, globally unique persona names, memories scoped
//! to the identity version that wrote them).

use vstd::prelude::*;
use vstd::string::*;

use crate::models::{
    copy_opt_string, opt_view, spec_prompt_hash, Department, DepartmentView, Group, GroupView, Memory, Organization, OrganizationView, Persona,
    PersonaKind, PersonaView, PromptLabel, Settings,
};
use crate::text::{chars_of, eq_ignore_ascii_case, spec_eq_ignore_ascii_case, spec_trim, trim};

verus! {

/// One group member as the roster lines of a prompt show it: a name, an
/// optional blurb, and whether this is the human "you".
#[derive(Clone, Debug)]
pub struct RosterMember {
    pub name: String,
    pub blurb: Option<String>,
    pub is_self: bool,
}

/// A serializable copy of the whole workspace (the persistence format). The
/// prompt labels are plain `(hash, label)` records.
#[derive(Clone, Debug)]
pub struct WorkspaceSnapshot {
    pub organizations: Vec<Organization>,
    pub departments: Vec<Department>,
    pub personas: Vec<Persona>,
    pub groups: Vec<Group>,
    pub settings: Settings,
    pub prompt_labels: Vec<PromptLabel>,
    pub memories: Vec<Memory>,
}

/// The full editable workspace. All mutations go through the methods below so
/// the invariants (cascade cleanup, one user identity, unique names) hold in
/// one place. `prompt_labels` is kept sorted by hash, one entry per hash.
pub struct Workspace {
    pub organizations: Vec<Organization>,
    pub departments: Vec<Department>,
    pub personas: Vec<Persona>,
    pub groups: Vec<Group>,
    pub settings: Settings,
    pub prompt_labels: Vec<PromptLabel>,
    pub memories: Vec<Memory>,
}

/// Why a persona create/update was refused.
#[derive(Clone, Copy, Debug, PartialEq, Eq, Structural)]
pub enum PersonaError {
    /// No persona with the given id (update only).
    NotFound,
    /// The merged result isn't a persona (a patch of the wrong shape).
    Invalid,
    /// Another persona already uses this name.
    NameTaken,
    /// Refused to create/produce a second user identity.
    UserExists,
    /// Refused to turn the last user identity into an AI persona.
    LastUser,
}

/// Why a partial update was refused.
#[derive(Clone, Copy, Debug, PartialEq, Eq, Structural)]
pub enum PatchError {
    /// No resource with the given id.
    NotFound,
    /// The patch merged, but the result no longer fits the resource's shape.
    Invalid,
}

// --- Sequence helpers -------------------------------------------------------

/// The elements of `s` for which `f` holds, in order.
pub open spec fn keep<T>(s: Seq<T>, f: spec_fn(T) -> bool) -> Seq<T>
    decreases s.len(),
{
    if s.len() == 0 {
        s
    } else if f(s[0]) {
        seq![s[0]] + keep(s.drop_first(), f)
    } else {
        keep(s.drop_first(), f)
    }
}

/// Every element of `keep(s, f)` satisfies `f` and comes from `s`.
pub proof fn lemma_keep_sound<T>(s: Seq<T>, f: spec_fn(T) -> bool)
    ensures
        forall|k: int| 0 <= k < keep(s, f).len() ==> f(#[trigger] keep(s, f)[k]) && s.contains(keep(s, f)[k]),
        keep(s, f).len() <= s.len(),
    decreases s.len(),
{
    if s.len() > 0 {
        lemma_keep_sound(s.drop_first(), f);
        let r = keep(s.drop_first(), f);
        assert forall|k: int| 0 <= k < keep(s, f).len() implies f(#[trigger] keep(s, f)[k]) && s.contains(keep(s, f)[k]) by {
            if f(s[0]) {
                if k == 0 {
                    assert(s[0] == s[0]);
                } else {
                    assert(keep(s, f)[k] == r[k - 1]);
                    let w = choose|w: int| 0 <= w < s.drop_first().len() && s.drop_first()[w] == r[k - 1];
                    assert(s[w + 1] == r[k - 1]);
                }
            } else {
                let w = choose|w: int| 0 <= w < s.drop_first().len() && s.drop_first()[w] == r[k];
                assert(s[w + 1] == r[k]);
            }
        }
    }
}

/// Every element of `s` satisfying `f` is kept.
pub proof fn lemma_keep_complete<T>(s: Seq<T>, f: spec_fn(T) -> bool, x: T)
    requires
        s.contains(x),
        f(x),
    ensures
        keep(s, f).contains(x),
    decreases s.len(),
{
    if s[0] == x {
        assert(keep(s, f)[0] == x);
    } else {
        let w = choose|w: int| 0 <= w < s.len() && s[w] == x;
        assert(s.drop_first()[w - 1] == x);
        lemma_keep_complete(s.drop_first(), f, x);
        let r = keep(s.drop_first(), f);
        let v = choose|v: int| 0 <= v < r.len() && r[v] == x;
        if f(s[0]) {
            assert(keep(s, f)[v + 1] == x);
        }
    }
}

/// Removes, in order, the elements for which `f` returns false.
pub(crate) fn retain_where<T, F: Fn(&T) -> bool>(v: &mut Vec<T>, f: F, Ghost(pred): Ghost<spec_fn(T) -> bool>)
    requires
        forall|x: &T| #[trigger] f.requires((x,)),
        forall|x: &T, b: bool| f.ensures((x,), b) ==> b == pred(*x),
    ensures
        final(v)@ == keep(old(v)@, pred),
{
    let mut rest: Vec<T> = Vec::new();
    core::mem::swap(&mut rest, v);
    let ghost orig = rest@;
    assert(v@ + keep(rest@, pred) =~= keep(orig, pred));
    while rest.len() > 0
        invariant
            forall|x: &T| #[trigger] f.requires((x,)),
            forall|x: &T, b: bool| f.ensures((x,), b) ==> b == pred(*x),
            keep(orig, pred) == v@ + keep(rest@, pred),
        decreases rest@.len(),
    {
        let ghost before = rest@;
        let x = rest.remove(0);
        assert(before.drop_first() =~= rest@);
        let k = f(&x);
        if k {
            assert(keep(before, pred) == seq![x] + keep(rest@, pred));
            v.push(x);
        } else {
            assert(keep(before, pred) == keep(rest@, pred));
        }
    }
    assert(keep(rest@, pred) =~= Seq::<T>::empty());
    assert(v@ + Seq::<T>::empty() =~= v@);
}

/// `keep` over a sequence grown at its end.
pub proof fn lemma_keep_push<T>(s: Seq<T>, x: T, f: spec_fn(T) -> bool)
    ensures
        keep(s.push(x), f) == if f(x) {
            keep(s, f).push(x)
        } else {
            keep(s, f)
        },
    decreases s.len(),
{
    if s.len() == 0 {
        assert(s.push(x).drop_first() =~= s);
        assert(keep(s, f) =~= Seq::<T>::empty());
        if f(x) {
            assert(seq![x] + keep(s, f) =~= keep(s, f).push(x));
        }
    } else {
        assert(s.push(x).drop_first() =~= s.drop_first().push(x));
        lemma_keep_push(s.drop_first(), x, f);
        assert(s.push(x)[0] == s[0]);
        if f(s[0]) {
            if f(x) {
                assert(seq![s[0]] + keep(s.drop_first(), f).push(x) =~= (seq![s[0]] + keep(
                    s.drop_first(),
                    f,
                )).push(x));
            }
        }
    }
}

/// Replaces each element by one that `f` relates to it.
fn map_in_place<T, F: Fn(T) -> T>(v: &mut Vec<T>, f: F, Ghost(rel): Ghost<spec_fn(T, T) -> bool>)
    requires
        forall|x: T| #[trigger] f.requires((x,)),
        forall|x: T, y: T| f.ensures((x,), y) ==> rel(x, y),
    ensures
        final(v)@.len() == old(v)@.len(),
        forall|k: int| 0 <= k < old(v)@.len() ==> rel(old(v)@[k], #[trigger] final(v)@[k]),
{
    let ghost orig = v@;
    let mut i: usize = 0;
    while i < v.len()
        invariant
            forall|x: T| #[trigger] f.requires((x,)),
            forall|x: T, y: T| f.ensures((x,), y) ==> rel(x, y),
            v@.len() == orig.len(),
            i <= v@.len(),
            forall|k: int| 0 <= k < i ==> rel(orig[k], #[trigger] v@[k]),
            forall|k: int| i <= k < v@.len() ==> #[trigger] v@[k] == orig[k],
        decreases v@.len() - i,
    {
        let x = v.remove(i);
        let y = f(x);
        v.insert(i, y);
        i = i + 1;
    }
}

/// The index of the first element of `s` satisfying `f`, or -1.
pub open spec fn first_index<T>(s: Seq<T>, f: spec_fn(T) -> bool) -> int
    decreases s.len(),
{
    if s.len() == 0 {
        -1
    } else if f(s[0]) {
        0
    } else if first_index(s.drop_first(), f) < 0 {
        -1
    } else {
        first_index(s.drop_first(), f) + 1
    }
}

/// `first_index` is `i` when `i` satisfies `f` and nothing before it does.
pub proof fn lemma_first_index_is<T>(s: Seq<T>, f: spec_fn(T) -> bool, i: int)
    requires
        0 <= i < s.len(),
        f(s[i]),
        forall|j: int| 0 <= j < i ==> !f(#[trigger] s[j]),
    ensures
        first_index(s, f) == i,
{
    lemma_first_index(s, f);
    let fi = first_index(s, f);
    if fi < 0 {
        assert(!f(s[i]));
    } else if fi > i {
        assert(!f(s[i]));
    }
}

/// What `first_index` means.
pub proof fn lemma_first_index<T>(s: Seq<T>, f: spec_fn(T) -> bool)
    ensures
        first_index(s, f) < 0 ==> forall|j: int| 0 <= j < s.len() ==> !f(#[trigger] s[j]),
        first_index(s, f) >= 0 ==> {
            &&& first_index(s, f) < s.len()
            &&& f(s[first_index(s, f)])
            &&& forall|j: int| 0 <= j < first_index(s, f) ==> !f(#[trigger] s[j])
        },
        first_index(s, f) >= -1,
    decreases s.len(),
{
    if s.len() > 0 {
        let t = s.drop_first();
        lemma_first_index(t, f);
        let fi = first_index(s, f);
        if fi < 0 {
            assert forall|j: int| 0 <= j < s.len() implies !f(#[trigger] s[j]) by {
                if j > 0 {
                    assert(s[j] == t[j - 1]);
                }
            }
        }
        if fi > 0 {
            assert forall|j: int| 0 <= j < fi implies !f(#[trigger] s[j]) by {
                if j > 0 {
                    assert(s[j] == t[j - 1]);
                }
            }
            assert(s[fi] == t[fi - 1]);
        }
    }
}

/// The index of the first element for which `f` returns true.
pub(crate) fn find_where<T, F: Fn(&T) -> bool>(v: &Vec<T>, f: F, Ghost(pred): Ghost<spec_fn(T) -> bool>) -> (r: Option<usize>)
    requires
        forall|x: &T| #[trigger] f.requires((x,)),
        forall|x: &T, b: bool| f.ensures((x,), b) ==> b == pred(*x),
    ensures
        match r {
            Some(i) => i == first_index(v@, pred) && i < v@.len(),
            None => first_index(v@, pred) == -1,
        },
{
    proof {
        lemma_first_index(v@, pred);
    }
    let mut i: usize = 0;
    while i < v.len()
        invariant
            forall|x: &T| #[trigger] f.requires((x,)),
            forall|x: &T, b: bool| f.ensures((x,), b) ==> b == pred(*x),
            i <= v@.len(),
            forall|j: int| 0 <= j < i ==> !pred(#[trigger] v@[j]),
        decreases v@.len() - i,
    {
        if f(&v[i]) {
            proof {
                lemma_first_index(v@, pred);
                let fi = first_index(v@, pred);
                if fi >= 0 && fi < i {
                    assert(pred(v@[fi]));
                }
                if fi < 0 {
                    assert(!pred(v@[i as int]));
                }
                if fi > i {
                    assert(!pred(v@[i as int]));
                }
            }
            return Some(i);
        }
        i = i + 1;
    }
    proof {
        lemma_first_index(v@, pred);
        let fi = first_index(v@, pred);
        if fi >= 0 {
            assert(pred(v@[fi]));
        }
    }
    None
}


// --- The workspace as plain values --------------------------------------------

/// The workspace's collections as sequences.
pub struct WorkspaceView {
    pub organizations: Seq<Organization>,
    pub departments: Seq<Department>,
    pub personas: Seq<Persona>,
    pub groups: Seq<Group>,
    pub settings: Settings,
    pub prompt_labels: Seq<PromptLabel>,
    pub memories: Seq<Memory>,
}

impl View for Workspace {
    type V = WorkspaceView;

    open spec fn view(&self) -> WorkspaceView {
        WorkspaceView {
            organizations: self.organizations@,
            departments: self.departments@,
            personas: self.personas@,
            groups: self.groups@,
            settings: self.settings,
            prompt_labels: self.prompt_labels@,
            memories: self.memories@,
        }
    }
}

/// The prompt labels are sorted by hash, strictly (one entry per hash).
pub open spec fn spec_labels_sorted(labels: Seq<PromptLabel>) -> bool {
    forall|i: int, j: int|
        0 <= i < j < labels.len() ==> crate::text::spec_lex_lt(
            #[trigger] labels[i].hash@,
            #[trigger] labels[j].hash@,
        )
}

/// Replacing persona `i` (whose id is `id`) keeps exactly one user identity,
/// when it neither adds a second one nor demotes the last one.
/// Replacing persona `i` (whose id is `id`) with one whose name no other
/// persona uses keeps names unique.
proof fn lemma_update_keeps_names_unique(before: Seq<Persona>, i: int, id: Seq<char>, p: Persona)
    requires
        0 <= i < before.len(),
        before[i].id@ == id,
        spec_ids_unique(before),
        spec_names_unique(before),
        !spec_name_taken(before, p.name@, Some(id)),
    ensures
        spec_names_unique(before.update(i, p)),
{
    let after = before.update(i, p);
    assert forall|a: int, b: int| 0 <= a < after.len() && 0 <= b < after.len() && a != b implies !spec_same_name(
        (#[trigger] after[a]).name@,
        (#[trigger] after[b]).name@,
    ) by {
        if a == i {
            assert(after[b] == before[b]);
            assert(before[b].id@ != id);
            if spec_same_name(after[a].name@, after[b].name@) {
                lemma_same_name_symmetric(after[a].name@, after[b].name@);
                assert(Some(before[b].id@) != Some(id));
            }
        } else if b == i {
            assert(after[a] == before[a]);
            assert(before[a].id@ != id);
            assert(Some(before[a].id@) != Some(id));
        } else {
            assert(after[a] == before[a]);
            assert(after[b] == before[b]);
        }
    }
}

/// Replacing persona `i` (whose id is `id`) never makes a second user
/// identity when a user replacement has no other user beside it.
proof fn lemma_update_keeps_at_most_one_user(before: Seq<Persona>, i: int, id: Seq<char>, p: Persona)
    requires
        0 <= i < before.len(),
        before[i].id@ == id,
        spec_ids_unique(before),
        spec_at_most_one_user(before),
        p.kind == PersonaKind::User ==> !spec_other_user(before, id),
    ensures
        spec_at_most_one_user(before.update(i, p)),
{
    let after = before.update(i, p);
    assert forall|a: int, b: int| 0 <= a < after.len() && 0 <= b < after.len() && a != b implies !((
    #[trigger] after[a]).kind == PersonaKind::User && (#[trigger] after[b]).kind == PersonaKind::User) by {
        if a == i {
            assert(after[b] == before[b]);
            assert(before[b].id@ != id);
        } else if b == i {
            assert(after[a] == before[a]);
            assert(before[a].id@ != id);
        } else {
            assert(after[a] == before[a]);
            assert(after[b] == before[b]);
        }
    }
}

#[verifier::spinoff_prover]
#[verifier::rlimit(60)]
proof fn lemma_update_keeps_one_user(before: Seq<Persona>, i: int, id: Seq<char>, p: Persona)
    requires
        0 <= i < before.len(),
        before[i].id@ == id,
        spec_ids_unique(before),
        spec_exactly_one_user(before),
        p.kind == PersonaKind::User ==> !spec_other_user(before, id),
        !(before[i].kind == PersonaKind::User && p.kind != PersonaKind::User && !spec_other_user(before, id)),
    ensures
        spec_exactly_one_user(before.update(i, p)),
{
    let after = before.update(i, p);
    let k = choose|k: int|
        0 <= k < before.len() && (#[trigger] before[k]).kind == PersonaKind::User && forall|j: int|
            0 <= j < before.len() && j != k ==> (#[trigger] before[j]).kind != PersonaKind::User;
    assert(0 <= k < before.len() && before[k].kind == PersonaKind::User);
    if p.kind == PersonaKind::User {
        if k != i {
            assert(before[k].id@ != before[i].id@);
            assert(spec_other_user(before, id));
        }
    } else if k == i {
        assert(spec_other_user(before, id));
        let v = choose|v: int|
            0 <= v < before.len() && (#[trigger] before[v]).kind == PersonaKind::User && before[v].id@ != id;
        assert(v != k);
        assert(before[v].kind != PersonaKind::User);
    }
    let w: int = if p.kind == PersonaKind::User {
        i
    } else {
        k
    };
    assert forall|j: int| 0 <= j < after.len() && j != w implies (#[trigger] after[j]).kind != PersonaKind::User by {
        if j != i {
            assert(after[j] == before[j]);
            assert(j != k);
        }
    }
    assert(0 <= w < after.len() && after[w].kind == PersonaKind::User);
}

/// `r` is what loading snapshot `s` gives (see [`Workspace::from_snapshot`]).
pub open spec fn spec_loaded_from(s: WorkspaceSnapshot, r: Workspace) -> bool {
    &&& r.wf()
    &&& r.organizations@ == s.organizations@
    &&& r.departments@ == s.departments@
    &&& r.settings == s.settings
    &&& r.memories@ == s.memories@
    &&& forall|h: Seq<char>| #[trigger] spec_label_of(r.prompt_labels@, h) == spec_label_last(s.prompt_labels@, h)
    &&& ({
        let ps = s.personas@;
        let uids = spec_user_ids(ps);
        let dropped = crate::text::views(uids.drop_first());
        let kept = keep(ps, |p: Persona| !dropped.contains(p.id@));
        &&& uids.len() == 0 ==> {
            &&& r.personas@.len() == ps.len() + 1
            &&& r.personas@[0].id@ == spec_default_user_id()
            &&& r.personas@[0].kind == PersonaKind::User
            &&& forall|k: int| 0 <= k < ps.len() ==> spec_rehashed(ps[k], #[trigger] r.personas@[k + 1])
            &&& r.groups@.len() == s.groups@.len()
            &&& forall|k: int|
                0 <= k < r.groups@.len() ==> #[trigger] r.groups@[k] == (Group {
                    self_persona_id: r.groups@[k].self_persona_id,
                    ..s.groups@[k]
                }) && r.groups@[k].self_persona_id@ == spec_default_user_id()
        }
        &&& uids.len() > 0 ==> {
            &&& r.personas@.len() == kept.len()
            &&& forall|k: int| 0 <= k < kept.len() ==> spec_rehashed(kept[k], #[trigger] r.personas@[k])
            &&& r.groups@.len() == s.groups@.len()
            &&& forall|k: int|
                0 <= k < r.groups@.len() ==> spec_refolded(s.groups@[k], #[trigger] r.groups@[k], dropped, uids[0]@)
        }
    })
    &&& spec_hashes_fresh(r.personas@)
    &&& spec_ids_unique(s.personas@) ==> spec_exactly_one_user(r.personas@)
}

/// `s` is the snapshot [`Workspace::to_snapshot`] gives of `ws`.
pub open spec fn spec_snapshot_of(ws: Workspace, s: WorkspaceSnapshot) -> bool {
    &&& s.organizations.deep_view() == ws.organizations.deep_view()
    &&& s.departments.deep_view() == ws.departments.deep_view()
    &&& s.personas.deep_view() == ws.personas.deep_view()
    &&& s.groups.deep_view() == ws.groups.deep_view()
    &&& s.settings == ws.settings
    &&& s.prompt_labels@ == ws.prompt_labels@
    &&& s.memories@ == ws.memories@
}

/// In a sorted label list, the last entry for a hash is its only one.
proof fn lemma_label_last_sorted(s: Seq<PromptLabel>, h: Seq<char>)
    requires
        spec_labels_sorted(s),
    ensures
        spec_label_last(s, h) == spec_label_of(s, h),
    decreases s.len(),
{
    if s.len() > 0 {
        let n = s.len() - 1;
        if s.last().hash@ == h {
            lemma_label_of_sorted(s, n);
        } else {
            let t = s.drop_last();
            assert forall|i: int, j: int| 0 <= i < j < t.len() implies crate::text::spec_lex_lt(
                #[trigger] t[i].hash@,
                #[trigger] t[j].hash@,
            ) by {
                assert(t[i] == s[i] && t[j] == s[j]);
            }
            lemma_label_last_sorted(t, h);
            let f = label_for(h);
            lemma_first_index(t, f);
            if first_index(t, f) >= 0 {
                let fp = first_index(t, f);
                assert forall|j: int| 0 <= j < fp implies !f(#[trigger] s[j]) by {
                    assert(s[j] == t[j]);
                }
                assert(s[fp] == t[fp]);
                lemma_first_index_is(s, f, fp);
            } else {
                assert forall|j: int| 0 <= j < s.len() implies (#[trigger] s[j]).hash@ != h by {
                    if j < n {
                        assert(s[j] == t[j]);
                        assert(!f(t[j]));
                    }
                }
                lemma_label_of_absent(s, h);
                lemma_label_of_absent(t, h);
            }
        }
    }
}

/// A workspace survives a save and reload: loading the snapshot of a valid
/// workspace (one user identity, fresh identity hashes) gives back the same
/// organizations, departments, personas, groups, settings, memories and
/// prompt labels.
pub proof fn lemma_snapshot_round_trip(ws: Workspace, s: WorkspaceSnapshot, r: Workspace)
    requires
        ws.wf(),
        spec_exactly_one_user(ws.personas@),
        spec_hashes_fresh(ws.personas@),
        spec_snapshot_of(ws, s),
        spec_loaded_from(s, r),
    ensures
        r.organizations.deep_view() == ws.organizations.deep_view(),
        r.departments.deep_view() == ws.departments.deep_view(),
        r.personas.deep_view() == ws.personas.deep_view(),
        r.groups.deep_view() == ws.groups.deep_view(),
        r.settings == ws.settings,
        r.memories@ == ws.memories@,
        forall|h: Seq<char>| #[trigger] spec_label_of(r.prompt_labels@, h) == spec_label_of(ws.prompt_labels@, h),
{
    let ps = s.personas@;
    let wp = ws.personas@;
    assert(ps.len() == wp.len()) by {
        assert(s.personas.deep_view().len() == ws.personas.deep_view().len());
    }
    assert forall|k: int| 0 <= k < ps.len() implies (#[trigger] ps[k])@ == wp[k]@ by {
        assert(s.personas.deep_view()[k] == ws.personas.deep_view()[k]);
    }
    // Exactly one user in the snapshot too.
    let u = choose|u: int|
        0 <= u < wp.len() && (#[trigger] wp[u]).kind == PersonaKind::User && forall|j: int|
            0 <= j < wp.len() && j != u ==> (#[trigger] wp[j]).kind != PersonaKind::User;
    assert(ps[u]@ == wp[u]@);
    assert forall|j: int| 0 <= j < ps.len() && j != u implies !is_user()(#[trigger] ps[j]) by {
        assert(ps[j]@ == wp[j]@);
    }
    lemma_keep_at_most_one(ps, is_user(), u);
    assert(ps.contains(ps[u]));
    lemma_keep_complete(ps, is_user(), ps[u]);
    let uids = spec_user_ids(ps);
    assert(uids.len() == 1);
    let dropped = crate::text::views(uids.drop_first());
    assert(dropped =~= Seq::<Seq<char>>::empty());
    let pred = |p: Persona| !dropped.contains(p.id@);
    lemma_keep_all(ps, pred);
    let kept = keep(ps, pred);
    assert(kept == ps);
    assert forall|k: int| 0 <= k < r.personas@.len() implies (#[trigger] r.personas@[k])@ == wp[k]@ by {
        assert(spec_rehashed(kept[k], r.personas@[k]));
        assert(ps[k]@ == wp[k]@);
    }
    assert(r.personas.deep_view() =~= ws.personas.deep_view());
    assert(s.groups@.len() == ws.groups@.len()) by {
        assert(s.groups.deep_view().len() == ws.groups.deep_view().len());
    }
    assert forall|k: int| 0 <= k < r.groups@.len() implies (#[trigger] r.groups@[k])@ == ws.groups@[k]@ by {
        let g = s.groups@[k];
        assert(spec_refolded(g, r.groups@[k], dropped, uids[0]@));
        lemma_keep_all(g.persona_ids@, |x: String| !dropped.contains(x@));
        assert(s.groups.deep_view()[k] == ws.groups.deep_view()[k]);
    }
    assert(r.groups.deep_view() =~= ws.groups.deep_view());
    assert(r.organizations.deep_view() =~= ws.organizations.deep_view());
    assert(r.departments.deep_view() =~= ws.departments.deep_view());
    assert forall|h: Seq<char>| #[trigger] spec_label_of(r.prompt_labels@, h) == spec_label_of(ws.prompt_labels@, h) by {
        lemma_label_last_sorted(ws.prompt_labels@, h);
    }
}

impl Workspace {
    /// The representation invariant.
    pub open spec fn wf(&self) -> bool {
        spec_labels_sorted(self.prompt_labels@)
    }
}

/// Whether some element of `s` has id `id`.
pub open spec fn org_with_id(id: Seq<char>) -> spec_fn(Organization) -> bool {
    |o: Organization| o.id@ == id
}

/// Whether a department has id `id`.
pub open spec fn dept_with_id(id: Seq<char>) -> spec_fn(Department) -> bool {
    |d: Department| d.id@ == id
}

/// Whether a persona has id `id`.
pub open spec fn persona_with_id(id: Seq<char>) -> spec_fn(Persona) -> bool {
    |p: Persona| p.id@ == id
}

/// Whether a group has id `id`.
pub open spec fn group_with_id(id: Seq<char>) -> spec_fn(Group) -> bool {
    |g: Group| g.id@ == id
}

fn find_org(v: &Vec<Organization>, id: &String) -> (r: Option<usize>)
    ensures
        match r {
            Some(i) => i == first_index(v@, org_with_id(id@)) && i < v@.len(),
            None => first_index(v@, org_with_id(id@)) == -1,
        },
{
    find_where(
        v,
        (|o: &Organization| -> (b: bool)
            ensures
                b == (o.id@ == id@),
            { o.id == *id }),
        Ghost(org_with_id(id@)),
    )
}

fn find_dept(v: &Vec<Department>, id: &String) -> (r: Option<usize>)
    ensures
        match r {
            Some(i) => i == first_index(v@, dept_with_id(id@)) && i < v@.len(),
            None => first_index(v@, dept_with_id(id@)) == -1,
        },
{
    find_where(
        v,
        (|d: &Department| -> (b: bool)
            ensures
                b == (d.id@ == id@),
            { d.id == *id }),
        Ghost(dept_with_id(id@)),
    )
}

fn find_persona(v: &Vec<Persona>, id: &String) -> (r: Option<usize>)
    ensures
        match r {
            Some(i) => i == first_index(v@, persona_with_id(id@)) && i < v@.len(),
            None => first_index(v@, persona_with_id(id@)) == -1,
        },
{
    find_where(
        v,
        (|p: &Persona| -> (b: bool)
            ensures
                b == (p.id@ == id@),
            { p.id == *id }),
        Ghost(persona_with_id(id@)),
    )
}

fn find_group(v: &Vec<Group>, id: &String) -> (r: Option<usize>)
    ensures
        match r {
            Some(i) => i == first_index(v@, group_with_id(id@)) && i < v@.len(),
            None => first_index(v@, group_with_id(id@)) == -1,
        },
{
    find_where(
        v,
        (|g: &Group| -> (b: bool)
            ensures
                b == (g.id@ == id@),
            { g.id == *id }),
        Ghost(group_with_id(id@)),
    )
}

/// The organization with its links to `org` cleared when it belonged to
/// organization `org` or to one of `removed` departments.
pub open spec fn spec_unlink(p: Persona, org: Seq<char>, departments: Seq<Department>) -> Persona {
    let in_org = opt_view(p.organization_id) == Some(org);
    let in_dept = match p.department_id {
        Some(d) => exists|j: int|
            0 <= j < departments.len() && (#[trigger] departments[j]).id@ == d@
                && departments[j].organization_id@ == org,
        None => false,
    };
    if in_org || in_dept {
        Persona { organization_id: None, department_id: None, ..p }
    } else {
        p
    }
}

impl Workspace {
    /// Adds an organization under its proposed id when usable and free, else
    /// under a fresh one; returns what was stored.
    pub fn create_organization(&mut self, org: Organization) -> (r: Organization)
        ensures
            spec_id_kept(org.id@, first_index(old(self).organizations@, org_with_id(org.id@)) >= 0)
                ==> r.id@ == org.id@,
            spec_usable_id(r.id@),
            r@ == (crate::models::OrganizationView { id: r.id@, ..org@ }),
            final(self).organizations@.drop_last() == old(self).organizations@,
            final(self).organizations@.len() == old(self).organizations@.len() + 1,
            final(self).organizations@.last()@ == r@,
            final(self)@ == (WorkspaceView { organizations: final(self)@.organizations, ..old(self)@ }),
    {
        let mut org = org;
        let taken = find_org(&self.organizations, &org.id).is_some();
        org.id = resolve_id(org.id, taken);
        let r = org.copy();
        self.organizations.push(org);
        r
    }
}

/// Whether department `d` belongs to organization `org`.
fn dept_in_org(departments: &Vec<Department>, d: &String, org: &String) -> (r: bool)
    ensures
        r == exists|j: int|
            0 <= j < departments@.len() && (#[trigger] departments@[j]).id@ == d@
                && departments@[j].organization_id@ == org@,
{
    let mut i: usize = 0;
    while i < departments.len()
        invariant
            i <= departments@.len(),
            forall|j: int|
                0 <= j < i ==> !((#[trigger] departments@[j]).id@ == d@
                    && departments@[j].organization_id@ == org@),
        decreases departments@.len() - i,
    {
        if departments[i].id == *d && departments[i].organization_id == *org {
            return true;
        }
        i = i + 1;
    }
    false
}

/// The persona with its department link cleared when it pointed at `dept`.
pub open spec fn spec_drop_dept(p: Persona, dept: Seq<char>) -> Persona {
    if opt_view(p.department_id) == Some(dept) {
        Persona { department_id: None, ..p }
    } else {
        p
    }
}

impl Workspace {
    /// Replaces the organization with id `id` by `updated` (whose own id is
    /// ignored: an update never rewrites an id).
    pub fn update_organization(&mut self, id: &str, updated: Organization) -> (r: Result<Organization, PatchError>)
        ensures
            ({
                let i = first_index(old(self).organizations@, org_with_id(id@));
                match r {
                    Err(e) => e == PatchError::NotFound && i == -1 && final(self)@ == old(self)@,
                    Ok(o) => {
                        &&& 0 <= i < old(self).organizations@.len()
                        &&& o@ == (crate::models::OrganizationView { id: id@, ..updated@ })
                        &&& final(self).organizations@ == old(self).organizations@.update(i, final(self).organizations@[i])
                        &&& final(self).organizations@[i]@ == o@
                        &&& final(self)@ == (WorkspaceView { organizations: final(self)@.organizations, ..old(self)@ })
                    },
                }
            }),
    {
        let key = String::from_str(id);
        match find_org(&self.organizations, &key) {
            None => Err(PatchError::NotFound),
            Some(i) => {
                let mut u = updated;
                u.id = key;
                let r = u.copy();
                self.organizations.set(i, u);
                Ok(r)
            },
        }
    }

    /// Removes an organization and its departments, and clears the links of
    /// personas that pointed at either.
    pub fn delete_organization(&mut self, id: &str) -> (r: bool)
        ensures
            r == (first_index(old(self).organizations@, org_with_id(id@)) >= 0),
            !r ==> final(self)@ == old(self)@,
            r ==> {
                &&& final(self).organizations@ == keep(old(self).organizations@, |o: Organization| o.id@ != id@)
                &&& final(self).departments@ == keep(old(self).departments@, |d: Department| d.organization_id@ != id@)
                &&& final(self).personas@.len() == old(self).personas@.len()
                &&& forall|k: int| 0 <= k < old(self).personas@.len() ==> #[trigger] final(self).personas@[k]
                    == spec_unlink(old(self).personas@[k], id@, old(self).departments@)
                &&& final(self)@ == (WorkspaceView {
                    organizations: final(self)@.organizations,
                    departments: final(self)@.departments,
                    personas: final(self)@.personas,
                    ..old(self)@
                })
            },
            // Nothing is left pointing at the removed organization.
            r ==> forall|k: int| 0 <= k < final(self).departments@.len() ==> (#[trigger] final(self).departments@[k]).organization_id@ != id@,
            r ==> forall|k: int| 0 <= k < final(self).personas@.len() ==> opt_view((#[trigger] final(self).personas@[k]).organization_id) != Some(id@),
    {
        let key = String::from_str(id);
        if find_org(&self.organizations, &key).is_none() {
            return false;
        }
        let ghost old_depts = self.departments@;
        let depts = &self.departments;
        map_in_place(
            &mut self.personas,
            (|p: Persona| -> (q: Persona)
                ensures
                    q == spec_unlink(p, key@, old_depts),
                {
                    let mut p = p;
                    let in_org = match &p.organization_id {
                        Some(o) => *o == key,
                        None => false,
                    };
                    let in_dept = match &p.department_id {
                        Some(d) => dept_in_org(depts, d, &key),
                        None => false,
                    };
                    if in_org || in_dept {
                        p.organization_id = None;
                        p.department_id = None;
                    }
                    p
                }),
            Ghost(|p: Persona, q: Persona| q == spec_unlink(p, key@, old_depts)),
        );
        retain_where(
            &mut self.organizations,
            (|o: &Organization| -> (b: bool)
                ensures
                    b == (o.id@ != key@),
                { o.id != key }),
            Ghost(|o: Organization| o.id@ != key@),
        );
        retain_where(
            &mut self.departments,
            (|d: &Department| -> (b: bool)
                ensures
                    b == (d.organization_id@ != key@),
                { d.organization_id != key }),
            Ghost(|d: Department| d.organization_id@ != key@),
        );
        proof {
            lemma_keep_sound(old_depts, |d: Department| d.organization_id@ != key@);
            assert forall|k: int| 0 <= k < self.personas@.len() implies opt_view((#[trigger] self.personas@[k]).organization_id) != Some(id@) by {
                assert(self.personas@[k] == spec_unlink(old(self).personas@[k], key@, old_depts));
            }
        }
        true
    }

    /// Adds a department under its proposed id when usable and free, else
    /// under a fresh one; returns what was stored.
    pub fn create_department(&mut self, dept: Department) -> (r: Department)
        ensures
            spec_id_kept(dept.id@, first_index(old(self).departments@, dept_with_id(dept.id@)) >= 0)
                ==> r.id@ == dept.id@,
            spec_usable_id(r.id@),
            r@ == (crate::models::DepartmentView { id: r.id@, ..dept@ }),
            final(self).departments@.drop_last() == old(self).departments@,
            final(self).departments@.len() == old(self).departments@.len() + 1,
            final(self).departments@.last()@ == r@,
            final(self)@ == (WorkspaceView { departments: final(self)@.departments, ..old(self)@ }),
    {
        let mut dept = dept;
        let taken = find_dept(&self.departments, &dept.id).is_some();
        dept.id = resolve_id(dept.id, taken);
        let r = dept.copy();
        self.departments.push(dept);
        r
    }

    /// Replaces the department with id `id` by `updated` (keeping the id).
    pub fn update_department(&mut self, id: &str, updated: Department) -> (r: Result<Department, PatchError>)
        ensures
            ({
                let i = first_index(old(self).departments@, dept_with_id(id@));
                match r {
                    Err(e) => e == PatchError::NotFound && i == -1 && final(self)@ == old(self)@,
                    Ok(d) => {
                        &&& 0 <= i < old(self).departments@.len()
                        &&& d@ == (crate::models::DepartmentView { id: id@, ..updated@ })
                        &&& final(self).departments@ == old(self).departments@.update(i, final(self).departments@[i])
                        &&& final(self).departments@[i]@ == d@
                        &&& final(self)@ == (WorkspaceView { departments: final(self)@.departments, ..old(self)@ })
                    },
                }
            }),
    {
        let key = String::from_str(id);
        match find_dept(&self.departments, &key) {
            None => Err(PatchError::NotFound),
            Some(i) => {
                let mut u = updated;
                u.id = key;
                let r = u.copy();
                self.departments.set(i, u);
                Ok(r)
            },
        }
    }

    /// Removes a department and clears the department link of its personas.
    pub fn delete_department(&mut self, id: &str) -> (r: bool)
        ensures
            r == (first_index(old(self).departments@, dept_with_id(id@)) >= 0),
            !r ==> final(self)@ == old(self)@,
            r ==> {
                &&& final(self).departments@ == keep(old(self).departments@, |d: Department| d.id@ != id@)
                &&& final(self).personas@.len() == old(self).personas@.len()
                &&& forall|k: int| 0 <= k < old(self).personas@.len() ==> #[trigger] final(self).personas@[k]
                    == spec_drop_dept(old(self).personas@[k], id@)
                &&& final(self)@ == (WorkspaceView {
                    departments: final(self)@.departments,
                    personas: final(self)@.personas,
                    ..old(self)@
                })
            },
    {
        let key = String::from_str(id);
        if find_dept(&self.departments, &key).is_none() {
            return false;
        }
        retain_where(
            &mut self.departments,
            (|d: &Department| -> (b: bool)
                ensures
                    b == (d.id@ != key@),
                { d.id != key }),
            Ghost(|d: Department| d.id@ != key@),
        );
        map_in_place(
            &mut self.personas,
            (|p: Persona| -> (q: Persona)
                ensures
                    q == spec_drop_dept(p, key@),
                {
                    let mut p = p;
                    let hit = match &p.department_id {
                        Some(d) => *d == key,
                        None => false,
                    };
                    if hit {
                        p.department_id = None;
                    }
                    p
                }),
            Ghost(|p: Persona, q: Persona| q == spec_drop_dept(p, key@)),
        );
        true
    }
}

/// Two persona names clash: equal once trimmed and ASCII-case-folded.
pub open spec fn spec_same_name(a: Seq<char>, b: Seq<char>) -> bool {
    spec_eq_ignore_ascii_case(spec_trim(a), spec_trim(b))
}

/// Some persona other than `except` already uses `name`.
pub open spec fn spec_name_taken(personas: Seq<Persona>, name: Seq<char>, except: Option<Seq<char>>) -> bool {
    exists|j: int|
        0 <= j < personas.len() && Some((#[trigger] personas[j]).id@) != except && spec_same_name(
            personas[j].name@,
            name,
        )
}

/// Some persona is a user identity.
pub open spec fn spec_has_user(personas: Seq<Persona>) -> bool {
    exists|j: int| 0 <= j < personas.len() && (#[trigger] personas[j]).kind == PersonaKind::User
}

/// Some user identity other than `id` exists.
pub open spec fn spec_other_user(personas: Seq<Persona>, id: Seq<char>) -> bool {
    exists|j: int|
        0 <= j < personas.len() && (#[trigger] personas[j]).kind == PersonaKind::User && personas[j].id@
            != id
}

/// No two personas share a name.
pub open spec fn spec_names_unique(personas: Seq<Persona>) -> bool {
    forall|i: int, j: int|
        0 <= i < personas.len() && 0 <= j < personas.len() && i != j ==> !spec_same_name(
            (#[trigger] personas[i]).name@,
            (#[trigger] personas[j]).name@,
        )
}

/// At most one persona is a user identity.
pub open spec fn spec_at_most_one_user(personas: Seq<Persona>) -> bool {
    forall|i: int, j: int|
        0 <= i < personas.len() && 0 <= j < personas.len() && i != j ==> !((#[trigger] personas[i]).kind
            == PersonaKind::User && (#[trigger] personas[j]).kind == PersonaKind::User)
}

/// The persona as stored after a create: its id resolved and its identity
/// hash recomputed from its prompt.
pub open spec fn spec_stored_persona(p: PersonaView, id: Seq<char>) -> PersonaView {
    PersonaView { id, prompt_hash: spec_prompt_hash(p.system_prompt), ..p }
}

impl Workspace {
    /// Whether another persona (any except `except_id`) already uses `name`,
    /// compared trimmed and ASCII-case-insensitively.
    fn name_taken(&self, name: &str, except_id: Option<&str>) -> (r: bool)
        ensures
            r == spec_name_taken(
                self.personas@,
                name@,
                match except_id {
                    Some(e) => Some(e@),
                    None => None,
                },
            ),
    {
        let target = trim(name);
        let except: Option<String> = match except_id {
            Some(e) => Some(String::from_str(e)),
            None => None,
        };
        let ghost ex = match except_id {
            Some(e) => Some(e@),
            None => None::<Seq<char>>,
        };
        let mut i: usize = 0;
        while i < self.personas.len()
            invariant
                i <= self.personas@.len(),
                target@ == spec_trim(name@),
                opt_view(except) == ex,
                ex == match except_id {
                    Some(e) => Some(e@),
                    None => None::<Seq<char>>,
                },
                forall|j: int|
                    0 <= j < i ==> !(Some((#[trigger] self.personas@[j]).id@) != ex && spec_same_name(
                        self.personas@[j].name@,
                        name@,
                    )),
            decreases self.personas@.len() - i,
        {
            let p = &self.personas[i];
            let excluded = match &except {
                Some(e) => p.id == *e,
                None => false,
            };
            if !excluded {
                let pn = trim(p.name.as_str());
                if eq_ignore_ascii_case(pn.as_str(), target.as_str()) {
                    assert(spec_same_name(self.personas@[i as int].name@, name@));
                    return true;
                }
            }
            i = i + 1;
        }
        false
    }

    /// Whether some persona is a user identity, optionally ignoring id `except`.
    fn user_exists(&self, except: Option<&String>) -> (r: bool)
        ensures
            r == match except {
                Some(e) => spec_other_user(self.personas@, e@),
                None => spec_has_user(self.personas@),
            },
    {
        let mut i: usize = 0;
        while i < self.personas.len()
            invariant
                i <= self.personas@.len(),
                forall|j: int|
                    0 <= j < i ==> !((#[trigger] self.personas@[j]).kind == PersonaKind::User && match except {
                        Some(e) => self.personas@[j].id@ != e@,
                        None => true,
                    }),
            decreases self.personas@.len() - i,
        {
            let p = &self.personas[i];
            if p.kind == PersonaKind::User {
                let counts = match except {
                    Some(e) => p.id != *e,
                    None => true,
                };
                if counts {
                    return true;
                }
            }
            i = i + 1;
        }
        false
    }

    /// Creates a persona. Refuses a second user identity and a name already
    /// in use; otherwise stores it under a resolved id with its identity hash
    /// recomputed, and returns what was stored.
    pub fn create_persona(&mut self, persona: Persona) -> (r: Result<Persona, PersonaError>)
        ensures
            persona.kind == PersonaKind::User && spec_has_user(old(self).personas@) ==> r == Err::<
                Persona,
                PersonaError,
            >(PersonaError::UserExists),
            !(persona.kind == PersonaKind::User && spec_has_user(old(self).personas@)) && spec_name_taken(
                old(self).personas@,
                persona.name@,
                None,
            ) ==> r == Err::<Persona, PersonaError>(PersonaError::NameTaken),
            r is Err ==> final(self)@ == old(self)@,
            !(persona.kind == PersonaKind::User && spec_has_user(old(self).personas@)) && !spec_name_taken(
                old(self).personas@,
                persona.name@,
                None,
            ) ==> r is Ok,
            r matches Ok(p) ==> {
                &&& p@ == spec_stored_persona(persona@, p.id@)
                &&& spec_usable_id(p.id@)
                &&& spec_id_kept(persona.id@, first_index(old(self).personas@, persona_with_id(persona.id@)) >= 0)
                    ==> p.id@ == persona.id@
                &&& final(self).personas@.drop_last() == old(self).personas@
                &&& final(self).personas@.len() == old(self).personas@.len() + 1
                &&& final(self).personas@.last()@ == p@
                &&& final(self)@ == (WorkspaceView { personas: final(self)@.personas, ..old(self)@ })
            },
            // Names stay unique and there is never a second user identity.
            spec_names_unique(old(self).personas@) ==> spec_names_unique(final(self).personas@),
            spec_at_most_one_user(old(self).personas@) ==> spec_at_most_one_user(final(self).personas@),
    {
        if persona.kind == PersonaKind::User && self.user_exists(None) {
            return Err(PersonaError::UserExists);
        }
        if self.name_taken(persona.name.as_str(), None) {
            return Err(PersonaError::NameTaken);
        }
        let mut persona = persona;
        let taken = find_persona(&self.personas, &persona.id).is_some();
        persona.id = resolve_id(persona.id, taken);
        persona.refresh_prompt_hash();
        let r = persona.copy();
        let ghost before = self.personas@;
        self.personas.push(persona);
        proof {
            let after = self.personas@;
            let n = before.len() as int;
            assert forall|i: int, j: int|
                0 <= i < after.len() && 0 <= j < after.len() && i != j && spec_names_unique(before)
                implies !spec_same_name((#[trigger] after[i]).name@, (#[trigger] after[j]).name@) by {
                if i == n {
                    assert(after[j] == before[j]);
                    assert(Some(before[j].id@) != None::<Seq<char>>);
                } else if j == n {
                    assert(after[i] == before[i]);
                    assert(Some(before[i].id@) != None::<Seq<char>>);
                } else {
                    assert(after[i] == before[i]);
                    assert(after[j] == before[j]);
                }
            }
            assert forall|i: int, j: int|
                0 <= i < after.len() && 0 <= j < after.len() && i != j && spec_at_most_one_user(before)
                implies !((#[trigger] after[i]).kind == PersonaKind::User && (#[trigger] after[j]).kind
                == PersonaKind::User) by {
                if i == n {
                    assert(after[j] == before[j]);
                } else if j == n {
                    assert(after[i] == before[i]);
                } else {
                    assert(after[i] == before[i]);
                    assert(after[j] == before[j]);
                }
            }
        }
        Ok(r)
    }
}

/// No two personas share an id.
pub open spec fn spec_ids_unique(personas: Seq<Persona>) -> bool {
    forall|i: int, j: int|
        0 <= i < personas.len() && 0 <= j < personas.len() && i != j ==> (#[trigger] personas[i]).id@
            != (#[trigger] personas[j]).id@
}

/// Whether a persona is a user identity.
pub open spec fn is_user() -> spec_fn(Persona) -> bool {
    |p: Persona| p.kind == PersonaKind::User
}

/// `h` is group `g` with persona `id` dropped from its members, and its
/// "you" repointed to `fallback` (when there is one) if it was `id`.
pub open spec fn spec_detached(g: Group, h: Group, id: Seq<char>, fallback: Option<Seq<char>>) -> bool {
    &&& h.id == g.id
    &&& h.name == g.name
    &&& h.persona_ids@ == keep(g.persona_ids@, |s: String| s@ != id)
    &&& h.self_persona_id@ == if g.self_persona_id@ == id && fallback is Some {
        fallback->0
    } else {
        g.self_persona_id@
    }
}

impl Workspace {
    /// The number of user identities is at most one.
    fn at_most_one_user(&self) -> (r: bool)
        ensures
            r == (keep(self.personas@, is_user()).len() <= 1),
    {
        let mut n: usize = 0;
        let mut i: usize = 0;
        while i < self.personas.len()
            invariant
                i <= self.personas@.len(),
                n == keep(self.personas@.subrange(0, i as int), is_user()).len(),
                n <= 1,
            decreases self.personas@.len() - i,
        {
            proof {
                assert(self.personas@.subrange(0, i + 1) =~= self.personas@.subrange(0, i as int).push(self.personas@[i as int]));
                lemma_keep_push(self.personas@.subrange(0, i as int), self.personas@[i as int], is_user());
            }
            if self.personas[i].kind == PersonaKind::User {
                n = n + 1;
                if n == 2 {
                    proof {
                        lemma_keep_len_grows(self.personas@, i + 1, is_user());
                    }
                    return false;
                }
            }
            i = i + 1;
        }
        assert(self.personas@.subrange(0, i as int) =~= self.personas@);
        true
    }

    /// Applies an already-merged update to the persona with id `id`: its id is
    /// kept and its identity hash recomputed. Refuses an unknown id, a name
    /// another persona uses, a second user identity, and turning the last user
    /// identity into an AI persona (there is always one "you").
    #[verifier::spinoff_prover]
    #[verifier::rlimit(60)]
    pub fn update_persona(&mut self, id: &str, updated: Persona) -> (r: Result<Persona, PersonaError>)
        ensures
            ({
                let i = first_index(old(self).personas@, persona_with_id(id@));
                let taken = spec_name_taken(old(self).personas@, updated.name@, Some(id@));
                let second_user = updated.kind == PersonaKind::User && spec_other_user(old(self).personas@, id@);
                let last_user = old(self).personas@[i].kind == PersonaKind::User && updated.kind != PersonaKind::User
                    && !spec_other_user(old(self).personas@, id@);
                &&& i == -1 ==> r == Err::<Persona, PersonaError>(PersonaError::NotFound)
                &&& i >= 0 && taken ==> r == Err::<Persona, PersonaError>(PersonaError::NameTaken)
                &&& i >= 0 && !taken && second_user ==> r == Err::<Persona, PersonaError>(PersonaError::UserExists)
                &&& i >= 0 && !taken && last_user ==> r == Err::<Persona, PersonaError>(PersonaError::LastUser)
                &&& i >= 0 && !taken && !second_user && !last_user ==> r is Ok
                &&& r is Err ==> final(self)@ == old(self)@
                &&& r matches Ok(p) ==> {
                    &&& 0 <= i < old(self).personas@.len()
                    &&& p@ == spec_stored_persona(updated@, id@)
                    &&& final(self).personas@ == old(self).personas@.update(i, final(self).personas@[i])
                    &&& final(self).personas@[i]@ == p@
                    &&& final(self)@ == (WorkspaceView { personas: final(self)@.personas, ..old(self)@ })
                }
            }),
            // With distinct ids, names stay unique and there is never a second user.
            spec_ids_unique(old(self).personas@) && spec_names_unique(old(self).personas@)
                ==> spec_names_unique(final(self).personas@),
            spec_ids_unique(old(self).personas@) && spec_at_most_one_user(old(self).personas@)
                ==> spec_at_most_one_user(final(self).personas@),
            // With distinct ids, there is exactly one user before and after.
            spec_ids_unique(old(self).personas@) && spec_exactly_one_user(old(self).personas@)
                ==> spec_exactly_one_user(final(self).personas@),
    {
        let key = String::from_str(id);
        let i = match find_persona(&self.personas, &key) {
            None => return Err(PersonaError::NotFound),
            Some(i) => i,
        };
        proof {
            lemma_first_index(self.personas@, persona_with_id(id@));
        }
        let mut u = updated;
        u.id = key.clone();
        u.refresh_prompt_hash();
        if self.name_taken(u.name.as_str(), Some(id)) {
            return Err(PersonaError::NameTaken);
        }
        if u.kind == PersonaKind::User && self.user_exists(Some(&key)) {
            return Err(PersonaError::UserExists);
        }
        if u.kind != PersonaKind::User && self.personas[i].kind == PersonaKind::User && !self.user_exists(
            Some(&key),
        ) {
            return Err(PersonaError::LastUser);
        }
        let r = u.copy();
        let ghost before = self.personas@;
        self.personas.set(i, u);
        proof {
            let after = self.personas@;
            let ii = i as int;
            assert(before[ii].id@ == id@);
            assert(after =~= before.update(ii, after[ii]));
            if spec_ids_unique(before) && spec_names_unique(before) {
                lemma_update_keeps_names_unique(before, ii, id@, after[ii]);
            }
            if spec_ids_unique(before) && spec_at_most_one_user(before) {
                lemma_update_keeps_at_most_one_user(before, ii, id@, after[ii]);
            }
            if spec_ids_unique(before) && spec_exactly_one_user(before) {
                lemma_update_keeps_one_user(before, ii, id@, after[ii]);
            }
        }
        Ok(r)
    }

    /// Deletes a persona, unless it is the last user identity. Its memories go
    /// with it; groups drop it from their members and repoint a "you" that was
    /// this persona to another user identity.
    pub fn delete_persona(&mut self, id: &str) -> (r: bool)
        ensures
            ({
                let i = first_index(old(self).personas@, persona_with_id(id@));
                let fb = first_index(old(self).personas@, |p: Persona| p.kind == PersonaKind::User && p.id@ != id@);
                let fallback = if fb >= 0 {
                    Some(old(self).personas@[fb].id@)
                } else {
                    None
                };
                &&& r == (i >= 0 && !(old(self).personas@[i].kind == PersonaKind::User
                    && keep(old(self).personas@, is_user()).len() <= 1))
                &&& !r ==> final(self)@ == old(self)@
                &&& r ==> {
                    &&& final(self).personas@ == keep(old(self).personas@, |p: Persona| p.id@ != id@)
                    &&& final(self).memories@ == keep(old(self).memories@, |m: Memory| m.persona_id@ != id@)
                    &&& final(self).groups@.len() == old(self).groups@.len()
                    &&& forall|k: int|
                        0 <= k < old(self).groups@.len() ==> spec_detached(
                            old(self).groups@[k],
                            #[trigger] final(self).groups@[k],
                            id@,
                            fallback,
                        )
                    &&& final(self)@ == (WorkspaceView {
                        personas: final(self)@.personas,
                        memories: final(self)@.memories,
                        groups: final(self)@.groups,
                        ..old(self)@
                    })
                }
            }),
            // With distinct ids, a user identity always survives.
            spec_ids_unique(old(self).personas@) && spec_has_user(old(self).personas@) ==> spec_has_user(
                final(self).personas@,
            ),
    {
        let key = String::from_str(id);
        let i = match find_persona(&self.personas, &key) {
            None => return false,
            Some(i) => i,
        };
        proof {
            lemma_first_index(self.personas@, persona_with_id(id@));
        }
        if self.personas[i].kind == PersonaKind::User && self.at_most_one_user() {
            return false;
        }
        let ghost fpred = |p: Persona| p.kind == PersonaKind::User && p.id@ != key@;
        let fb = find_where(
            &self.personas,
            (|p: &Persona| -> (b: bool)
                ensures
                    b == (p.kind == PersonaKind::User && p.id@ != key@),
                { p.kind == PersonaKind::User && p.id != key }),
            Ghost(fpred),
        );
        let fallback: Option<String> = match fb {
            Some(j) => Some(self.personas[j].id.clone()),
            None => None,
        };
        let ghost fbv = opt_view(fallback);
        let ghost before = self.personas@;
        retain_where(
            &mut self.personas,
            (|p: &Persona| -> (b: bool)
                ensures
                    b == (p.id@ != key@),
                { p.id != key }),
            Ghost(|p: Persona| p.id@ != key@),
        );
        retain_where(
            &mut self.memories,
            (|m: &Memory| -> (b: bool)
                ensures
                    b == (m.persona_id@ != key@),
                { m.persona_id != key }),
            Ghost(|m: Memory| m.persona_id@ != key@),
        );
        map_in_place(
            &mut self.groups,
            (|g: Group| -> (h: Group)
                ensures
                    spec_detached(g, h, key@, fbv),
                {
                    let mut g = g;
                    retain_where(
                        &mut g.persona_ids,
                        (|pid: &String| -> (b: bool)
                            ensures
                                b == (pid@ != key@),
                            { *pid != key }),
                        Ghost(|s: String| s@ != key@),
                    );
                    if g.self_persona_id == key {
                        match &fallback {
                            Some(f) => {
                                g.self_persona_id = f.clone();
                            },
                            None => {},
                        }
                    }
                    g
                }),
            Ghost(|g: Group, h: Group| spec_detached(g, h, key@, fbv)),
        );
        proof {
            let ii = i as int;
            assert(before[ii].id@ == key@);
            if spec_ids_unique(before) && spec_has_user(before) {
                let w: int = if before[ii].kind != PersonaKind::User {
                    choose|w: int| 0 <= w < before.len() && (#[trigger] before[w]).kind == PersonaKind::User
                } else {
                    if !(exists|j: int| 0 <= j < before.len() && j != ii && (#[trigger] before[j]).kind == PersonaKind::User) {
                        lemma_keep_at_most_one(before, is_user(), ii);
                    }
                    choose|j: int| 0 <= j < before.len() && j != ii && (#[trigger] before[j]).kind == PersonaKind::User
                };
                assert(before[w].id@ != key@);
                assert(before.contains(before[w]));
                lemma_keep_complete(before, |p: Persona| p.id@ != key@, before[w]);
                let after = self.personas@;
                let v = choose|v: int| 0 <= v < after.len() && after[v] == before[w];
                assert(after[v].kind == PersonaKind::User);
            }
        }
        true
    }
}

/// `keep` is empty when nothing satisfies `f`.
pub proof fn lemma_keep_none<T>(s: Seq<T>, f: spec_fn(T) -> bool)
    requires
        forall|j: int| 0 <= j < s.len() ==> !f(#[trigger] s[j]),
    ensures
        keep(s, f).len() == 0,
    decreases s.len(),
{
    if s.len() > 0 {
        assert forall|j: int| 0 <= j < s.drop_first().len() implies !f(#[trigger] s.drop_first()[j]) by {
            assert(s.drop_first()[j] == s[j + 1]);
        }
        lemma_keep_none(s.drop_first(), f);
    }
}

/// `keep` holds at most one element when only index `i` may satisfy `f`.
pub proof fn lemma_keep_at_most_one<T>(s: Seq<T>, f: spec_fn(T) -> bool, i: int)
    requires
        forall|j: int| 0 <= j < s.len() && j != i ==> !f(#[trigger] s[j]),
    ensures
        keep(s, f).len() <= 1,
    decreases s.len(),
{
    if s.len() > 0 {
        let t = s.drop_first();
        if i == 0 {
            assert forall|j: int| 0 <= j < t.len() implies !f(#[trigger] t[j]) by {
                assert(t[j] == s[j + 1]);
            }
            lemma_keep_none(t, f);
        } else {
            assert forall|j: int| 0 <= j < t.len() && j != i - 1 implies !f(#[trigger] t[j]) by {
                assert(t[j] == s[j + 1]);
            }
            lemma_keep_at_most_one(t, f, i - 1);
        }
    }
}

/// Two names clash symmetrically.
pub proof fn lemma_same_name_symmetric(a: Seq<char>, b: Seq<char>)
    ensures
        spec_same_name(a, b) == spec_same_name(b, a),
{
}

/// Once `keep` over a prefix reaches a length, it has it over the whole.
pub proof fn lemma_keep_len_grows<T>(s: Seq<T>, n: int, f: spec_fn(T) -> bool)
    requires
        0 <= n <= s.len(),
    ensures
        keep(s.subrange(0, n), f).len() <= keep(s, f).len(),
    decreases s.len() - n,
{
    if n < s.len() {
        assert(s.subrange(0, n + 1) =~= s.subrange(0, n).push(s[n]));
        lemma_keep_push(s.subrange(0, n), s[n], f);
        lemma_keep_len_grows(s, n + 1, f);
    } else {
        assert(s.subrange(0, n) =~= s);
    }
}

// --- Memories -----------------------------------------------------------------

/// Inserts a memory into a newest-first list, after every memory at least as
/// new (so equal times keep their order).
pub open spec fn spec_insert_newest(sorted: Seq<Memory>, m: Memory) -> Seq<Memory>
    decreases sorted.len(),
{
    if sorted.len() == 0 {
        seq![m]
    } else if sorted[0].created_at < m.created_at {
        seq![m] + sorted
    } else {
        seq![sorted[0]] + spec_insert_newest(sorted.drop_first(), m)
    }
}

/// The memories newest first, a stable sort on `created_at` (descending).
pub open spec fn spec_newest_first(s: Seq<Memory>) -> Seq<Memory>
    decreases s.len(),
{
    if s.len() == 0 {
        s
    } else {
        spec_insert_newest(spec_newest_first(s.drop_last()), s.last())
    }
}

/// Newest first: no memory comes before a newer one.
pub open spec fn spec_sorted_newest(s: Seq<Memory>) -> bool {
    forall|i: int, j: int| 0 <= i < j < s.len() ==> (#[trigger] s[i]).created_at >= (#[trigger] s[j]).created_at
}

proof fn lemma_insert_newest(sorted: Seq<Memory>, m: Memory)
    requires
        spec_sorted_newest(sorted),
    ensures
        spec_sorted_newest(spec_insert_newest(sorted, m)),
        spec_insert_newest(sorted, m).to_multiset() == sorted.to_multiset().insert(m),
        spec_insert_newest(sorted, m).len() == sorted.len() + 1,
    decreases sorted.len(),
{
    broadcast use vstd::multiset::group_multiset_axioms;
    broadcast use vstd::seq_lib::group_to_multiset_ensures;
    let r = spec_insert_newest(sorted, m);
    if sorted.len() == 0 {
        assert(r =~= seq![m]);
        broadcast use vstd::seq_lib::group_to_multiset_ensures;
        assert(seq![m].to_multiset() =~= vstd::multiset::Multiset::<Memory>::empty().insert(m)) by {
            assert(seq![m] =~= Seq::<Memory>::empty().push(m));
            vstd::seq_lib::lemma_multiset_commutative(Seq::<Memory>::empty(), seq![m]);
        }
    } else if sorted[0].created_at < m.created_at {
        vstd::seq_lib::lemma_multiset_commutative(seq![m], sorted);
        assert(seq![m].to_multiset() =~= vstd::multiset::Multiset::<Memory>::empty().insert(m)) by {
            broadcast use vstd::seq_lib::group_to_multiset_ensures;
            assert(seq![m] =~= Seq::<Memory>::empty().push(m));
        }
        assert forall|i: int, j: int| 0 <= i < j < r.len() implies (#[trigger] r[i]).created_at >= (#[trigger] r[j]).created_at by {
            if i == 0 {
                assert(r[j] == sorted[j - 1]);
                if j - 1 > 0 {
                    assert(sorted[0].created_at >= sorted[j - 1].created_at);
                }
            } else {
                assert(r[i] == sorted[i - 1]);
                assert(r[j] == sorted[j - 1]);
            }
        }
    } else {
        let t = sorted.drop_first();
        assert forall|i: int, j: int| 0 <= i < j < t.len() implies (#[trigger] t[i]).created_at >= (#[trigger] t[j]).created_at by {
            assert(t[i] == sorted[i + 1]);
            assert(t[j] == sorted[j + 1]);
        }
        lemma_insert_newest(t, m);
        let rt = spec_insert_newest(t, m);
        vstd::seq_lib::lemma_multiset_commutative(seq![sorted[0]], rt);
        vstd::seq_lib::lemma_multiset_commutative(seq![sorted[0]], t);
        assert(seq![sorted[0]] + t =~= sorted);
        assert forall|i: int, j: int| 0 <= i < j < r.len() implies (#[trigger] r[i]).created_at >= (#[trigger] r[j]).created_at by {
            if i == 0 {
                assert(r[j] == rt[j - 1]);
                assert(rt.contains(rt[j - 1]));
                assert(rt.to_multiset().count(rt[j - 1]) > 0);
                if rt[j - 1] == m {
                } else {
                    assert(t.to_multiset().count(rt[j - 1]) > 0);
                    assert(t.contains(rt[j - 1]));
                    let w = choose|w: int| 0 <= w < t.len() && t[w] == rt[j - 1];
                    assert(sorted[w + 1] == t[w]);
                }
            } else {
                assert(r[i] == rt[i - 1]);
                assert(r[j] == rt[j - 1]);
            }
        }
        assert(sorted.to_multiset().insert(m) =~= seq![sorted[0]].to_multiset().add(t.to_multiset().insert(m)));
    }
}

/// Sorting newest first gives a sorted arrangement of the same memories.
pub proof fn lemma_newest_first(s: Seq<Memory>)
    ensures
        spec_sorted_newest(spec_newest_first(s)),
        spec_newest_first(s).to_multiset() == s.to_multiset(),
        spec_newest_first(s).len() == s.len(),
    decreases s.len(),
{
    broadcast use vstd::multiset::group_multiset_axioms;
    if s.len() > 0 {
        lemma_newest_first(s.drop_last());
        lemma_insert_newest(spec_newest_first(s.drop_last()), s.last());
        broadcast use vstd::seq_lib::group_to_multiset_ensures;
        assert(s.drop_last().push(s.last()) =~= s);
    } else {
        assert(spec_newest_first(s) =~= s);
    }
}

/// Every memory of a newest-first listing comes from the listed ones.
pub proof fn lemma_newest_first_from(s: Seq<Memory>, k: int)
    requires
        0 <= k < spec_newest_first(s).len(),
    ensures
        s.contains(spec_newest_first(s)[k]),
{
    broadcast use vstd::multiset::group_multiset_axioms;
    lemma_newest_first(s);
    let r = spec_newest_first(s);
    broadcast use vstd::seq_lib::group_to_multiset_ensures;
    assert(r.to_multiset().count(r[k]) > 0);
    assert(s.to_multiset().count(r[k]) > 0);
}

fn insert_newest(sorted: &mut Vec<Memory>, m: Memory)
    ensures
        final(sorted)@ == spec_insert_newest(old(sorted)@, m),
{
    let ghost orig = sorted@;
    let mut pos: usize = 0;
    assert(orig.subrange(0, 0) + spec_insert_newest(orig.subrange(0, orig.len() as int), m) =~= spec_insert_newest(orig, m)) by {
        assert(orig.subrange(0, orig.len() as int) =~= orig);
    }
    while pos < sorted.len() && !(sorted[pos].created_at < m.created_at)
        invariant
            sorted@ == orig,
            pos <= orig.len(),
            orig.subrange(0, pos as int) + spec_insert_newest(orig.subrange(pos as int, orig.len() as int), m)
                == spec_insert_newest(orig, m),
        decreases orig.len() - pos,
    {
        let ghost rest = orig.subrange(pos as int, orig.len() as int);
        assert(rest[0] == orig[pos as int]);
        assert(rest.drop_first() =~= orig.subrange(pos + 1, orig.len() as int));
        assert(orig.subrange(0, pos + 1) =~= orig.subrange(0, pos as int) + seq![rest[0]]);
        pos = pos + 1;
    }
    proof {
        let rest = orig.subrange(pos as int, orig.len() as int);
        if pos < orig.len() {
            assert(rest[0] == orig[pos as int]);
        }
        assert(spec_insert_newest(rest, m) == seq![m] + rest);
    }
    sorted.insert(pos, m);
    assert(sorted@ =~= orig.subrange(0, pos as int) + (seq![m] + orig.subrange(pos as int, orig.len() as int)));
}

/// The memories of `v` that satisfy `pred`, newest first.
fn select_newest<F: Fn(&Memory) -> bool>(v: &Vec<Memory>, f: F, Ghost(pred): Ghost<spec_fn(Memory) -> bool>) -> (r: Vec<Memory>)
    requires
        forall|x: &Memory| #[trigger] f.requires((x,)),
        forall|x: &Memory, b: bool| f.ensures((x,), b) ==> b == pred(*x),
    ensures
        r@ == spec_newest_first(keep(v@, pred)),
{
    let mut out: Vec<Memory> = Vec::new();
    let mut i: usize = 0;
    while i < v.len()
        invariant
            forall|x: &Memory| #[trigger] f.requires((x,)),
            forall|x: &Memory, b: bool| f.ensures((x,), b) ==> b == pred(*x),
            i <= v@.len(),
            out@ == spec_newest_first(keep(v@.subrange(0, i as int), pred)),
        decreases v@.len() - i,
    {
        proof {
            assert(v@.subrange(0, i + 1) =~= v@.subrange(0, i as int).push(v@[i as int]));
            lemma_keep_push(v@.subrange(0, i as int), v@[i as int], pred);
        }
        if f(&v[i]) {
            let m = v[i].copy();
            let ghost k = keep(v@.subrange(0, i as int), pred);
            assert(k.push(m).drop_last() =~= k);
            insert_newest(&mut out, m);
        }
        i = i + 1;
    }
    assert(v@.subrange(0, v@.len() as int) =~= v@);
    out
}

/// A persona's current identity hash: that of the first persona with the id.
pub open spec fn spec_persona_hash(personas: Seq<Persona>, id: Seq<char>) -> Option<Seq<char>> {
    let i = first_index(personas, persona_with_id(id));
    if i < 0 {
        None
    } else {
        opt_view(personas[i].prompt_hash)
    }
}

impl Workspace {
    /// A persona's current identity hash, if it has a prompt: the scope key
    /// for its memories.
    fn persona_hash(&self, persona_id: &str) -> (r: Option<String>)
        ensures
            opt_view(r) == spec_persona_hash(self.personas@, persona_id@),
    {
        let key = String::from_str(persona_id);
        match find_persona(&self.personas, &key) {
            None => None,
            Some(i) => copy_opt_string(&self.personas[i].prompt_hash),
        }
    }

    /// Every memory a persona has accumulated, across all of its identity
    /// versions, newest first.
    pub fn persona_memories(&self, persona_id: &str) -> (r: Vec<Memory>)
        ensures
            r@ == spec_newest_first(keep(self.memories@, |m: Memory| m.persona_id@ == persona_id@)),
    {
        let key = String::from_str(persona_id);
        select_newest(
            &self.memories,
            (|m: &Memory| -> (b: bool)
                ensures
                    b == (m.persona_id@ == key@),
                { m.persona_id == key }),
            Ghost(|m: Memory| m.persona_id@ == key@),
        )
    }

    /// The memories a persona may recall now: only those written under its
    /// current identity hash, newest first; nothing for a persona without one.
    pub fn recallable_memories(&self, persona_id: &str) -> (r: Vec<Memory>)
        ensures
            match spec_persona_hash(self.personas@, persona_id@) {
                None => r@.len() == 0,
                Some(h) => r@ == spec_newest_first(
                    keep(self.memories@, |m: Memory| m.persona_id@ == persona_id@ && m.prompt_hash@ == h),
                ),
            },
            // Recall never reaches past the persona's current identity.
            forall|k: int|
                0 <= k < r@.len() ==> (#[trigger] r@[k]).persona_id@ == persona_id@ && Some(r@[k].prompt_hash@)
                    == spec_persona_hash(self.personas@, persona_id@),
    {
        let hash = match self.persona_hash(persona_id) {
            None => return Vec::new(),
            Some(h) => h,
        };
        let key = String::from_str(persona_id);
        let ghost pred = |m: Memory| m.persona_id@ == key@ && m.prompt_hash@ == hash@;
        let r = select_newest(
            &self.memories,
            (|m: &Memory| -> (b: bool)
                ensures
                    b == (m.persona_id@ == key@ && m.prompt_hash@ == hash@),
                { m.persona_id == key && m.prompt_hash == hash }),
            Ghost(pred),
        );
        proof {
            let kept = keep(self.memories@, pred);
            let h = spec_persona_hash(self.personas@, persona_id@)->0;
            assert(h == hash@);
            assert(pred =~= (|m: Memory| m.persona_id@ == persona_id@ && m.prompt_hash@ == h));
            lemma_keep_sound(self.memories@, pred);
            assert forall|k: int| 0 <= k < r@.len() implies (#[trigger] r@[k]).persona_id@ == persona_id@ && Some(r@[k].prompt_hash@)
                == spec_persona_hash(self.personas@, persona_id@) by {
                lemma_newest_first_from(kept, k);
                let w = choose|w: int| 0 <= w < kept.len() && kept[w] == r@[k];
                assert(pred(kept[w]));
            }
        }
        r
    }

    /// Records a memory for a persona, stamped with its current identity hash,
    /// a fresh id and the current time. `None` when the trimmed content is
    /// blank or the persona is unknown or has no prompt.
    pub fn add_memory(&mut self, persona_id: &str, content: &str) -> (r: Option<Memory>)
        ensures
            (spec_trim(content@).len() == 0 || spec_persona_hash(old(self).personas@, persona_id@) is None)
                <==> r is None,
            r is None ==> final(self)@ == old(self)@,
            r matches Some(m) ==> {
                &&& m.persona_id@ == persona_id@
                &&& Some(m.prompt_hash@) == spec_persona_hash(old(self).personas@, persona_id@)
                &&& m.content@ == spec_trim(content@)
                &&& spec_usable_id(m.id@)
                &&& final(self).memories@ == old(self).memories@.push(m)
                &&& final(self)@ == (WorkspaceView { memories: final(self)@.memories, ..old(self)@ })
            },
    {
        let text = trim(content);
        if text.unicode_len() == 0 {
            return None;
        }
        let prompt_hash = match self.persona_hash(persona_id) {
            None => return None,
            Some(h) => h,
        };
        let id = fresh_id();
        let memory = Memory {
            id,
            persona_id: String::from_str(persona_id),
            prompt_hash,
            content: text,
            created_at: crate::models::now_ms(),
        };
        let r = memory.copy();
        self.memories.push(memory);
        Some(r)
    }

    /// Deletes one of a persona's memories by id (only that persona's), and
    /// says whether one was removed.
    pub fn delete_memory(&mut self, persona_id: &str, memory_id: &str) -> (r: bool)
        ensures
            final(self).memories@ == keep(old(self).memories@, |m: Memory| !(m.id@ == memory_id@ && m.persona_id@ == persona_id@)),
            r == exists|j: int| 0 <= j < old(self).memories@.len() && (#[trigger] old(self).memories@[j]).id@ == memory_id@
                && old(self).memories@[j].persona_id@ == persona_id@,
            final(self)@ == (WorkspaceView { memories: final(self)@.memories, ..old(self)@ }),
    {
        let pid = String::from_str(persona_id);
        let mid = String::from_str(memory_id);
        let before = self.memories.len();
        let ghost pred = |m: Memory| !(m.id@ == mid@ && m.persona_id@ == pid@);
        retain_where(
            &mut self.memories,
            (|m: &Memory| -> (b: bool)
                ensures
                    b == !(m.id@ == mid@ && m.persona_id@ == pid@),
                { !(m.id == mid && m.persona_id == pid) }),
            Ghost(pred),
        );
        proof {
            lemma_keep_len(old(self).memories@, pred);
        }
        self.memories.len() != before
    }
}

/// `keep` drops something exactly when some element fails `f`.
pub proof fn lemma_keep_len<T>(s: Seq<T>, f: spec_fn(T) -> bool)
    ensures
        (keep(s, f).len() == s.len()) <==> (forall|j: int| 0 <= j < s.len() ==> f(#[trigger] s[j])),
        keep(s, f).len() <= s.len(),
    decreases s.len(),
{
    if s.len() > 0 {
        let t = s.drop_first();
        lemma_keep_len(t, f);
        if forall|j: int| 0 <= j < t.len() ==> f(#[trigger] t[j]) {
            if f(s[0]) {
                assert forall|j: int| 0 <= j < s.len() implies f(#[trigger] s[j]) by {
                    if j > 0 {
                        assert(s[j] == t[j - 1]);
                    }
                }
            }
        } else {
            let w = choose|w: int| 0 <= w < t.len() && !f(#[trigger] t[w]);
            assert(s[w + 1] == t[w]);
        }
    }
}

// --- Prompt identity labels ---------------------------------------------------

/// Whether a label entry is for hash `h`.
pub open spec fn label_for(h: Seq<char>) -> spec_fn(PromptLabel) -> bool {
    |l: PromptLabel| l.hash@ == h
}

/// The label named for identity hash `h`, if any.
pub open spec fn spec_label_of(labels: Seq<PromptLabel>, h: Seq<char>) -> Option<Seq<char>> {
    let i = first_index(labels, label_for(h));
    if i < 0 {
        None
    } else {
        Some(labels[i].label@)
    }
}

/// In a sorted label list, an entry's label is what its hash looks up.
proof fn lemma_label_of_sorted(s: Seq<PromptLabel>, i: int)
    requires
        spec_labels_sorted(s),
        0 <= i < s.len(),
    ensures
        spec_label_of(s, s[i].hash@) == Some(s[i].label@),
{
    let f = label_for(s[i].hash@);
    lemma_first_index(s, f);
    let fi = first_index(s, f);
    assert(f(s[i]));
    if fi != i {
        if fi < i {
            crate::text::lemma_lex_irreflexive(s[i].hash@);
            assert(crate::text::spec_lex_lt(s[fi].hash@, s[i].hash@));
        }
    }
}

/// A hash no entry of the list carries looks up nothing.
proof fn lemma_label_of_absent(s: Seq<PromptLabel>, h: Seq<char>)
    requires
        forall|j: int| 0 <= j < s.len() ==> (#[trigger] s[j]).hash@ != h,
    ensures
        spec_label_of(s, h) is None,
{
    let f = label_for(h);
    lemma_first_index(s, f);
    if first_index(s, f) >= 0 {
        assert(f(s[first_index(s, f)]));
    }
}

/// Whether the sorted list holds an entry for `h`, from the lookup.
proof fn lemma_label_of_found(s: Seq<PromptLabel>, h: Seq<char>)
    ensures
        spec_label_of(s, h) is Some ==> exists|j: int| 0 <= j < s.len() && (#[trigger] s[j]).hash@ == h && spec_label_of(s, h) == Some(s[j].label@),
{
    let f = label_for(h);
    lemma_first_index(s, f);
    if first_index(s, f) >= 0 {
        assert(f(s[first_index(s, f)]));
    }
}

impl Workspace {
    /// The position of `h` in the sorted labels: the count of smaller hashes.
    fn label_pos(&self, h: &String) -> (pos: usize)
        requires
            self.wf(),
        ensures
            pos <= self.prompt_labels@.len(),
            forall|j: int| 0 <= j < pos ==> crate::text::spec_lex_lt((#[trigger] self.prompt_labels@[j]).hash@, h@),
            pos < self.prompt_labels@.len() ==> !crate::text::spec_lex_lt(self.prompt_labels@[pos as int].hash@, h@),
    {
        let mut pos: usize = 0;
        while pos < self.prompt_labels.len() && crate::text::lex_lt(
            self.prompt_labels[pos].hash.as_str(),
            h.as_str(),
        )
            invariant
                pos <= self.prompt_labels@.len(),
                forall|j: int| 0 <= j < pos ==> crate::text::spec_lex_lt((#[trigger] self.prompt_labels@[j]).hash@, h@),
            decreases self.prompt_labels@.len() - pos,
        {
            pos = pos + 1;
        }
        pos
    }

    /// Names identity hash `h` (replacing an earlier name), keeping the list
    /// sorted.
    fn put_label(&mut self, h: String, label: String)
        requires
            old(self).wf(),
        ensures
            final(self).wf(),
            forall|k: Seq<char>|
                #[trigger] spec_label_of(final(self).prompt_labels@, k) == if k == h@ {
                    Some(label@)
                } else {
                    spec_label_of(old(self).prompt_labels@, k)
                },
            final(self)@ == (WorkspaceView { prompt_labels: final(self)@.prompt_labels, ..old(self)@ }),
    {
        let pos = self.label_pos(&h);
        let ghost s = self.prompt_labels@;
        let ghost hv = h@;
        let ghost lv = label@;
        let replace = pos < self.prompt_labels.len() && self.prompt_labels[pos].hash == h;
        if replace {
            self.prompt_labels.set(pos, PromptLabel { hash: h, label });
        } else {
            self.prompt_labels.insert(pos, PromptLabel { hash: h, label });
        }
        proof {
            let t = self.prompt_labels@;
            let p = pos as int;
            // every later entry sorts after h
            assert forall|j: int| p <= j < s.len() && !(replace && j == p) implies crate::text::spec_lex_lt(hv, #[trigger] s[j].hash@) by {
                if replace {
                    assert(crate::text::spec_lex_lt(s[p].hash@, s[j].hash@));
                } else {
                    crate::text::lemma_lex_total(s[p].hash@, hv);
                    assert(crate::text::spec_lex_lt(hv, s[p].hash@));
                    if j > p {
                        crate::text::lemma_lex_transitive(hv, s[p].hash@, s[j].hash@);
                    }
                }
            }
            assert forall|a: int, b: int| 0 <= a < b < t.len() implies crate::text::spec_lex_lt(
                #[trigger] t[a].hash@,
                #[trigger] t[b].hash@,
            ) by {
                if replace {
                    if a == p {
                        assert(t[b] == s[b]);
                    } else if b == p {
                        assert(t[a] == s[a]);
                    } else {
                        assert(t[a] == s[a]);
                        assert(t[b] == s[b]);
                    }
                } else {
                    if a < p && b < p {
                        assert(t[a] == s[a]);
                        assert(t[b] == s[b]);
                    } else if a < p && b == p {
                        assert(t[a] == s[a]);
                    } else if a < p {
                        assert(t[a] == s[a]);
                        assert(t[b] == s[b - 1]);
                        crate::text::lemma_lex_transitive(s[a].hash@, hv, s[b - 1].hash@);
                    } else if a == p {
                        assert(t[b] == s[b - 1]);
                    } else {
                        assert(t[a] == s[a - 1]);
                        assert(t[b] == s[b - 1]);
                    }
                }
            }
            assert forall|k: Seq<char>| #[trigger] spec_label_of(t, k) == if k == hv {
                Some(lv)
            } else {
                spec_label_of(s, k)
            } by {
                if k == hv {
                    assert(t[p].hash@ == hv);
                    lemma_label_of_sorted(t, p);
                } else {
                    lemma_label_of_found(s, k);
                    lemma_label_of_found(t, k);
                    if spec_label_of(s, k) is Some {
                        let j = choose|j: int| 0 <= j < s.len() && (#[trigger] s[j]).hash@ == k && spec_label_of(s, k) == Some(s[j].label@);
                        let jj = if replace || j < p { j } else { j + 1 };
                        assert(t[jj] == s[j]);
                        lemma_label_of_sorted(t, jj);
                    } else if spec_label_of(t, k) is Some {
                        let j = choose|j: int| 0 <= j < t.len() && (#[trigger] t[j]).hash@ == k && spec_label_of(t, k) == Some(t[j].label@);
                        let jj = if replace || j < p { j } else { j - 1 };
                        assert(s[jj] == t[j]);
                        lemma_label_of_sorted(s, jj);
                    }
                }
            }
        }
    }

    /// Clears the name of identity hash `h`, keeping the list sorted.
    fn remove_label(&mut self, h: &String)
        requires
            old(self).wf(),
        ensures
            final(self).wf(),
            forall|k: Seq<char>|
                #[trigger] spec_label_of(final(self).prompt_labels@, k) == if k == h@ {
                    None
                } else {
                    spec_label_of(old(self).prompt_labels@, k)
                },
            final(self)@ == (WorkspaceView { prompt_labels: final(self)@.prompt_labels, ..old(self)@ }),
    {
        let pos = self.label_pos(h);
        let ghost s = self.prompt_labels@;
        let found = pos < self.prompt_labels.len() && self.prompt_labels[pos].hash == *h;
        if found {
            self.prompt_labels.remove(pos);
        }
        proof {
            let t = self.prompt_labels@;
            let p = pos as int;
            assert forall|a: int, b: int| 0 <= a < b < t.len() implies crate::text::spec_lex_lt(
                #[trigger] t[a].hash@,
                #[trigger] t[b].hash@,
            ) by {
                if found {
                    let aa = if a < p { a } else { a + 1 };
                    let bb = if b < p { b } else { b + 1 };
                    assert(t[a] == s[aa]);
                    assert(t[b] == s[bb]);
                }
            }
            // no entry of the result carries h
            assert forall|j: int| 0 <= j < s.len() && !(found && j == p) implies (#[trigger] s[j]).hash@ != h@ by {
                if j < p {
                    crate::text::lemma_lex_irreflexive(h@);
                } else if j > p {
                    crate::text::lemma_lex_total(s[p].hash@, h@);
                    if !found {
                        crate::text::lemma_lex_transitive(h@, s[p].hash@, s[j].hash@);
                        crate::text::lemma_lex_irreflexive(h@);
                    } else {
                        crate::text::lemma_lex_irreflexive(h@);
                    }
                } else {
                    crate::text::lemma_lex_irreflexive(h@);
                }
            }
            assert forall|k: Seq<char>| #[trigger] spec_label_of(t, k) == if k == h@ {
                None
            } else {
                spec_label_of(s, k)
            } by {
                if k == h@ {
                    assert forall|j: int| 0 <= j < t.len() implies (#[trigger] t[j]).hash@ != h@ by {
                        let jj = if found && j >= p { j + 1 } else { j };
                        assert(t[j] == s[jj]);
                    }
                    lemma_label_of_absent(t, k);
                } else {
                    lemma_label_of_found(s, k);
                    lemma_label_of_found(t, k);
                    if spec_label_of(s, k) is Some {
                        let j = choose|j: int| 0 <= j < s.len() && (#[trigger] s[j]).hash@ == k && spec_label_of(s, k) == Some(s[j].label@);
                        if found {
                            assert(j != p);
                        }
                        let jj = if found && j > p { j - 1 } else { j };
                        assert(t[jj] == s[j]);
                        lemma_label_of_sorted(t, jj);
                    } else if spec_label_of(t, k) is Some {
                        let j = choose|j: int| 0 <= j < t.len() && (#[trigger] t[j]).hash@ == k && spec_label_of(t, k) == Some(t[j].label@);
                        let jj = if found && j >= p { j + 1 } else { j };
                        assert(s[jj] == t[j]);
                        lemma_label_of_sorted(s, jj);
                    }
                }
            }
        }
    }

    /// Every named identity hash, sorted by hash.
    pub fn prompt_labels(&self) -> (r: Vec<PromptLabel>)
        requires
            self.wf(),
        ensures
            r@ == self.prompt_labels@,
            spec_labels_sorted(r@),
    {
        let mut out: Vec<PromptLabel> = Vec::new();
        let mut i: usize = 0;
        while i < self.prompt_labels.len()
            invariant
                i <= self.prompt_labels@.len(),
                out@ == self.prompt_labels@.subrange(0, i as int),
            decreases self.prompt_labels@.len() - i,
        {
            let l = &self.prompt_labels[i];
            out.push(PromptLabel { hash: l.hash.clone(), label: l.label.clone() });
            i = i + 1;
        }
        assert(self.prompt_labels@.subrange(0, i as int) =~= self.prompt_labels@);
        out
    }

    /// Names an identity hash, or clears its name when `label` is blank
    /// (trimmed). Returns the resulting label, empty when cleared.
    pub fn set_prompt_label(&mut self, hash: &str, label: &str) -> (r: PromptLabel)
        requires
            old(self).wf(),
        ensures
            final(self).wf(),
            r.hash@ == hash@,
            r.label@ == spec_trim(label@),
            forall|k: Seq<char>|
                #[trigger] spec_label_of(final(self).prompt_labels@, k) == if k == hash@ {
                    if spec_trim(label@).len() == 0 {
                        None
                    } else {
                        Some(spec_trim(label@))
                    }
                } else {
                    spec_label_of(old(self).prompt_labels@, k)
                },
            final(self)@ == (WorkspaceView { prompt_labels: final(self)@.prompt_labels, ..old(self)@ }),
    {
        let text = trim(label);
        let h = String::from_str(hash);
        if text.unicode_len() == 0 {
            self.remove_label(&h);
        } else {
            self.put_label(h.clone(), text.clone());
        }
        PromptLabel { hash: h, label: text }
    }
}

// --- Groups and settings ---------------------------------------------------------

impl Workspace {
    /// Adds a group under its proposed id when usable and free, else under a
    /// fresh one; returns what was stored.
    pub fn create_group(&mut self, group: Group) -> (r: Group)
        ensures
            spec_id_kept(group.id@, first_index(old(self).groups@, group_with_id(group.id@)) >= 0)
                ==> r.id@ == group.id@,
            spec_usable_id(r.id@),
            r@ == (crate::models::GroupView { id: r.id@, ..group@ }),
            final(self).groups@.drop_last() == old(self).groups@,
            final(self).groups@.len() == old(self).groups@.len() + 1,
            final(self).groups@.last()@ == r@,
            final(self)@ == (WorkspaceView { groups: final(self)@.groups, ..old(self)@ }),
    {
        let mut group = group;
        let taken = find_group(&self.groups, &group.id).is_some();
        group.id = resolve_id(group.id, taken);
        let r = group.copy();
        self.groups.push(group);
        r
    }

    /// Replaces the group with id `id` by `updated` (keeping the id).
    pub fn update_group(&mut self, id: &str, updated: Group) -> (r: Result<Group, PatchError>)
        ensures
            ({
                let i = first_index(old(self).groups@, group_with_id(id@));
                match r {
                    Err(e) => e == PatchError::NotFound && i == -1 && final(self)@ == old(self)@,
                    Ok(g) => {
                        &&& 0 <= i < old(self).groups@.len()
                        &&& g@ == (crate::models::GroupView { id: id@, ..updated@ })
                        &&& final(self).groups@ == old(self).groups@.update(i, final(self).groups@[i])
                        &&& final(self).groups@[i]@ == g@
                        &&& final(self)@ == (WorkspaceView { groups: final(self)@.groups, ..old(self)@ })
                    },
                }
            }),
    {
        let key = String::from_str(id);
        match find_group(&self.groups, &key) {
            None => Err(PatchError::NotFound),
            Some(i) => {
                let mut u = updated;
                u.id = key;
                let r = u.copy();
                self.groups.set(i, u);
                Ok(r)
            },
        }
    }

    /// Removes every group with id `id`; says whether one was removed.
    pub fn delete_group(&mut self, id: &str) -> (r: bool)
        ensures
            final(self).groups@ == keep(old(self).groups@, |g: Group| g.id@ != id@),
            r == (first_index(old(self).groups@, group_with_id(id@)) >= 0),
            final(self)@ == (WorkspaceView { groups: final(self)@.groups, ..old(self)@ }),
    {
        let key = String::from_str(id);
        let before = self.groups.len();
        let ghost pred = |g: Group| g.id@ != key@;
        retain_where(
            &mut self.groups,
            (|g: &Group| -> (b: bool)
                ensures
                    b == (g.id@ != key@),
                { g.id != key }),
            Ghost(pred),
        );
        proof {
            lemma_keep_len(old(self).groups@, pred);
            lemma_first_index(old(self).groups@, group_with_id(id@));
            if first_index(old(self).groups@, group_with_id(id@)) >= 0 {
                assert(!pred(old(self).groups@[first_index(old(self).groups@, group_with_id(id@))]));
            }
        }
        self.groups.len() != before
    }

    /// Replaces the settings by an already-merged update (there is exactly one
    /// settings record, so this never fails).
    pub fn update_settings(&mut self, updated: Settings) -> (r: Result<Settings, PatchError>)
        ensures
            r == Ok::<Settings, PatchError>(updated),
            final(self)@ == (WorkspaceView { settings: updated, ..old(self)@ }),
    {
        let r = updated.copy();
        self.settings = updated;
        Ok(r)
    }
}

// --- Turn helpers ---------------------------------------------------------------

/// A roster entry as plain values: name, blurb, and whether it is "you".
pub open spec fn roster_view(m: RosterMember) -> (Seq<char>, Option<Seq<char>>, bool) {
    (m.name@, opt_view(m.blurb), m.is_self)
}

/// The roster entries as plain values.
pub open spec fn roster_views(s: Seq<RosterMember>) -> Seq<(Seq<char>, Option<Seq<char>>, bool)> {
    s.map_values(|m: RosterMember| roster_view(m))
}

/// The listed members after the "you" entry: each id once (skipping ids
/// already `seen`), for the personas that exist, in order.
pub open spec fn spec_roster_rest(pids: Seq<String>, seen: Seq<Seq<char>>, personas: Seq<Persona>) -> Seq<
    (Seq<char>, Option<Seq<char>>, bool),
>
    decreases pids.len(),
{
    if pids.len() == 0 {
        Seq::empty()
    } else if seen.contains(pids[0]@) {
        spec_roster_rest(pids.drop_first(), seen, personas)
    } else {
        let rest = spec_roster_rest(pids.drop_first(), seen.push(pids[0]@), personas);
        let i = first_index(personas, persona_with_id(pids[0]@));
        if i >= 0 {
            seq![(personas[i].name@, opt_view(personas[i].blurb), false)] + rest
        } else {
            rest
        }
    }
}

/// A group's roster: the user identity first (flagged), then the listed
/// members.
pub open spec fn spec_roster(g: Group, personas: Seq<Persona>) -> Seq<(Seq<char>, Option<Seq<char>>, bool)> {
    let me = first_index(personas, persona_with_id(g.self_persona_id@));
    if me >= 0 {
        seq![(personas[me].name@, opt_view(personas[me].blurb), true)] + spec_roster_rest(
            g.persona_ids@,
            seq![personas[me].id@],
            personas,
        )
    } else {
        spec_roster_rest(g.persona_ids@, Seq::empty(), personas)
    }
}

/// Whether `pid` is the id of some AI persona.
pub open spec fn is_ai_member(personas: Seq<Persona>) -> spec_fn(String) -> bool {
    |pid: String|
        exists|j: int|
            0 <= j < personas.len() && (#[trigger] personas[j]).kind == PersonaKind::Ai && personas[j].id@
                == pid@
}

fn is_ai_id(personas: &Vec<Persona>, pid: &String) -> (r: bool)
    ensures
        r == is_ai_member(personas@)(*pid),
{
    let mut i: usize = 0;
    while i < personas.len()
        invariant
            i <= personas@.len(),
            forall|j: int|
                0 <= j < i ==> !((#[trigger] personas@[j]).kind == PersonaKind::Ai && personas@[j].id@ == pid@),
        decreases personas@.len() - i,
    {
        if personas[i].kind == PersonaKind::Ai && personas[i].id == *pid {
            return true;
        }
        i = i + 1;
    }
    false
}

impl Workspace {
    /// The people in a group, the user identity first, with the name and
    /// blurb an agent needs. `None` for an unknown group.
    pub fn group_roster(&self, group_id: &str) -> (r: Option<Vec<RosterMember>>)
        ensures
            ({
                let gi = first_index(self.groups@, group_with_id(group_id@));
                &&& r is None <==> gi < 0
                &&& r matches Some(v) ==> roster_views(v@) == spec_roster(self.groups@[gi], self.personas@)
            }),
    {
        let key = String::from_str(group_id);
        let gi = match find_group(&self.groups, &key) {
            None => return None,
            Some(gi) => gi,
        };
        let group = &self.groups[gi];
        let mut members: Vec<RosterMember> = Vec::new();
        let mut seen: Vec<String> = Vec::new();
        match find_persona(&self.personas, &group.self_persona_id) {
            Some(mi) => {
                let me = &self.personas[mi];
                seen.push(me.id.clone());
                members.push(RosterMember { name: me.name.clone(), blurb: copy_opt_string(&me.blurb), is_self: true });
            },
            None => {},
        }
        let ghost full = spec_roster(*group, self.personas@);
        let ghost pids = group.persona_ids@;
        proof {
            assert(pids.subrange(0, pids.len() as int) =~= pids);
            assert(crate::text::views(seen@) =~= if first_index(self.personas@, persona_with_id(group.self_persona_id@)) >= 0 {
                seq![self.personas@[first_index(self.personas@, persona_with_id(group.self_persona_id@))].id@]
            } else {
                Seq::<Seq<char>>::empty()
            });
            if members@.len() == 1 {
                assert(roster_views(members@) + spec_roster_rest(pids, crate::text::views(seen@), self.personas@) =~= full);
            } else {
                assert(roster_views(members@) + spec_roster_rest(pids, crate::text::views(seen@), self.personas@) =~= full);
            }
        }
        let mut i: usize = 0;
        while i < group.persona_ids.len()
            invariant
                pids == group.persona_ids@,
                i <= pids.len(),
                roster_views(members@) + spec_roster_rest(pids.subrange(i as int, pids.len() as int), crate::text::views(seen@), self.personas@) == full,
            decreases pids.len() - i,
        {
            let pid = &group.persona_ids[i];
            let ghost rest = pids.subrange(i as int, pids.len() as int);
            proof {
                assert(rest[0] == pids[i as int]);
                assert(rest.drop_first() =~= pids.subrange(i + 1, pids.len() as int));
            }
            if !crate::text::contains_string(&seen, pid.as_str()) {
                let ghost seen_before = crate::text::views(seen@);
                seen.push(pid.clone());
                proof {
                    assert(crate::text::views(seen@) =~= seen_before.push(pid@));
                }
                match find_persona(&self.personas, pid) {
                    Some(pi) => {
                        let p = &self.personas[pi];
                        let ghost before = roster_views(members@);
                        members.push(RosterMember { name: p.name.clone(), blurb: copy_opt_string(&p.blurb), is_self: false });
                        proof {
                            assert(roster_views(members@) =~= before.push((p.name@, opt_view(p.blurb), false)));
                            let tail = spec_roster_rest(pids.subrange(i + 1, pids.len() as int), crate::text::views(seen@), self.personas@);
                            assert(before.push((p.name@, opt_view(p.blurb), false)) + tail =~= before + (seq![(p.name@, opt_view(p.blurb), false)] + tail));
                        }
                    },
                    None => {},
                }
            }
            i = i + 1;
        }
        proof {
            assert(pids.subrange(i as int, pids.len() as int) =~= Seq::<String>::empty());
            assert(roster_views(members@) + Seq::<(Seq<char>, Option<Seq<char>>, bool)>::empty() =~= roster_views(members@));
        }
        Some(members)
    }

    /// The user identity that authors outgoing messages in a group, plus the
    /// listed members that are AI personas. `None` for an unknown group.
    pub fn turn_members(&self, group_id: &str) -> (r: Option<(String, Vec<String>)>)
        ensures
            ({
                let gi = first_index(self.groups@, group_with_id(group_id@));
                &&& r is None <==> gi < 0
                &&& r matches Some((me, ai)) ==> {
                    &&& me == self.groups@[gi].self_persona_id
                    &&& ai@ == keep(self.groups@[gi].persona_ids@, is_ai_member(self.personas@))
                }
            }),
    {
        let key = String::from_str(group_id);
        let gi = match find_group(&self.groups, &key) {
            None => return None,
            Some(gi) => gi,
        };
        let group = &self.groups[gi];
        let mut ai = crate::models::copy_strings(&group.persona_ids);
        let personas = &self.personas;
        retain_where(
            &mut ai,
            (|pid: &String| -> (b: bool)
                ensures
                    b == is_ai_member(personas@)(*pid),
                { is_ai_id(personas, pid) }),
            Ghost(is_ai_member(self.personas@)),
        );
        Some((group.self_persona_id.clone(), ai))
    }

    /// A single persona by id, copied.
    pub fn persona(&self, id: &str) -> (r: Option<Persona>)
        ensures
            ({
                let i = first_index(self.personas@, persona_with_id(id@));
                &&& r is None <==> i < 0
                &&& r matches Some(p) ==> p@ == self.personas@[i]@
            }),
    {
        let key = String::from_str(id);
        match find_persona(&self.personas, &key) {
            None => None,
            Some(i) => Some(self.personas[i].copy()),
        }
    }
}

// --- Template variables ---------------------------------------------------------

/// The value a variable list gives key `k`: the last pair for it wins.
pub open spec fn spec_var_of(s: Seq<(String, String)>, k: Seq<char>) -> Option<Seq<char>>
    decreases s.len(),
{
    if s.len() == 0 {
        None
    } else if s.last().0@ == k {
        Some(s.last().1@)
    } else {
        spec_var_of(s.drop_last(), k)
    }
}

/// No two pairs share a key.
pub open spec fn spec_keys_unique(s: Seq<(String, String)>) -> bool {
    forall|i: int, j: int| 0 <= i < s.len() && 0 <= j < s.len() && i != j ==> (#[trigger] s[i]).0@ != (#[trigger] s[j]).0@
}

proof fn lemma_var_of_at(s: Seq<(String, String)>, j: int)
    requires
        spec_keys_unique(s),
        0 <= j < s.len(),
    ensures
        spec_var_of(s, s[j].0@) == Some(s[j].1@),
    decreases s.len(),
{
    if j < s.len() - 1 {
        let t = s.drop_last();
        assert(s.last() == s[s.len() - 1]);
        assert(t[j] == s[j]);
        assert forall|a: int, b: int| 0 <= a < t.len() && 0 <= b < t.len() && a != b implies (#[trigger] t[a]).0@ != (#[trigger] t[b]).0@ by {
            assert(t[a] == s[a]);
            assert(t[b] == s[b]);
        }
        lemma_var_of_at(t, j);
    }
}

proof fn lemma_var_of_absent(s: Seq<(String, String)>, k: Seq<char>)
    requires
        forall|j: int| 0 <= j < s.len() ==> (#[trigger] s[j]).0@ != k,
    ensures
        spec_var_of(s, k) is None,
    decreases s.len(),
{
    if s.len() > 0 {
        let t = s.drop_last();
        assert(s.last() == s[s.len() - 1]);
        assert forall|j: int| 0 <= j < t.len() implies (#[trigger] t[j]).0@ != k by {
            assert(t[j] == s[j]);
        }
        lemma_var_of_absent(t, k);
    }
}

/// Sets key `k` to `v` in a list with distinct keys, replacing its pair or
/// adding one at the end.
fn upsert(vars: &mut Vec<(String, String)>, k: String, v: String)
    requires
        spec_keys_unique(old(vars)@),
    ensures
        spec_keys_unique(final(vars)@),
        forall|q: Seq<char>| #[trigger] spec_var_of(final(vars)@, q) == spec_var_of(old(vars)@.push((k, v)), q),
{
    let ghost s = vars@;
    let ghost kv = (k, v);
    let ghost kpred = |p: (String, String)| p.0@ == k@;
    let found = find_where(
        vars,
        (|p: &(String, String)| -> (b: bool)
            ensures
                b == (p.0@ == k@),
            { p.0 == k }),
        Ghost(kpred),
    );
    proof {
        lemma_first_index(s, kpred);
    }
    match found {
        Some(i) => {
            vars.set(i, (k, v));
            proof {
                let t = vars@;
                let ii = i as int;
                assert(kpred(s[ii]));
                assert forall|a: int, b: int| 0 <= a < t.len() && 0 <= b < t.len() && a != b implies (#[trigger] t[a]).0@ != (#[trigger] t[b]).0@ by {
                    if a != ii {
                        assert(t[a] == s[a]);
                    }
                    if b != ii {
                        assert(t[b] == s[b]);
                    }
                }
                assert forall|q: Seq<char>| #[trigger] spec_var_of(t, q) == spec_var_of(s.push(kv), q) by {
                    assert(s.push(kv).drop_last() =~= s);
                    if q == kv.0@ {
                        lemma_var_of_at(t, ii);
                    } else {
                        if exists|j: int| 0 <= j < s.len() && (#[trigger] s[j]).0@ == q {
                            let j = choose|j: int| 0 <= j < s.len() && (#[trigger] s[j]).0@ == q;
                            assert(j != ii);
                            assert(t[j] == s[j]);
                            lemma_var_of_at(s, j);
                            lemma_var_of_at(t, j);
                        } else {
                            assert forall|j: int| 0 <= j < t.len() implies (#[trigger] t[j]).0@ != q by {
                                if j != ii {
                                    assert(t[j] == s[j]);
                                }
                            }
                            lemma_var_of_absent(s, q);
                            lemma_var_of_absent(t, q);
                        }
                    }
                }
            }
        },
        None => {
            vars.push((k, v));
            proof {
                let t = vars@;
                assert forall|a: int, b: int| 0 <= a < t.len() && 0 <= b < t.len() && a != b implies (#[trigger] t[a]).0@ != (#[trigger] t[b]).0@ by {
                    if a < s.len() {
                        assert(t[a] == s[a]);
                        if b == s.len() {
                            assert(!kpred(s[a]));
                        }
                    }
                    if b < s.len() {
                        assert(t[b] == s[b]);
                        if a == s.len() {
                            assert(!kpred(s[b]));
                        }
                    }
                }
            }
        },
    }
}

/// Lists that look up alike still do after the same pairs are appended.
proof fn lemma_var_of_append(a: Seq<(String, String)>, b: Seq<(String, String)>, c: Seq<(String, String)>)
    requires
        forall|q: Seq<char>| #[trigger] spec_var_of(a, q) == spec_var_of(b, q),
    ensures
        forall|q: Seq<char>| #[trigger] spec_var_of(a + c, q) == spec_var_of(b + c, q),
    decreases c.len(),
{
    if c.len() > 0 {
        lemma_var_of_append(a, b, c.drop_last());
        assert((a + c).drop_last() =~= a + c.drop_last());
        assert((b + c).drop_last() =~= b + c.drop_last());
        assert forall|q: Seq<char>| #[trigger] spec_var_of(a + c, q) == spec_var_of(b + c, q) by {
            assert((a + c).last() == c.last());
            assert((b + c).last() == c.last());
            assert(spec_var_of(a + c.drop_last(), q) == spec_var_of(b + c.drop_last(), q));
        }
    } else {
        assert(a + c =~= a);
        assert(b + c =~= b);
    }
}

/// Applies `add` over `vars`, later pairs overriding (a map `extend`).
fn extend_vars(vars: &mut Vec<(String, String)>, add: &Vec<(String, String)>)
    requires
        spec_keys_unique(old(vars)@),
    ensures
        spec_keys_unique(final(vars)@),
        forall|q: Seq<char>| #[trigger] spec_var_of(final(vars)@, q) == spec_var_of(old(vars)@ + add@, q),
{
    let ghost base = vars@;
    let mut i: usize = 0;
    while i < add.len()
        invariant
            i <= add@.len(),
            spec_keys_unique(vars@),
            forall|q: Seq<char>| #[trigger] spec_var_of(vars@, q) == spec_var_of(base + add@.subrange(0, i as int), q),
        decreases add@.len() - i,
    {
        let ghost before = vars@;
        let k = add[i].0.clone();
        let v = add[i].1.clone();
        assert((k, v) == add@[i as int]);
        upsert(vars, k, v);
        proof {
            let x = add@[i as int];
            let b0 = base + add@.subrange(0, i as int);
            lemma_var_of_append(before, b0, seq![x]);
            assert(before.push(x) =~= before + seq![x]);
            assert(base + add@.subrange(0, i + 1) =~= b0 + seq![x]);
        }
        i = i + 1;
    }
    assert(add@.subrange(0, add@.len() as int) =~= add@);
}

/// The pairs of an optional variable list.
pub open spec fn opt_pairs(v: Option<Vec<(String, String)>>) -> Seq<(String, String)> {
    match v {
        Some(x) => x@,
        None => Seq::empty(),
    }
}

/// The variable lists that apply to a persona, in inheritance order
/// (organization, department, persona): through its department when that
/// exists, else through its organization.
pub open spec fn spec_applied_vars(orgs: Seq<Organization>, depts: Seq<Department>, p: Persona) -> Seq<(String, String)> {
    let di = match p.department_id {
        Some(d) => first_index(depts, dept_with_id(d@)),
        None => -1,
    };
    let base = if di >= 0 {
        let oi = first_index(orgs, org_with_id(depts[di].organization_id@));
        (if oi >= 0 {
            opt_pairs(orgs[oi].variables)
        } else {
            Seq::empty()
        }) + opt_pairs(depts[di].variables)
    } else {
        match p.organization_id {
            Some(o) => {
                let oi = first_index(orgs, org_with_id(o@));
                if oi >= 0 {
                    opt_pairs(orgs[oi].variables)
                } else {
                    Seq::empty()
                }
            },
            None => Seq::empty(),
        }
    };
    base + opt_pairs(p.variables)
}

impl Workspace {
    /// The template variables in scope for a persona, resolved down the
    /// inheritance chain organization, department, persona, each level
    /// overriding the last. One pair per key.
    pub fn resolve_variables(&self, persona: &Persona) -> (r: Vec<(String, String)>)
        ensures
            spec_keys_unique(r@),
            forall|q: Seq<char>|
                #[trigger] spec_var_of(r@, q) == spec_var_of(
                    spec_applied_vars(self.organizations@, self.departments@, *persona),
                    q,
                ),
    {
        let mut vars: Vec<(String, String)> = Vec::new();
        let ghost mut acc = Seq::<(String, String)>::empty();
        let mut via_dept = false;
        match &persona.department_id {
            Some(d) => match find_dept(&self.departments, d) {
                Some(di) => {
                    via_dept = true;
                    let dept = &self.departments[di];
                    match find_org(&self.organizations, &dept.organization_id) {
                        Some(oi) => match &self.organizations[oi].variables {
                            Some(v) => {
                                extend_vars(&mut vars, v);
                                proof {
                                    acc = acc + v@;
                                }
                            },
                            None => {},
                        },
                        None => {},
                    }
                    match &dept.variables {
                        Some(v) => {
                            let ghost before = vars@;
                            extend_vars(&mut vars, v);
                            proof {
                                lemma_var_of_append(before, acc, v@);
                                acc = acc + v@;
                            }
                        },
                        None => {},
                    }
                },
                None => {},
            },
            None => {},
        }
        if !via_dept {
            match &persona.organization_id {
                Some(o) => match find_org(&self.organizations, o) {
                    Some(oi) => match &self.organizations[oi].variables {
                        Some(v) => {
                            extend_vars(&mut vars, v);
                            proof {
                                acc = acc + v@;
                            }
                        },
                        None => {},
                    },
                    None => {},
                },
                None => {},
            }
        }
        assert(forall|q: Seq<char>| #[trigger] spec_var_of(vars@, q) == spec_var_of(acc, q));
        let ghost before = vars@;
        match &persona.variables {
            Some(v) => {
                extend_vars(&mut vars, v);
                proof {
                    lemma_var_of_append(before, acc, v@);
                    acc = acc + v@;
                }
            },
            None => {
                proof {
                    assert(acc + Seq::<(String, String)>::empty() =~= acc);
                    acc = acc + Seq::<(String, String)>::empty();
                }
            },
        }
        proof {
            let sa = spec_applied_vars(self.organizations@, self.departments@, *persona);
            assert(acc =~= sa);
        }
        vars
    }
}

// --- One user identity -------------------------------------------------------------

/// Exactly one persona is a user identity.
pub open spec fn spec_exactly_one_user(personas: Seq<Persona>) -> bool {
    exists|i: int|
        0 <= i < personas.len() && (#[trigger] personas[i]).kind == PersonaKind::User && forall|j: int|
            0 <= j < personas.len() && j != i ==> (#[trigger] personas[j]).kind != PersonaKind::User
}

/// The ids of the user identities, in order.
pub open spec fn spec_user_ids(personas: Seq<Persona>) -> Seq<String> {
    keep(personas, is_user()).map_values(|p: Persona| p.id)
}

/// The id of the default user identity.
pub open spec fn spec_default_user_id() -> Seq<char> {
    seq!['u', 's', 'e', 'r', '-', 'm', 'e']
}

/// `h` is group `g` after the extra user identities `dropped` were folded
/// into the kept one `keep_id`.
pub open spec fn spec_refolded(g: Group, h: Group, dropped: Seq<Seq<char>>, keep_id: Seq<char>) -> bool {
    &&& h.id == g.id
    &&& h.name == g.name
    &&& h.persona_ids@ == keep(g.persona_ids@, |s: String| !dropped.contains(s@))
    &&& h.self_persona_id@ == if dropped.contains(g.self_persona_id@) {
        keep_id
    } else {
        g.self_persona_id@
    }
}

/// `q` is persona `p` with its identity hash recomputed from its prompt.
pub open spec fn spec_rehashed(p: Persona, q: Persona) -> bool {
    &&& q == (Persona { prompt_hash: q.prompt_hash, ..p })
    &&& opt_view(q.prompt_hash) == spec_prompt_hash(opt_view(p.system_prompt))
}

/// The single user identity, created fresh.
/// The default user identity as plain values: "Alex", `user-me`.
pub open spec fn spec_default_user_view() -> PersonaView {
    PersonaView {
        id: "user-me"@,
        name: "Alex"@,
        kind: PersonaKind::User,
        color: "gray"@,
        avatar_url: None,
        emoji: Some("🧑"@),
        gradient: Some("linear-gradient(135deg, #4dabf7, #4263eb)"@),
        blurb: Some("Your own voice."@),
        organization_id: None,
        department_id: None,
        system_prompt: None,
        variables: None,
        prompt_hash: None,
    }
}

fn default_user_persona() -> (r: Persona)
    ensures
        r@ == spec_default_user_view(),
        r.id@ == spec_default_user_id(),
        r.kind == PersonaKind::User,
        r.system_prompt is None,
        r.prompt_hash is None,
        r.organization_id is None,
        r.department_id is None,
        r.variables is None,
{
    let id = String::from_str("user-me");
    proof {
        reveal_strlit("user-me");
    }
    Persona {
        id,
        name: String::from_str("Alex"),
        kind: PersonaKind::User,
        color: String::from_str("gray"),
        avatar_url: None,
        emoji: Some(String::from_str("🧑")),
        gradient: Some(String::from_str("linear-gradient(135deg, #4dabf7, #4263eb)")),
        blurb: Some(String::from_str("Your own voice.")),
        organization_id: None,
        department_id: None,
        system_prompt: None,
        variables: None,
        prompt_hash: None,
    }
}

impl Workspace {
    /// The ids of the user identities, in order.
    fn user_ids(&self) -> (r: Vec<String>)
        ensures
            r@ == spec_user_ids(self.personas@),
    {
        let mut out: Vec<String> = Vec::new();
        let mut i: usize = 0;
        while i < self.personas.len()
            invariant
                i <= self.personas@.len(),
                out@ == keep(self.personas@.subrange(0, i as int), is_user()).map_values(|p: Persona| p.id),
            decreases self.personas@.len() - i,
        {
            proof {
                assert(self.personas@.subrange(0, i + 1) =~= self.personas@.subrange(0, i as int).push(self.personas@[i as int]));
                lemma_keep_push(self.personas@.subrange(0, i as int), self.personas@[i as int], is_user());
            }
            if self.personas[i].kind == PersonaKind::User {
                let ghost k = keep(self.personas@.subrange(0, i as int), is_user());
                out.push(self.personas[i].id.clone());
                assert(out@ =~= k.push(self.personas@[i as int]).map_values(|p: Persona| p.id));
            }
            i = i + 1;
        }
        assert(self.personas@.subrange(0, i as int) =~= self.personas@);
        out
    }

    /// Collapses to exactly one user identity: keeps the first, drops the
    /// others (repointing groups' "you" to the kept one and removing the
    /// dropped ids from memberships), or restores the default identity when
    /// there is none.
    fn enforce_single_user(&mut self)
        ensures
            ({
                let uids = spec_user_ids(old(self).personas@);
                let dropped = crate::text::views(uids.drop_first());
                &&& uids.len() == 0 ==> {
                    &&& final(self).personas@.len() == old(self).personas@.len() + 1
                    &&& final(self).personas@.drop_first() == old(self).personas@
                    &&& final(self).personas@[0].id@ == spec_default_user_id()
                    &&& final(self).personas@[0].kind == PersonaKind::User
                    &&& final(self).personas@[0].system_prompt is None
                    &&& final(self).groups@.len() == old(self).groups@.len()
                    &&& forall|k: int|
                        0 <= k < old(self).groups@.len() ==> #[trigger] final(self).groups@[k] == (Group {
                            self_persona_id: final(self).groups@[k].self_persona_id,
                            ..old(self).groups@[k]
                        }) && final(self).groups@[k].self_persona_id@ == spec_default_user_id()
                }
                &&& uids.len() > 0 ==> {
                    &&& final(self).personas@ == keep(old(self).personas@, |p: Persona| !dropped.contains(p.id@))
                    &&& final(self).groups@.len() == old(self).groups@.len()
                    &&& forall|k: int|
                        0 <= k < old(self).groups@.len() ==> spec_refolded(
                            old(self).groups@[k],
                            #[trigger] final(self).groups@[k],
                            dropped,
                            uids[0]@,
                        )
                }
                &&& final(self)@ == (WorkspaceView {
                    personas: final(self)@.personas,
                    groups: final(self)@.groups,
                    ..old(self)@
                })
            }),
            // With distinct ids, exactly one user identity remains.
            spec_ids_unique(old(self).personas@) ==> spec_exactly_one_user(final(self).personas@),
    {
        let mut users = self.user_ids();
        let ghost uids = users@;
        let ghost before = self.personas@;
        if users.len() == 0 {
            self.personas.insert(0, default_user_persona());
            let me = String::from_str("user-me");
            proof {
                reveal_strlit("user-me");
            }
            map_in_place(
                &mut self.groups,
                (|g: Group| -> (h: Group)
                    ensures
                        h == (Group { self_persona_id: h.self_persona_id, ..g }) && h.self_persona_id@ == me@,
                    {
                        let mut g = g;
                        g.self_persona_id = me.clone();
                        g
                    }),
                Ghost(|g: Group, h: Group| h == (Group { self_persona_id: h.self_persona_id, ..g }) && h.self_persona_id@ == me@),
            );
            proof {
                let after = self.personas@;
                assert(after.drop_first() =~= before);
                assert forall|j: int| 0 <= j < after.len() && j != 0 implies (#[trigger] after[j]).kind != PersonaKind::User by {
                    assert(after[j] == before[j - 1]);
                    if before[j - 1].kind == PersonaKind::User {
                        assert(before.contains(before[j - 1]));
                        lemma_keep_complete(before, is_user(), before[j - 1]);
                    }
                }
                assert(after[0].kind == PersonaKind::User);
            }
            return;
        }
        let keep_id = users.remove(0);
        let dropped = users;
        let ghost dv = crate::text::views(dropped@);
        proof {
            assert(dropped@ =~= uids.drop_first());
        }
        if dropped.len() == 0 {
            proof {
                assert(dv =~= Seq::<Seq<char>>::empty());
                assert(keep(before, |p: Persona| !dv.contains(p.id@)) =~= before) by {
                    lemma_keep_all(before, |p: Persona| !dv.contains(p.id@));
                }
                assert forall|k: int| 0 <= k < self.groups@.len() implies spec_refolded(
                    self.groups@[k],
                    #[trigger] self.groups@[k],
                    dv,
                    uids[0]@,
                ) by {
                    lemma_keep_all(self.groups@[k].persona_ids@, |s: String| !dv.contains(s@));
                }
                lemma_single_user_after_fold(before, uids);
            }
            return;
        }
        let dref = &dropped;
        retain_where(
            &mut self.personas,
            (|p: &Persona| -> (b: bool)
                ensures
                    b == !crate::text::views(dref@).contains(p.id@),
                { !crate::text::contains_string(dref, p.id.as_str()) }),
            Ghost(|p: Persona| !dv.contains(p.id@)),
        );
        map_in_place(
            &mut self.groups,
            (|g: Group| -> (h: Group)
                ensures
                    spec_refolded(g, h, dv, keep_id@),
                {
                    let mut g = g;
                    if crate::text::contains_string(dref, g.self_persona_id.as_str()) {
                        g.self_persona_id = keep_id.clone();
                    }
                    retain_where(
                        &mut g.persona_ids,
                        (|pid: &String| -> (b: bool)
                            ensures
                                b == !crate::text::views(dref@).contains(pid@),
                            { !crate::text::contains_string(dref, pid.as_str()) }),
                        Ghost(|s: String| !dv.contains(s@)),
                    );
                    g
                }),
            Ghost(|g: Group, h: Group| spec_refolded(g, h, dv, keep_id@)),
        );
        proof {
            lemma_single_user_after_fold(before, uids);
        }
    }
}

/// `keep` keeps everything when everything satisfies `f`.
pub proof fn lemma_keep_all<T>(s: Seq<T>, f: spec_fn(T) -> bool)
    requires
        forall|j: int| 0 <= j < s.len() ==> f(#[trigger] s[j]),
    ensures
        keep(s, f) == s,
    decreases s.len(),
{
    if s.len() > 0 {
        assert forall|j: int| 0 <= j < s.drop_first().len() implies f(#[trigger] s.drop_first()[j]) by {
            assert(s.drop_first()[j] == s[j + 1]);
        }
        lemma_keep_all(s.drop_first(), f);
        assert(seq![s[0]] + s.drop_first() =~= s);
    }
}

/// Keeping some personas keeps their ids distinct.
proof fn lemma_keep_ids_unique(s: Seq<Persona>, f: spec_fn(Persona) -> bool)
    requires
        spec_ids_unique(s),
    ensures
        spec_ids_unique(keep(s, f)),
    decreases s.len(),
{
    if s.len() > 0 {
        let t = s.drop_first();
        assert forall|i: int, j: int| 0 <= i < t.len() && 0 <= j < t.len() && i != j implies (#[trigger] t[i]).id@ != (#[trigger] t[j]).id@ by {
            assert(t[i] == s[i + 1]);
            assert(t[j] == s[j + 1]);
        }
        lemma_keep_ids_unique(t, f);
        lemma_keep_sound(t, f);
        let r = keep(t, f);
        if f(s[0]) {
            let k = keep(s, f);
            assert forall|i: int, j: int| 0 <= i < k.len() && 0 <= j < k.len() && i != j implies (#[trigger] k[i]).id@ != (#[trigger] k[j]).id@ by {
                if i == 0 || j == 0 {
                    let other = if i == 0 { j } else { i };
                    assert(k[other] == r[other - 1]);
                    let w = choose|w: int| 0 <= w < t.len() && t[w] == r[other - 1];
                    assert(t[w] == s[w + 1]);
                } else {
                    assert(k[i] == r[i - 1]);
                    assert(k[j] == r[j - 1]);
                }
            }
        }
    }
}

/// The user ids are the ids of exactly the user personas.
proof fn lemma_user_ids(personas: Seq<Persona>)
    ensures
        forall|k: int| #![trigger spec_user_ids(personas)[k]] 0 <= k < spec_user_ids(personas).len() ==> exists|j: int|
            0 <= j < personas.len() && (#[trigger] personas[j]).kind == PersonaKind::User && personas[j].id
                == spec_user_ids(personas)[k],
        forall|j: int|
            0 <= j < personas.len() && (#[trigger] personas[j]).kind == PersonaKind::User ==> spec_user_ids(
                personas,
            ).contains(personas[j].id),
{
    let kept = keep(personas, is_user());
    lemma_keep_sound(personas, is_user());
    assert forall|k: int| #![trigger spec_user_ids(personas)[k]] 0 <= k < spec_user_ids(personas).len() implies exists|j: int|
        0 <= j < personas.len() && (#[trigger] personas[j]).kind == PersonaKind::User && personas[j].id
            == spec_user_ids(personas)[k] by {
        assert(is_user()(kept[k]));
        let j = choose|j: int| 0 <= j < personas.len() && personas[j] == kept[k];
        assert(personas[j].kind == PersonaKind::User);
    }
    assert forall|j: int| 0 <= j < personas.len() && (#[trigger] personas[j]).kind == PersonaKind::User implies spec_user_ids(
        personas,
    ).contains(personas[j].id) by {
        assert(personas.contains(personas[j]));
        lemma_keep_complete(personas, is_user(), personas[j]);
        let v = choose|v: int| 0 <= v < kept.len() && kept[v] == personas[j];
        assert(spec_user_ids(personas)[v] == personas[j].id);
    }
}

/// Folding the extra user identities away leaves exactly the first one,
/// when ids are distinct.
proof fn lemma_single_user_after_fold(before: Seq<Persona>, uids: Seq<String>)
    requires
        uids == spec_user_ids(before),
        uids.len() > 0,
    ensures
        spec_ids_unique(before) ==> spec_exactly_one_user(
            keep(before, |p: Persona| !crate::text::views(uids.drop_first()).contains(p.id@)),
        ),
{
    let dv = crate::text::views(uids.drop_first());
    let f = |p: Persona| !dv.contains(p.id@);
    let after = keep(before, f);
    if spec_ids_unique(before) {
        lemma_user_ids(before);
        lemma_keep_sound(before, f);
        // the first user identity
        let j0 = choose|j: int| 0 <= j < before.len() && (#[trigger] before[j]).kind == PersonaKind::User && before[j].id == uids[0];
        // its id is not among the dropped ones
        assert(!dv.contains(before[j0].id@)) by {
            if dv.contains(before[j0].id@) {
                let w = choose|w: int| 0 <= w < dv.len() && dv[w] == before[j0].id@;
                let jw = choose|j: int| 0 <= j < before.len() && (#[trigger] before[j]).kind == PersonaKind::User && before[j].id == uids[w + 1];
                lemma_keep_ids_unique(before, is_user());
                let kept = keep(before, is_user());
                assert(uids[0] == kept[0].id);
                assert(uids[w + 1] == kept[w + 1].id);
            }
        }
        assert(before.contains(before[j0]));
        lemma_keep_complete(before, f, before[j0]);
        let i0 = choose|v: int| 0 <= v < after.len() && after[v] == before[j0];
        assert forall|j: int| 0 <= j < after.len() && j != i0 implies (#[trigger] after[j]).kind != PersonaKind::User by {
            if after[j].kind == PersonaKind::User {
                assert(f(after[j]));
                let b = choose|b: int| 0 <= b < before.len() && before[b] == after[j];
                assert(uids.contains(before[b].id));
                let u = choose|u: int| 0 <= u < uids.len() && uids[u] == before[b].id;
                if u == 0 {
                    assert(before[b].id == before[j0].id);
                    assert(b == j0);
                    lemma_keep_ids_unique(before, f);
                } else {
                    assert(dv[u - 1] == before[b].id@);
                }
            }
        }
    }
}

// --- Snapshots and seeds -------------------------------------------------------------

/// The label a list of records gives hash `h`: the last record for it wins.
pub open spec fn spec_label_last(s: Seq<PromptLabel>, h: Seq<char>) -> Option<Seq<char>>
    decreases s.len(),
{
    if s.len() == 0 {
        None
    } else if s.last().hash@ == h {
        Some(s.last().label@)
    } else {
        spec_label_last(s.drop_last(), h)
    }
}

/// Every persona's identity hash matches its prompt.
pub open spec fn spec_hashes_fresh(personas: Seq<Persona>) -> bool {
    forall|k: int| 0 <= k < personas.len() ==> opt_view((#[trigger] personas[k]).prompt_hash) == spec_prompt_hash(opt_view(personas[k].system_prompt))
}

/// Copies each element with `f`, which `rel` describes.
fn copy_all<T, F: Fn(&T) -> T>(v: &Vec<T>, f: F, Ghost(rel): Ghost<spec_fn(T, T) -> bool>) -> (r: Vec<T>)
    requires
        forall|x: &T| #[trigger] f.requires((x,)),
        forall|x: &T, y: T| f.ensures((x,), y) ==> rel(*x, y),
    ensures
        r@.len() == v@.len(),
        forall|k: int| 0 <= k < v@.len() ==> rel(v@[k], #[trigger] r@[k]),
{
    let mut out: Vec<T> = Vec::new();
    let mut i: usize = 0;
    while i < v.len()
        invariant
            forall|x: &T| #[trigger] f.requires((x,)),
            forall|x: &T, y: T| f.ensures((x,), y) ==> rel(*x, y),
            i <= v@.len(),
            out@.len() == i,
            forall|k: int| 0 <= k < i ==> rel(v@[k], #[trigger] out@[k]),
        decreases v@.len() - i,
    {
        out.push(f(&v[i]));
        i = i + 1;
    }
    out
}

impl Workspace {
    /// Recomputes every persona's identity hash from its current prompt.
    fn refresh_prompt_hashes(&mut self)
        ensures
            final(self).personas@.len() == old(self).personas@.len(),
            forall|k: int| 0 <= k < old(self).personas@.len() ==> spec_rehashed(old(self).personas@[k], #[trigger] final(self).personas@[k]),
            spec_hashes_fresh(final(self).personas@),
            final(self)@ == (WorkspaceView { personas: final(self)@.personas, ..old(self)@ }),
    {
        map_in_place(
            &mut self.personas,
            (|p: Persona| -> (q: Persona)
                ensures
                    spec_rehashed(p, q),
                {
                    let mut p = p;
                    p.refresh_prompt_hash();
                    p
                }),
            Ghost(|p: Persona, q: Persona| spec_rehashed(p, q)),
        );
        assert forall|k: int| 0 <= k < self.personas@.len() implies opt_view((#[trigger] self.personas@[k]).prompt_hash) == spec_prompt_hash(opt_view(self.personas@[k].system_prompt)) by {
            assert(spec_rehashed(old(self).personas@[k], self.personas@[k]));
        }
    }

    /// Rebuilds a workspace from a persisted snapshot: re-establishes the one
    /// user identity and recomputes every identity hash (a stored hash is
    /// never trusted).
    pub fn from_snapshot(snapshot: WorkspaceSnapshot) -> (r: Workspace)
        ensures
            spec_loaded_from(snapshot, r),
            r.wf(),
            r.organizations@ == snapshot.organizations@,
            r.departments@ == snapshot.departments@,
            r.settings == snapshot.settings,
            r.memories@ == snapshot.memories@,
            forall|h: Seq<char>| #[trigger] spec_label_of(r.prompt_labels@, h) == spec_label_last(snapshot.prompt_labels@, h),
            ({
                let ps = snapshot.personas@;
                let uids = spec_user_ids(ps);
                let dropped = crate::text::views(uids.drop_first());
                let kept = keep(ps, |p: Persona| !dropped.contains(p.id@));
                &&& uids.len() == 0 ==> {
                    &&& r.personas@.len() == ps.len() + 1
                    &&& r.personas@[0].id@ == spec_default_user_id()
                    &&& r.personas@[0].kind == PersonaKind::User
                    &&& forall|k: int| 0 <= k < ps.len() ==> spec_rehashed(ps[k], #[trigger] r.personas@[k + 1])
                    &&& r.groups@.len() == snapshot.groups@.len()
                    &&& forall|k: int|
                        0 <= k < r.groups@.len() ==> #[trigger] r.groups@[k] == (Group {
                            self_persona_id: r.groups@[k].self_persona_id,
                            ..snapshot.groups@[k]
                        }) && r.groups@[k].self_persona_id@ == spec_default_user_id()
                }
                &&& uids.len() > 0 ==> {
                    &&& r.personas@.len() == kept.len()
                    &&& forall|k: int| 0 <= k < kept.len() ==> spec_rehashed(kept[k], #[trigger] r.personas@[k])
                    &&& r.groups@.len() == snapshot.groups@.len()
                    &&& forall|k: int|
                        0 <= k < r.groups@.len() ==> spec_refolded(snapshot.groups@[k], #[trigger] r.groups@[k], dropped, uids[0]@)
                }
            }),
            spec_hashes_fresh(r.personas@),
            // A snapshot with distinct persona ids loads with exactly one user.
            spec_ids_unique(snapshot.personas@) ==> spec_exactly_one_user(r.personas@),
    {
        let WorkspaceSnapshot { organizations, departments, personas, groups, settings, prompt_labels, memories } =
            snapshot;
        let mut ws = Workspace {
            organizations,
            departments,
            personas,
            groups,
            settings,
            prompt_labels: Vec::new(),
            memories,
        };
        let mut i: usize = 0;
        while i < prompt_labels.len()
            invariant
                i <= prompt_labels@.len(),
                ws.wf(),
                ws.organizations@ == snapshot.organizations@,
                ws.departments@ == snapshot.departments@,
                ws.personas@ == snapshot.personas@,
                ws.groups@ == snapshot.groups@,
                ws.settings == snapshot.settings,
                ws.memories@ == snapshot.memories@,
                prompt_labels@ == snapshot.prompt_labels@,
                forall|h: Seq<char>| #[trigger] spec_label_of(ws.prompt_labels@, h) == spec_label_last(prompt_labels@.subrange(0, i as int), h),
            decreases prompt_labels@.len() - i,
        {
            let l = &prompt_labels[i];
            ws.put_label(l.hash.clone(), l.label.clone());
            proof {
                let sub = prompt_labels@.subrange(0, i + 1);
                assert(sub.drop_last() =~= prompt_labels@.subrange(0, i as int));
                assert(sub.last() == prompt_labels@[i as int]);
            }
            i = i + 1;
        }
        proof {
            assert(prompt_labels@.subrange(0, i as int) =~= prompt_labels@);
        }
        let ghost ps = ws.personas@;
        ws.enforce_single_user();
        let ghost mid = ws.personas@;
        ws.refresh_prompt_hashes();
        proof {
            if spec_ids_unique(ps) {
                let w = choose|w: int| 0 <= w < mid.len() && (#[trigger] mid[w]).kind == PersonaKind::User && forall|j: int|
                    0 <= j < mid.len() && j != w ==> (#[trigger] mid[j]).kind != PersonaKind::User;
                assert(spec_rehashed(mid[w], ws.personas@[w]));
                assert forall|j: int| 0 <= j < ws.personas@.len() && j != w implies (#[trigger] ws.personas@[j]).kind != PersonaKind::User by {
                    assert(spec_rehashed(mid[j], ws.personas@[j]));
                    assert(mid[j].kind != PersonaKind::User);
                }
            }
            let uids = spec_user_ids(ps);
            if uids.len() == 0 {
                assert forall|k: int| 0 <= k < ps.len() implies spec_rehashed(ps[k], #[trigger] ws.personas@[k + 1]) by {
                    assert(mid[k + 1] == ps[k]);
                    assert(spec_rehashed(mid[k + 1], ws.personas@[k + 1]));
                }
                assert(spec_rehashed(mid[0], ws.personas@[0]));
            }
        }
        ws
    }

    /// A serializable copy of the workspace.
    pub fn to_snapshot(&self) -> (r: WorkspaceSnapshot)
        ensures
            spec_snapshot_of(*self, r),
            r.organizations.deep_view() == self.organizations.deep_view(),
            r.departments.deep_view() == self.departments.deep_view(),
            r.personas.deep_view() == self.personas.deep_view(),
            r.groups.deep_view() == self.groups.deep_view(),
            r.settings == self.settings,
            r.prompt_labels@ == self.prompt_labels@,
            r.memories@ == self.memories@,
    {
        let organizations = copy_all(
            &self.organizations,
            (|o: &Organization| -> (c: Organization)
                ensures
                    c@ == o@,
                { o.copy() }),
            Ghost(|a: Organization, b: Organization| b@ == a@),
        );
        let departments = copy_all(
            &self.departments,
            (|d: &Department| -> (c: Department)
                ensures
                    c@ == d@,
                { d.copy() }),
            Ghost(|a: Department, b: Department| b@ == a@),
        );
        let personas = copy_all(
            &self.personas,
            (|p: &Persona| -> (c: Persona)
                ensures
                    c@ == p@,
                { p.copy() }),
            Ghost(|a: Persona, b: Persona| b@ == a@),
        );
        let groups = copy_all(
            &self.groups,
            (|g: &Group| -> (c: Group)
                ensures
                    c@ == g@,
                { g.copy() }),
            Ghost(|a: Group, b: Group| b@ == a@),
        );
        let prompt_labels = copy_all(
            &self.prompt_labels,
            (|l: &PromptLabel| -> (c: PromptLabel)
                ensures
                    c == *l,
                { PromptLabel { hash: l.hash.clone(), label: l.label.clone() } }),
            Ghost(|a: PromptLabel, b: PromptLabel| b == a),
        );
        let memories = copy_all(
            &self.memories,
            (|m: &Memory| -> (c: Memory)
                ensures
                    c == *m,
                { m.copy() }),
            Ghost(|a: Memory, b: Memory| b == a),
        );
        let r = WorkspaceSnapshot {
            organizations,
            departments,
            personas,
            groups,
            settings: self.settings.copy(),
            prompt_labels,
            memories,
        };
        proof {
            assert(r.organizations.deep_view() =~= self.organizations.deep_view());
            assert(r.departments.deep_view() =~= self.departments.deep_view());
            assert(r.personas.deep_view() =~= self.personas.deep_view());
            assert(r.groups.deep_view() =~= self.groups.deep_view());
            assert(r.prompt_labels@ =~= self.prompt_labels@);
            assert(r.memories@ =~= self.memories@);
        }
        r
    }
}

// --- Seed data ----------------------------------------------------------------------

fn text(s: &str) -> (r: String)
    ensures
        r@ == s@,
{
    String::from_str(s)
}

/// The seeded organization: Aurora Academy.
pub open spec fn spec_seed_organizations() -> Seq<OrganizationView> {
    seq![
        OrganizationView {
            id: "aurora"@,
            name: "Aurora Academy"@,
            color: Some("indigo"@),
            blurb: Some("A school whose classes and clubs share one bright near-future setting."@),
            variables: Some(seq![("world"@, "a bright near-future Tokyo"@)]),
        },
    ]
}

/// The seeded departments of Aurora Academy: Class 2-A and the Broadcast Club.
pub open spec fn spec_seed_departments() -> Seq<DepartmentView> {
    seq![
        DepartmentView {
            id: "class-2a"@,
            organization_id: "aurora"@,
            name: "Class 2-A"@,
            color: Some("violet"@),
            blurb: None,
            variables: Some(seq![("setting"@, "a lively second-year classroom"@)]),
        },
        DepartmentView {
            id: "broadcast"@,
            organization_id: "aurora"@,
            name: "Broadcast Club"@,
            color: Some("cyan"@),
            blurb: None,
            variables: Some(seq![("setting"@, "the after-school broadcast room"@)]),
        },
    ]
}

/// The seeded groups: the Lounge with all three AI personas, the Persona Lab
/// with Aria and Nox, both seen as the default user.
pub open spec fn spec_seed_groups() -> Seq<GroupView> {
    seq![
        GroupView {
            id: "lounge"@,
            name: "The Lounge"@,
            persona_ids: seq!["aria"@, "nox"@, "sol"@],
            self_persona_id: "user-me"@,
        },
        GroupView {
            id: "lab"@,
            name: "Persona Lab"@,
            persona_ids: seq!["aria"@, "nox"@],
            self_persona_id: "user-me"@,
        },
    ]
}

fn seed_organizations() -> (r: Vec<Organization>)
    ensures
        r.deep_view() == spec_seed_organizations(),
{
    let vars = vec![(text("world"), text("a bright near-future Tokyo"))];
    assert(vars.deep_view() =~= seq![("world"@, "a bright near-future Tokyo"@)]);
    let r = vec![
        Organization {
            id: text("aurora"),
            name: text("Aurora Academy"),
            color: Some(text("indigo")),
            blurb: Some(text("A school whose classes and clubs share one bright near-future setting.")),
            variables: Some(vars),
        },
    ];
    assert(r.deep_view() =~= spec_seed_organizations());
    r
}

fn seed_departments() -> (r: Vec<Department>)
    ensures
        r.deep_view() == spec_seed_departments(),
{
    let v1 = vec![(text("setting"), text("a lively second-year classroom"))];
    assert(v1.deep_view() =~= seq![("setting"@, "a lively second-year classroom"@)]);
    let v2 = vec![(text("setting"), text("the after-school broadcast room"))];
    assert(v2.deep_view() =~= seq![("setting"@, "the after-school broadcast room"@)]);
    let r = vec![
        Department {
            id: text("class-2a"),
            organization_id: text("aurora"),
            name: text("Class 2-A"),
            color: Some(text("violet")),
            blurb: None,
            variables: Some(v1),
        },
        Department {
            id: text("broadcast"),
            organization_id: text("aurora"),
            name: text("Broadcast Club"),
            color: Some(text("cyan")),
            blurb: None,
            variables: Some(v2),
        },
    ];
    assert(r.deep_view() =~= spec_seed_departments());
    r
}

/// A seeded AI persona of Aurora Academy as plain values, before its
/// identity hash is computed.
pub open spec fn spec_seed_ai(
    id: Seq<char>,
    name: Seq<char>,
    color: Seq<char>,
    emoji: Seq<char>,
    gradient: Seq<char>,
    blurb: Seq<char>,
    department: Seq<char>,
    prompt: Seq<char>,
) -> PersonaView {
    PersonaView {
        id,
        name,
        kind: PersonaKind::Ai,
        color,
        avatar_url: None,
        emoji: Some(emoji),
        gradient: Some(gradient),
        blurb: Some(blurb),
        organization_id: Some("aurora"@),
        department_id: Some(department),
        system_prompt: Some(prompt),
        variables: None,
        prompt_hash: None,
    }
}

/// The seeded personas, before their identity hashes are computed: the user
/// identity, then Aria, Nox and Sol.
pub open spec fn spec_seed_personas() -> Seq<PersonaView> {
    seq![
        spec_default_user_view(),
        spec_seed_ai(
            "aria"@,
            "Aria"@,
            "violet"@,
            "🌟"@,
            "linear-gradient(135deg, #b197fc, #4dabf7)"@,
            "Warm, curious host persona."@,
            "class-2a"@,
            "You are {{persona_name}} in {{department_name}}, a warm and curious host in {{setting}}. Always reply in {{user_language}}."@,
        ),
        spec_seed_ai(
            "nox"@,
            "Nox"@,
            "cyan"@,
            "🌙"@,
            "linear-gradient(135deg, #3bc9db, #4263eb)"@,
            "Dry, analytical strategist."@,
            "broadcast"@,
            "You are {{persona_name}} of {{department_name}}, a dry, analytical strategist in {{setting}}. Always reply in {{user_language}}."@,
        ),
        spec_seed_ai(
            "sol"@,
            "Sol"@,
            "orange"@,
            "☀️"@,
            "linear-gradient(135deg, #ffd43b, #ff922b)"@,
            "Upbeat, energetic cheerleader."@,
            "class-2a"@,
            "You are {{persona_name}} in {{department_name}}, an upbeat, energetic cheerleader in {{setting}}. Always reply in {{user_language}}."@,
        ),
    ]
}

/// Every seeded AI persona's prompt is non-blank, so it has an identity hash.
proof fn lemma_seed_prompts_hashed()
    ensures
        forall|k: int| 1 <= k < spec_seed_personas().len() ==> spec_prompt_hash(
            (#[trigger] spec_seed_personas()[k]).system_prompt,
        ) is Some,
{
    reveal_strlit("You are {{persona_name}} in {{department_name}}, a warm and curious host in {{setting}}. Always reply in {{user_language}}.");
    crate::text::lemma_trim_empty_iff_blank("You are {{persona_name}} in {{department_name}}, a warm and curious host in {{setting}}. Always reply in {{user_language}}."@);
    assert("You are {{persona_name}} in {{department_name}}, a warm and curious host in {{setting}}. Always reply in {{user_language}}."@[0] == 'Y');
    reveal_strlit("You are {{persona_name}} of {{department_name}}, a dry, analytical strategist in {{setting}}. Always reply in {{user_language}}.");
    crate::text::lemma_trim_empty_iff_blank("You are {{persona_name}} of {{department_name}}, a dry, analytical strategist in {{setting}}. Always reply in {{user_language}}."@);
    assert("You are {{persona_name}} of {{department_name}}, a dry, analytical strategist in {{setting}}. Always reply in {{user_language}}."@[0] == 'Y');
    reveal_strlit("You are {{persona_name}} in {{department_name}}, an upbeat, energetic cheerleader in {{setting}}. Always reply in {{user_language}}.");
    crate::text::lemma_trim_empty_iff_blank("You are {{persona_name}} in {{department_name}}, an upbeat, energetic cheerleader in {{setting}}. Always reply in {{user_language}}."@);
    assert("You are {{persona_name}} in {{department_name}}, an upbeat, energetic cheerleader in {{setting}}. Always reply in {{user_language}}."@[0] == 'Y');
    assert(!crate::text::spec_is_whitespace('Y'));
}

/// A persona with its identity hash computed from its system prompt.
pub open spec fn spec_rehash_view(p: PersonaView) -> PersonaView {
    PersonaView { prompt_hash: spec_prompt_hash(p.system_prompt), ..p }
}

fn seed_ai(
    id: &str,
    name: &str,
    color: &str,
    emoji: &str,
    gradient: &str,
    blurb: &str,
    department: &str,
    prompt: &str,
) -> (r: Persona)
    ensures
        r@ == spec_seed_ai(id@, name@, color@, emoji@, gradient@, blurb@, department@, prompt@),
        r.id@ == id@,
        r.name@ == name@,
        r.kind == PersonaKind::Ai,
        r.system_prompt is Some,
{
    Persona {
        id: text(id),
        name: text(name),
        kind: PersonaKind::Ai,
        color: text(color),
        avatar_url: None,
        emoji: Some(text(emoji)),
        gradient: Some(text(gradient)),
        blurb: Some(text(blurb)),
        organization_id: Some(text("aurora")),
        department_id: Some(text(department)),
        system_prompt: Some(text(prompt)),
        variables: None,
        prompt_hash: None,
    }
}

fn seed_personas() -> (r: Vec<Persona>)
    ensures
        r.deep_view() == spec_seed_personas(),
        spec_exactly_one_user(r@),
{
    let r = vec![
        default_user_persona(),
        seed_ai(
            "aria",
            "Aria",
            "violet",
            "🌟",
            "linear-gradient(135deg, #b197fc, #4dabf7)",
            "Warm, curious host persona.",
            "class-2a",
            "You are {{persona_name}} in {{department_name}}, a warm and curious host in {{setting}}. Always reply in {{user_language}}.",
        ),
        seed_ai(
            "nox",
            "Nox",
            "cyan",
            "🌙",
            "linear-gradient(135deg, #3bc9db, #4263eb)",
            "Dry, analytical strategist.",
            "broadcast",
            "You are {{persona_name}} of {{department_name}}, a dry, analytical strategist in {{setting}}. Always reply in {{user_language}}.",
        ),
        seed_ai(
            "sol",
            "Sol",
            "orange",
            "☀️",
            "linear-gradient(135deg, #ffd43b, #ff922b)",
            "Upbeat, energetic cheerleader.",
            "class-2a",
            "You are {{persona_name}} in {{department_name}}, an upbeat, energetic cheerleader in {{setting}}. Always reply in {{user_language}}.",
        ),
    ];
    assert(r@[0].kind == PersonaKind::User);
    assert(forall|j: int| 0 <= j < r@.len() && j != 0 ==> (#[trigger] r@[j]).kind != PersonaKind::User);
    assert(r.deep_view() =~= spec_seed_personas());
    r
}

fn seed_groups() -> (r: Vec<Group>)
    ensures
        r.deep_view() == spec_seed_groups(),
{
    let lounge = vec![text("aria"), text("nox"), text("sol")];
    assert(lounge.deep_view() =~= seq!["aria"@, "nox"@, "sol"@]);
    let lab = vec![text("aria"), text("nox")];
    assert(lab.deep_view() =~= seq!["aria"@, "nox"@]);
    let r = vec![
        Group {
            id: text("lounge"),
            name: text("The Lounge"),
            persona_ids: lounge,
            self_persona_id: text("user-me"),
        },
        Group { id: text("lab"), name: text("Persona Lab"), persona_ids: lab, self_persona_id: text("user-me") },
    ];
    assert(r.deep_view() =~= spec_seed_groups());
    r
}

fn seed_settings() -> (r: Settings)
    ensures
        r.ui_language@ == "zh-Hant"@,
        r.native_language@ == "繁體中文"@,
        r.chat_font_size == 15,
{
    Settings { ui_language: text("zh-Hant"), native_language: text("繁體中文"), chat_font_size: 15 }
}

impl Workspace {
    /// The starting workspace: one organization with two departments, the user
    /// identity and three AI personas, two groups, no labels or memories.
    pub fn seeded() -> (r: Workspace)
        ensures
            r.wf(),
            r.organizations@.len() == spec_seed_organizations().len(),
            forall|k: int| 0 <= k < r.organizations@.len() ==> (#[trigger] r.organizations@[k])@
                == spec_seed_organizations()[k],
            r.departments@.len() == spec_seed_departments().len(),
            forall|k: int| 0 <= k < r.departments@.len() ==> (#[trigger] r.departments@[k])@
                == spec_seed_departments()[k],
            r.personas@.len() == spec_seed_personas().len(),
            forall|k: int| 0 <= k < r.personas@.len() ==> (#[trigger] r.personas@[k])@ == spec_rehash_view(
                spec_seed_personas()[k],
            ),
            r.groups@.len() == spec_seed_groups().len(),
            forall|k: int| 0 <= k < r.groups@.len() ==> (#[trigger] r.groups@[k])@ == spec_seed_groups()[k],
            r.settings.ui_language@ == "zh-Hant"@,
            r.settings.native_language@ == "繁體中文"@,
            r.settings.chat_font_size == 15,
            forall|k: int| 1 <= k < r.personas@.len() ==> (#[trigger] r.personas@[k]).prompt_hash is Some,
            spec_exactly_one_user(r.personas@),
            spec_hashes_fresh(r.personas@),
            r.prompt_labels@.len() == 0,
            r.memories@.len() == 0,
    {
        let mut ws = Workspace {
            organizations: seed_organizations(),
            departments: seed_departments(),
            personas: seed_personas(),
            groups: seed_groups(),
            settings: seed_settings(),
            prompt_labels: Vec::new(),
            memories: Vec::new(),
        };
        let ghost before = ws.personas@;
        ws.refresh_prompt_hashes();
        proof {
            let w = choose|w: int| 0 <= w < before.len() && (#[trigger] before[w]).kind == PersonaKind::User && forall|j: int|
                0 <= j < before.len() && j != w ==> (#[trigger] before[j]).kind != PersonaKind::User;
            assert(spec_rehashed(before[w], ws.personas@[w]));
            assert forall|j: int| 0 <= j < ws.personas@.len() && j != w implies (#[trigger] ws.personas@[j]).kind != PersonaKind::User by {
                assert(spec_rehashed(before[j], ws.personas@[j]));
            }
            assert forall|j: int| 0 <= j < ws.personas@.len() implies (#[trigger] ws.personas@[j])@ == spec_rehash_view(
                before[j]@,
            ) by {
                assert(spec_rehashed(before[j], ws.personas@[j]));
            }
            assert(before.len() == spec_seed_personas().len());
            assert(forall|k: int| 0 <= k < before.len() ==> (#[trigger] before[k])@ == spec_seed_personas()[k]) by {
                assert forall|k: int| 0 <= k < before.len() implies (#[trigger] before[k])@ == spec_seed_personas()[k] by {
                    assert(before.map_values(|p: Persona| p.deep_view())[k] == before[k].deep_view());
                }
            }
            assert forall|k: int| 0 <= k < ws.organizations@.len() implies (#[trigger] ws.organizations@[k])@
                == spec_seed_organizations()[k] by {
                assert(ws.organizations.deep_view()[k] == ws.organizations@[k].deep_view());
            }
            assert forall|k: int| 0 <= k < ws.departments@.len() implies (#[trigger] ws.departments@[k])@
                == spec_seed_departments()[k] by {
                assert(ws.departments.deep_view()[k] == ws.departments@[k].deep_view());
            }
            assert forall|k: int| 0 <= k < ws.groups@.len() implies (#[trigger] ws.groups@[k])@ == spec_seed_groups()[k] by {
                assert(ws.groups.deep_view()[k] == ws.groups@[k].deep_view());
            }
            lemma_seed_prompts_hashed();
            assert forall|k: int| 1 <= k < ws.personas@.len() implies (#[trigger] ws.personas@[k]).prompt_hash is Some by {
                assert(ws.personas@[k]@ == spec_rehash_view(spec_seed_personas()[k]));
            }
            assert(ws.organizations.deep_view().len() == ws.organizations@.len());
            assert(ws.departments.deep_view().len() == ws.departments@.len());
            assert(ws.groups.deep_view().len() == ws.groups@.len());
        }
        ws
    }
}

// --- Ids ----------------------------------------------------------------------

/// A character allowed in a stored id.
pub open spec fn spec_id_char(c: char) -> bool {
    ('0' <= c && c <= '9') || ('a' <= c && c <= 'z') || ('A' <= c && c <= 'Z') || c == '-' || c
        == '_'
}

/// Whether a client-proposed id may be stored: 1 to 64 characters, each an
/// ASCII letter or digit, `-` or `_` (so it maps to a file name one for one).
pub open spec fn spec_usable_id(s: Seq<char>) -> bool {
    &&& 0 < s.len() <= 64
    &&& forall|i: int| 0 <= i < s.len() ==> spec_id_char(#[trigger] s[i])
}

/// A character of a hyphenated lowercase UUID.
pub open spec fn spec_uuid_char(c: char) -> bool {
    ('0' <= c && c <= '9') || ('a' <= c && c <= 'f') || c == '-'
}

/// A newly minted id: a random (v4) UUID in its hyphenated lowercase form
/// (`uuid::Uuid::new_v4().to_string()`), 36 characters of hex digits and
/// hyphens. Which UUID comes out is random and not stated. A failure of the
/// system's random source (on which uuid panics) is no input and is not
/// covered.
#[verifier::external_body]
fn new_id() -> (r: String)
    ensures
        r@.len() == 36,
        forall|i: int| 0 <= i < r@.len() ==> spec_uuid_char(#[trigger] r@[i]),
{
    uuid::Uuid::new_v4().to_string()
}

/// Whether a client-proposed id is one we're willing to store.
pub fn usable_id(proposed: &str) -> (r: bool)
    ensures
        r == spec_usable_id(proposed@),
{
    let cs = chars_of(proposed);
    if cs.len() == 0 || cs.len() > 64 {
        return false;
    }
    let mut i: usize = 0;
    while i < cs.len()
        invariant
            cs@ == proposed@,
            i <= cs@.len(),
            forall|k: int| 0 <= k < i ==> spec_id_char(#[trigger] cs@[k]),
        decreases cs@.len() - i,
    {
        let c = cs[i];
        if !(('0' <= c && c <= '9') || ('a' <= c && c <= 'z') || ('A' <= c && c <= 'Z') || c == '-'
            || c == '_') {
            assert(!spec_id_char(proposed@[i as int]));
            return false;
        }
        i = i + 1;
    }
    true
}

/// The id a created resource gets: the proposed one when it is usable and not
/// `taken` by another resource of its kind, otherwise a fresh random one.
pub open spec fn spec_id_kept(proposed: Seq<char>, taken: bool) -> bool {
    spec_usable_id(proposed) && !taken
}

/// A fresh random id, which is always a usable one.
fn fresh_id() -> (r: String)
    ensures
        spec_usable_id(r@),
        r@.len() == 36,
        forall|i: int| 0 <= i < r@.len() ==> spec_uuid_char(#[trigger] r@[i]),
{
    let r = new_id();
    assert forall|i: int| 0 <= i < r@.len() implies spec_id_char(#[trigger] r@[i]) by {
        assert(spec_uuid_char(r@[i]));
    }
    r
}

fn resolve_id(proposed: String, taken: bool) -> (r: String)
    ensures
        spec_id_kept(proposed@, taken) ==> r == proposed,
        !spec_id_kept(proposed@, taken) ==> r@.len() == 36 && forall|i: int|
            0 <= i < r@.len() ==> spec_uuid_char(#[trigger] r@[i]),
        spec_usable_id(r@),
{
    if !usable_id(proposed.as_str()) {
        return fresh_id();
    }
    if taken {
        return fresh_id();
    }
    proposed
}

} // verus!
