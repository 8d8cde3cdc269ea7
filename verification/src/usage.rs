//! The bookkeeping behind the usage panel: per-model request and token
//! counters, and each group's ring of recent inference traces.

use vstd::prelude::*;
use vstd::string::*;

use crate::agent::output::spec_sat_add;
use crate::models::{opt_view, TokenUsage};

verus! {

/// The key a trace with no model name (the rule-based brain) is filed under.
pub const UNKNOWN_MODEL: &'static str = "unknown";

/// How many recent traces a group keeps.
pub const DEBUG_TRACE_CAP: usize = 50;

/// The model a trace is counted under: its own, or `"unknown"`.
pub open spec fn spec_model_key(model: Option<Seq<char>>) -> Seq<char> {
    match model {
        Some(m) => m,
        None => "unknown"@,
    }
}

/// The key a trace's usage is filed under.
pub fn model_key(model: &Option<String>) -> (r: String)
    ensures
        r@ == spec_model_key(opt_view(*model)),
{
    match model {
        Some(m) => m.clone(),
        None => String::from_str(UNKNOWN_MODEL),
    }
}

/// One model's running request and token counts.
#[derive(Clone, Copy, Debug, PartialEq, Eq, Structural)]
pub struct ModelCounts {
    pub requests: u64,
    pub prompt_tokens: u64,
    pub completion_tokens: u64,
    pub total_tokens: u64,
    pub cached_prompt_tokens: u64,
}

/// The counts after one more trace: every trace is a request, whether or not
/// it carried usage; its tokens, when it did, are added. Counts saturate.
pub open spec fn spec_counted(c: ModelCounts, usage: Option<TokenUsage>) -> ModelCounts {
    let requests = spec_sat_add(c.requests, 1);
    match usage {
        None => ModelCounts { requests, ..c },
        Some(u) => ModelCounts {
            requests,
            prompt_tokens: spec_sat_add(c.prompt_tokens, u.prompt_tokens),
            completion_tokens: spec_sat_add(c.completion_tokens, u.completion_tokens),
            total_tokens: spec_sat_add(c.total_tokens, u.total_tokens),
            cached_prompt_tokens: spec_sat_add(c.cached_prompt_tokens, u.cached_prompt_tokens),
        },
    }
}

impl ModelCounts {
    /// Counts that have seen nothing.
    pub fn zero() -> (r: ModelCounts)
        ensures
            r == (ModelCounts {
                requests: 0,
                prompt_tokens: 0,
                completion_tokens: 0,
                total_tokens: 0,
                cached_prompt_tokens: 0,
            }),
    {
        ModelCounts { requests: 0, prompt_tokens: 0, completion_tokens: 0, total_tokens: 0, cached_prompt_tokens: 0 }
    }

    /// Folds one trace in.
    pub fn record(&mut self, usage: Option<TokenUsage>)
        ensures
            *final(self) == spec_counted(*old(self), usage),
    {
        self.requests = self.requests.saturating_add(1);
        if let Some(u) = usage {
            self.prompt_tokens = self.prompt_tokens.saturating_add(u.prompt_tokens);
            self.completion_tokens = self.completion_tokens.saturating_add(u.completion_tokens);
            self.total_tokens = self.total_tokens.saturating_add(u.total_tokens);
            self.cached_prompt_tokens = self.cached_prompt_tokens.saturating_add(u.cached_prompt_tokens);
        }
    }
}

/// Counts never go down: every field of the counts after a trace is at least
/// what it was, and the request count rises unless it is already at its cap.
pub proof fn lemma_counts_grow(c: ModelCounts, usage: Option<TokenUsage>)
    ensures
        spec_counted(c, usage).requests >= c.requests,
        c.requests < u64::MAX ==> spec_counted(c, usage).requests == c.requests + 1,
        spec_counted(c, usage).prompt_tokens >= c.prompt_tokens,
        spec_counted(c, usage).completion_tokens >= c.completion_tokens,
        spec_counted(c, usage).total_tokens >= c.total_tokens,
        spec_counted(c, usage).cached_prompt_tokens >= c.cached_prompt_tokens,
{
}

/// A ring after one push: the newest `cap` items of the old ring plus the new
/// one, oldest first.
pub open spec fn spec_pushed_capped<T>(ring: Seq<T>, item: T, cap: nat) -> Seq<T> {
    let full = ring.push(item);
    if full.len() <= cap {
        full
    } else {
        full.subrange(full.len() - cap, full.len() as int)
    }
}

/// Appends an item, then drops the oldest until at most `cap` remain.
pub fn push_capped<T>(ring: &mut Vec<T>, item: T, cap: usize)
    requires
        cap > 0,
    ensures
        final(ring)@ == spec_pushed_capped(old(ring)@, item, cap as nat),
{
    ring.push(item);
    let ghost full = ring@;
    let ghost mut dropped: int = 0;
    while ring.len() > cap
        invariant
            cap > 0,
            0 <= dropped <= full.len(),
            ring@ == full.subrange(dropped, full.len() as int),
            dropped > 0 ==> full.len() - dropped >= cap,
        decreases ring.len(),
    {
        ring.remove(0);
        proof {
            dropped = dropped + 1;
        }
        assert(ring@ =~= full.subrange(dropped, full.len() as int));
    }
    proof {
        if full.len() > cap {
            assert(dropped == full.len() - cap);
        } else {
            assert(dropped == 0);
            assert(ring@ =~= full);
        }
    }
}

/// A ring never holds more than its cap, and its newest item is the one just
/// pushed.
pub proof fn lemma_ring_bounded<T>(ring: Seq<T>, item: T, cap: nat)
    requires
        cap > 0,
    ensures
        spec_pushed_capped(ring, item, cap).len() <= cap,
        spec_pushed_capped(ring, item, cap).last() == item,
        ring.len() < cap ==> spec_pushed_capped(ring, item, cap) == ring.push(item),
{
}

// --- Usage totals and ranking -----------------------------------------------------

/// One keyed usage entry: a model (or persona) and its counts.
pub type UsageEntry = (String, ModelCounts);

/// The counts of a breakdown summed field by field, saturating.
pub open spec fn spec_sum_counts(s: Seq<UsageEntry>) -> ModelCounts
    decreases s.len(),
{
    if s.len() == 0 {
        ModelCounts { requests: 0, prompt_tokens: 0, completion_tokens: 0, total_tokens: 0, cached_prompt_tokens: 0 }
    } else {
        let acc = spec_sum_counts(s.drop_last());
        let c = s.last().1;
        ModelCounts {
            requests: spec_sat_add(acc.requests, c.requests),
            prompt_tokens: spec_sat_add(acc.prompt_tokens, c.prompt_tokens),
            completion_tokens: spec_sat_add(acc.completion_tokens, c.completion_tokens),
            total_tokens: spec_sat_add(acc.total_tokens, c.total_tokens),
            cached_prompt_tokens: spec_sat_add(acc.cached_prompt_tokens, c.cached_prompt_tokens),
        }
    }
}

/// The grand totals of a per-model (or per-persona) breakdown.
pub fn sum_counts(entries: &Vec<UsageEntry>) -> (r: ModelCounts)
    ensures
        r == spec_sum_counts(entries@),
{
    let mut acc = ModelCounts::zero();
    let mut i: usize = 0;
    while i < entries.len()
        invariant
            i <= entries@.len(),
            acc == spec_sum_counts(entries@.subrange(0, i as int)),
        decreases entries@.len() - i,
    {
        assert(entries@.subrange(0, i + 1).drop_last() =~= entries@.subrange(0, i as int));
        let c = entries[i].1;
        acc = ModelCounts {
            requests: acc.requests.saturating_add(c.requests),
            prompt_tokens: acc.prompt_tokens.saturating_add(c.prompt_tokens),
            completion_tokens: acc.completion_tokens.saturating_add(c.completion_tokens),
            total_tokens: acc.total_tokens.saturating_add(c.total_tokens),
            cached_prompt_tokens: acc.cached_prompt_tokens.saturating_add(c.cached_prompt_tokens),
        };
        i = i + 1;
    }
    assert(entries@.subrange(0, entries@.len() as int) =~= entries@);
    acc
}

/// Inserts an entry into a list ranked by total tokens (highest first), after
/// every entry with at least as many (so ties keep their order).
pub open spec fn spec_insert_ranked(sorted: Seq<UsageEntry>, e: UsageEntry) -> Seq<UsageEntry>
    decreases sorted.len(),
{
    if sorted.len() == 0 {
        seq![e]
    } else if sorted[0].1.total_tokens < e.1.total_tokens {
        seq![e] + sorted
    } else {
        seq![sorted[0]] + spec_insert_ranked(sorted.drop_first(), e)
    }
}

/// A breakdown ranked by total tokens, highest first: a stable sort.
pub open spec fn spec_ranked(s: Seq<UsageEntry>) -> Seq<UsageEntry>
    decreases s.len(),
{
    if s.len() == 0 {
        s
    } else {
        spec_insert_ranked(spec_ranked(s.drop_last()), s.last())
    }
}

/// No entry comes before one with more total tokens.
pub open spec fn spec_sorted_by_tokens(s: Seq<UsageEntry>) -> bool {
    forall|i: int, j: int| 0 <= i < j < s.len() ==> (#[trigger] s[i]).1.total_tokens >= (#[trigger] s[j]).1.total_tokens
}

proof fn lemma_insert_ranked(sorted: Seq<UsageEntry>, e: UsageEntry)
    requires
        spec_sorted_by_tokens(sorted),
    ensures
        spec_sorted_by_tokens(spec_insert_ranked(sorted, e)),
        spec_insert_ranked(sorted, e).to_multiset() == sorted.to_multiset().insert(e),
        spec_insert_ranked(sorted, e).len() == sorted.len() + 1,
    decreases sorted.len(),
{
    broadcast use vstd::multiset::group_multiset_axioms;
    broadcast use vstd::seq_lib::group_to_multiset_ensures;
    let r = spec_insert_ranked(sorted, e);
    if sorted.len() == 0 {
        assert(r =~= seq![e]);
        assert(seq![e].to_multiset() =~= vstd::multiset::Multiset::<UsageEntry>::empty().insert(e)) by {
            assert(seq![e] =~= Seq::<UsageEntry>::empty().push(e));
            vstd::seq_lib::lemma_multiset_commutative(Seq::<UsageEntry>::empty(), seq![e]);
        }
    } else if sorted[0].1.total_tokens < e.1.total_tokens {
        vstd::seq_lib::lemma_multiset_commutative(seq![e], sorted);
        assert(seq![e].to_multiset() =~= vstd::multiset::Multiset::<UsageEntry>::empty().insert(e)) by {
            assert(seq![e] =~= Seq::<UsageEntry>::empty().push(e));
        }
        assert forall|i: int, j: int| 0 <= i < j < r.len() implies (#[trigger] r[i]).1.total_tokens >= (#[trigger] r[j]).1.total_tokens by {
            if i == 0 {
                assert(r[j] == sorted[j - 1]);
                if j - 1 > 0 {
                    assert(sorted[0].1.total_tokens >= sorted[j - 1].1.total_tokens);
                }
            } else {
                assert(r[i] == sorted[i - 1]);
                assert(r[j] == sorted[j - 1]);
            }
        }
    } else {
        let t = sorted.drop_first();
        assert forall|i: int, j: int| 0 <= i < j < t.len() implies (#[trigger] t[i]).1.total_tokens >= (#[trigger] t[j]).1.total_tokens by {
            assert(t[i] == sorted[i + 1]);
            assert(t[j] == sorted[j + 1]);
        }
        lemma_insert_ranked(t, e);
        let rt = spec_insert_ranked(t, e);
        vstd::seq_lib::lemma_multiset_commutative(seq![sorted[0]], rt);
        vstd::seq_lib::lemma_multiset_commutative(seq![sorted[0]], t);
        assert(seq![sorted[0]] + t =~= sorted);
        assert forall|i: int, j: int| 0 <= i < j < r.len() implies (#[trigger] r[i]).1.total_tokens >= (#[trigger] r[j]).1.total_tokens by {
            if i == 0 {
                assert(r[j] == rt[j - 1]);
                assert(rt.contains(rt[j - 1]));
                assert(rt.to_multiset().count(rt[j - 1]) > 0);
                if rt[j - 1] == e {
                } else {
                    assert(t.to_multiset().count(rt[j - 1]) > 0);
                    assert(t.contains(rt[j - 1]));
                    let w = choose|w: int| 0 <= w < t.len() && t[w] == rt[j - 1];
                    assert(sorted[w + 1] == t[w]);
                }
            } else {
                assert(r[i] == rt[i - 1]);
                assert(r[j] == rt[j - 1]);
            }
        }
        assert(sorted.to_multiset().insert(e) =~= seq![sorted[0]].to_multiset().add(t.to_multiset().insert(e)));
    }
}

/// Ranking gives a sorted arrangement of the same entries.
pub proof fn lemma_ranked(s: Seq<UsageEntry>)
    ensures
        spec_sorted_by_tokens(spec_ranked(s)),
        spec_ranked(s).to_multiset() == s.to_multiset(),
        spec_ranked(s).len() == s.len(),
    decreases s.len(),
{
    broadcast use vstd::multiset::group_multiset_axioms;
    if s.len() > 0 {
        lemma_ranked(s.drop_last());
        lemma_insert_ranked(spec_ranked(s.drop_last()), s.last());
        broadcast use vstd::seq_lib::group_to_multiset_ensures;
        assert(s.drop_last().push(s.last()) =~= s);
    } else {
        assert(spec_ranked(s) =~= s);
    }
}

fn insert_ranked(sorted: &mut Vec<UsageEntry>, e: UsageEntry)
    ensures
        final(sorted)@ == spec_insert_ranked(old(sorted)@, e),
{
    let ghost orig = sorted@;
    let mut pos: usize = 0;
    assert(orig.subrange(0, 0) + spec_insert_ranked(orig.subrange(0, orig.len() as int), e) =~= spec_insert_ranked(orig, e)) by {
        assert(orig.subrange(0, orig.len() as int) =~= orig);
    }
    while pos < sorted.len() && !(sorted[pos].1.total_tokens < e.1.total_tokens)
        invariant
            sorted@ == orig,
            pos <= orig.len(),
            orig.subrange(0, pos as int) + spec_insert_ranked(orig.subrange(pos as int, orig.len() as int), e)
                == spec_insert_ranked(orig, e),
        decreases orig.len() - pos,
    {
        let ghost rest = orig.subrange(pos as int, orig.len() as int);
        assert(rest[0] == orig[pos as int]);
        assert(rest.drop_first() =~= orig.subrange(pos + 1, orig.len() as int));
        assert(orig.subrange(0, pos + 1) =~= orig.subrange(0, pos as int) + seq![rest[0]]);
        pos = pos + 1;
    }
    proof {
        let rest = orig.subrange(pos as int, orig.len() as int);
        if pos < orig.len() {
            assert(rest[0] == orig[pos as int]);
        }
        assert(spec_insert_ranked(rest, e) == seq![e] + rest);
    }
    sorted.insert(pos, e);
    assert(sorted@ =~= orig.subrange(0, pos as int) + (seq![e] + orig.subrange(pos as int, orig.len() as int)));
}

/// A usage breakdown ranked by total tokens, highest first (ties keep their
/// order): a sorted arrangement of exactly the given entries.
pub fn rank_by_tokens(entries: Vec<UsageEntry>) -> (r: Vec<UsageEntry>)
    ensures
        r@ == spec_ranked(entries@),
        spec_sorted_by_tokens(r@),
        r@.to_multiset() == entries@.to_multiset(),
{
    let mut out: Vec<UsageEntry> = Vec::new();
    let mut i: usize = 0;
    while i < entries.len()
        invariant
            i <= entries@.len(),
            out@ == spec_ranked(entries@.subrange(0, i as int)),
        decreases entries@.len() - i,
    {
        assert(entries@.subrange(0, i + 1).drop_last() =~= entries@.subrange(0, i as int));
        let e = (entries[i].0.clone(), entries[i].1);
        assert(e == entries@[i as int]);
        insert_ranked(&mut out, e);
        i = i + 1;
    }
    assert(entries@.subrange(0, entries@.len() as int) =~= entries@);
    proof {
        lemma_ranked(entries@);
    }
    out
}

} // verus!
