//! What the model's memory tools do: recall filters a persona's memories by
//! keywords (case-insensitively), remember collects new facts (trimmed, no
//! duplicates).

use vstd::prelude::*;
use vstd::string::*;

use crate::agent::mock::{to_lowercase, unicode_lowercase};
use crate::text::{contains_str, spec_contains, spec_trim, trim, views};
use crate::workspace::keep;

verus! {

/// The recall query that narrows the results: the trimmed query, unless it
/// is absent or blank.
pub open spec fn spec_recall_query(query: Option<Seq<char>>) -> Option<Seq<char>> {
    match query {
        Some(q) => if spec_trim(q).len() == 0 {
            None
        } else {
            Some(spec_trim(q))
        },
        None => None,
    }
}

/// Whether a memory matches a query: the query occurs in it, both lowercased.
pub open spec fn recall_match(needle: Seq<char>) -> spec_fn(String) -> bool {
    |m: String| spec_contains(unicode_lowercase(m@), unicode_lowercase(needle))
}

/// The memories a recall returns: all of them without a query, else those
/// containing the query (case-insensitively), in order.
pub fn recall(memories: &Vec<String>, query: Option<&str>) -> (r: Vec<String>)
    ensures
        match spec_recall_query(match query {
            Some(q) => Some(q@),
            None => None,
        }) {
            None => r@ == memories@,
            Some(q) => r@ == keep(memories@, recall_match(q)),
        },
{
    let q = match query {
        Some(q) => {
            let t = trim(q);
            if t.unicode_len() == 0 {
                None
            } else {
                Some(t)
            }
        },
        None => None,
    };
    match q {
        None => crate::models::copy_strings(memories),
        Some(t) => {
            let needle = to_lowercase(t.as_str());
            let mut found = crate::models::copy_strings(memories);
            crate::workspace::retain_where(
                &mut found,
                (|m: &String| -> (b: bool)
                    ensures
                        b == recall_match(t@)(*m),
                    {
                        let lower = to_lowercase(m.as_str());
                        contains_str(lower.as_str(), needle.as_str())
                    }),
                Ghost(recall_match(t@)),
            );
            found
        },
    }
}

/// Saves one fact: trimmed, ignored when blank, dropped when already saved.
/// The tool answers "Saved." either way.
pub fn remember(sink: &mut Vec<String>, content: &str) -> (r: String)
    ensures
        r@ == "Saved."@,
        spec_trim(content@).len() == 0 || views(old(sink)@).contains(spec_trim(content@)) ==> final(sink)@
            == old(sink)@,
        !(spec_trim(content@).len() == 0 || views(old(sink)@).contains(spec_trim(content@)))
            ==> views(final(sink)@) == views(old(sink)@).push(spec_trim(content@)),
{
    let t = trim(content);
    if t.unicode_len() > 0 && !crate::text::contains_string(sink, t.as_str()) {
        let ghost before = views(sink@);
        sink.push(t);
        assert(views(sink@) =~= before.push(spec_trim(content@)));
    }
    String::from_str("Saved.")
}

} // verus!
