//! Helpers around the match tally.

use vstd::prelude::*;

use crate::tally::{lex_le, MatchTally};

verus! {

/// Chooses the song with the highest matching-hash count from a tally. Ties
/// go to the lexicographically smallest song name, so the result never
/// depends on iteration order; when no song has a positive count, a fixed
/// placeholder name and a count of zero come back.
pub fn pick_most_likely(findings: &MatchTally) -> (best: (String, usize))
    requires
        findings.wf(),
    ensures
        forall|s: Seq<char>| findings@.contains_key(s) ==> #[trigger] findings@[s] <= best.1 as nat,
        best.1 > 0 ==> {
            &&& findings@.contains_key(best.0@)
            &&& findings@[best.0@] == best.1 as nat
            &&& forall|s: Seq<char>|
                findings@.contains_key(s) && #[trigger] findings@[s] == best.1 as nat ==> lex_le(
                    best.0@,
                    s,
                )
        },
        best.1 == 0 ==> best.0@ == "No match found"@,
{
    findings.best_match()
}

} // verus!
