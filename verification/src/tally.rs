//! Match tallies: per-query vote counts keyed by song, with a deterministic
//! best-match choice.
//!
//! A tally maps each song name to the number of query fingerprints that
//! matched it. The best match is the song with the highest vote count; ties
//! are broken by the lexicographically smallest song name, so the choice
//! never depends on iteration order.

use vstd::prelude::*;

verus! {

/// Lexicographic order on character sequences: `a` comes no later than `b`.
pub open spec fn lex_le(a: Seq<char>, b: Seq<char>) -> bool
    decreases a.len(),
{
    if a.len() == 0 {
        true
    } else if b.len() == 0 {
        false
    } else if a[0] == b[0] {
        lex_le(a.skip(1), b.skip(1))
    } else {
        (a[0] as u32) < (b[0] as u32)
    }
}

/// The lexicographic order is total.
pub proof fn lemma_lex_le_total(a: Seq<char>, b: Seq<char>)
    ensures
        lex_le(a, b) || lex_le(b, a),
    decreases a.len(),
{
    if a.len() > 0 && b.len() > 0 {
        if a[0] == b[0] {
            lemma_lex_le_total(a.skip(1), b.skip(1));
        } else {
            if (a[0] as u32) == (b[0] as u32) {
                vstd::utf8::char_u32_cast(a[0], a[0] as u32);
                vstd::utf8::char_u32_cast(b[0], b[0] as u32);
            }
        }
    }
}

/// The lexicographic order is reflexive.
pub proof fn lemma_lex_le_refl(a: Seq<char>)
    ensures
        lex_le(a, a),
    decreases a.len(),
{
    if a.len() > 0 {
        lemma_lex_le_refl(a.skip(1));
    }
}

/// The lexicographic order is transitive.
pub proof fn lemma_lex_le_trans(a: Seq<char>, b: Seq<char>, c: Seq<char>)
    requires
        lex_le(a, b),
        lex_le(b, c),
    ensures
        lex_le(a, c),
    decreases a.len(),
{
    if a.len() == 0 || c.len() == 0 {
    } else if a[0] == b[0] && b[0] == c[0] {
        lemma_lex_le_trans(a.skip(1), b.skip(1), c.skip(1));
    }
}

/// Holds when no two songs in the sequence have the same name.
pub open spec fn distinct_views(songs: Seq<String>) -> bool {
    forall|i: int, j: int|
        0 <= i < j < songs.len() ==> (#[trigger] songs[i])@ != (#[trigger] songs[j])@
}

/// The map that a parallel pair of song and count columns stands for; a later
/// occurrence of a song name would win, but a well-formed tally has each name
/// at most once.
pub open spec fn tally_map(songs: Seq<String>, counts: Seq<usize>) -> Map<Seq<char>, nat>
    decreases songs.len(),
{
    if songs.len() == 0 || songs.len() != counts.len() {
        Map::empty()
    } else {
        tally_map(songs.drop_last(), counts.drop_last()).insert(
            songs.last()@,
            counts.last() as nat,
        )
    }
}

/// Pushing a fresh column onto a tally inserts its pair into the map.
pub proof fn lemma_tally_map_push(songs: Seq<String>, counts: Seq<usize>, song: String, count: usize)
    requires
        songs.len() == counts.len(),
    ensures
        tally_map(songs.push(song), counts.push(count)) == tally_map(songs, counts).insert(
            song@,
            count as nat,
        ),
{
    assert(songs.push(song).drop_last() =~= songs);
    assert(counts.push(count).drop_last() =~= counts);
}

/// A tally map contains a key exactly when some column holds that song name.
pub proof fn lemma_tally_map_contains(songs: Seq<String>, counts: Seq<usize>, k: Seq<char>)
    requires
        songs.len() == counts.len(),
    ensures
        tally_map(songs, counts).contains_key(k) <==> exists|i: int|
            0 <= i < songs.len() && (#[trigger] songs[i])@ == k,
    decreases songs.len(),
{
    if songs.len() > 0 {
        lemma_tally_map_contains(songs.drop_last(), counts.drop_last(), k);
        if songs.last()@ == k {
            assert(songs[songs.len() - 1]@ == k);
        } else if tally_map(songs, counts).contains_key(k) {
            let i = choose|i: int|
                0 <= i < songs.len() - 1 && (#[trigger] songs.drop_last()[i])@ == k;
            assert(songs[i]@ == k);
        } else {
            assert forall|i: int| 0 <= i < songs.len() implies (#[trigger] songs[i])@ != k by {
                if i < songs.len() - 1 {
                    assert(songs.drop_last()[i]@ != k);
                }
            }
        }
    }
}

/// In a well-formed tally the map sends each column's song name to that
/// column's count.
pub proof fn lemma_tally_map_at(songs: Seq<String>, counts: Seq<usize>, i: int)
    requires
        songs.len() == counts.len(),
        distinct_views(songs),
        0 <= i < songs.len(),
    ensures
        tally_map(songs, counts).contains_key(songs[i]@),
        tally_map(songs, counts)[songs[i]@] == counts[i] as nat,
    decreases songs.len(),
{
    if i == songs.len() - 1 {
    } else {
        assert(distinct_views(songs.drop_last()));
        lemma_tally_map_at(songs.drop_last(), counts.drop_last(), i);
        assert(songs.drop_last()[i] == songs[i]);
        assert(songs[i]@ != songs.last()@);
    }
}

/// Overwriting one count column updates exactly that song's entry.
pub proof fn lemma_tally_map_update(songs: Seq<String>, counts: Seq<usize>, i: int, c: usize)
    requires
        songs.len() == counts.len(),
        distinct_views(songs),
        0 <= i < songs.len(),
    ensures
        tally_map(songs, counts.update(i, c)) == tally_map(songs, counts).insert(
            songs[i]@,
            c as nat,
        ),
    decreases songs.len(),
{
    let updated = counts.update(i, c);
    if i == songs.len() - 1 {
        assert(updated.drop_last() =~= counts.drop_last());
        assert(tally_map(songs, updated) =~= tally_map(songs, counts).insert(songs[i]@, c as nat));
    } else {
        assert(distinct_views(songs.drop_last()));
        assert(updated.drop_last() =~= counts.drop_last().update(i, c));
        lemma_tally_map_update(songs.drop_last(), counts.drop_last(), i, c);
        assert(songs.drop_last()[i] == songs[i]);
        assert(songs[i]@ != songs.last()@);
        assert(tally_map(songs, updated) =~= tally_map(songs, counts).insert(songs[i]@, c as nat));
    }
}

/// Transient per-query tally: how many of the query's fingerprints matched
/// each song.
pub struct MatchTally {
    songs: Vec<String>,
    counts: Vec<usize>,
}

impl View for MatchTally {
    type V = Map<Seq<char>, nat>;

    closed spec fn view(&self) -> Map<Seq<char>, nat> {
        tally_map(self.songs@, self.counts@)
    }
}

impl MatchTally {
    /// Well-formedness: the two columns line up and no song name repeats.
    pub closed spec fn wf(&self) -> bool {
        &&& self.songs@.len() == self.counts@.len()
        &&& distinct_views(self.songs@)
    }

    /// The empty tally.
    pub fn new() -> (t: MatchTally)
        ensures
            t.wf(),
            t@ == Map::<Seq<char>, nat>::empty(),
    {
        MatchTally { songs: Vec::new(), counts: Vec::new() }
    }

    /// Index of the column holding `song`, if any.
    fn find_song(&self, song: &String) -> (r: Option<usize>)
        requires
            self.wf(),
        ensures
            match r {
                Some(i) => i < self.songs@.len() && self.songs@[i as int]@ == song@,
                None => forall|j: int|
                    0 <= j < self.songs@.len() ==> (#[trigger] self.songs@[j])@ != song@,
            },
    {
        let mut i: usize = 0;
        while i < self.songs.len()
            invariant
                i <= self.songs@.len(),
                forall|j: int| 0 <= j < i ==> (#[trigger] self.songs@[j])@ != song@,
            decreases self.songs@.len() - i,
        {
            if self.songs[i] == *song {
                return Some(i);
            }
            i += 1;
        }
        None
    }

    /// The vote count recorded for `song`, or nothing when the song has no
    /// entry.
    pub fn get(&self, song: &String) -> (r: Option<usize>)
        requires
            self.wf(),
        ensures
            match r {
                Some(c) => self@.contains_key(song@) && self@[song@] == c as nat,
                None => !self@.contains_key(song@),
            },
    {
        let found = self.find_song(song);
        proof {
            lemma_tally_map_contains(self.songs@, self.counts@, song@);
        }
        match found {
            Some(i) => {
                proof {
                    lemma_tally_map_at(self.songs@, self.counts@, i as int);
                }
                Some(self.counts[i])
            },
            None => None,
        }
    }

    /// Records exactly `count` votes for `song`, adding the entry or
    /// overwriting the one already there.
    pub fn set_count(&mut self, song: &String, count: usize)
        requires
            old(self).wf(),
        ensures
            final(self).wf(),
            final(self)@ == old(self)@.insert(song@, count as nat),
    {
        let found = self.find_song(song);
        match found {
            Some(i) => {
                proof {
                    lemma_tally_map_update(self.songs@, self.counts@, i as int, count);
                }
                self.counts.set(i, count);
            },
            None => {
                proof {
                    lemma_tally_map_push(self.songs@, self.counts@, *song, count);
                }
                self.songs.push(song.clone());
                self.counts.push(count);
                proof {
                    assert(self.songs@.drop_last() =~= old(self).songs@);
                }
            },
        }
    }

    /// Adds one vote for `song`, starting a new entry at one vote when the
    /// song has none yet.
    pub fn add_vote(&mut self, song: &String)
        requires
            old(self).wf(),
            old(self)@.contains_key(song@) ==> old(self)@[song@] < usize::MAX,
        ensures
            final(self).wf(),
            final(self)@ == old(self)@.insert(
                song@,
                (if old(self)@.contains_key(song@) {
                    old(self)@[song@] + 1
                } else {
                    1nat
                }),
            ),
    {
        let found = self.find_song(song);
        proof {
            lemma_tally_map_contains(self.songs@, self.counts@, song@);
        }
        match found {
            Some(i) => {
                proof {
                    lemma_tally_map_at(self.songs@, self.counts@, i as int);
                    lemma_tally_map_update(
                        self.songs@,
                        self.counts@,
                        i as int,
                        (self.counts@[i as int] + 1) as usize,
                    );
                }
                let c = self.counts[i];
                self.counts.set(i, c + 1);
            },
            None => {
                proof {
                    lemma_tally_map_push(self.songs@, self.counts@, *song, 1);
                }
                self.songs.push(song.clone());
                self.counts.push(1);
                proof {
                    assert(self.songs@.drop_last() =~= old(self).songs@);
                }
            },
        }
    }

    /// The song with the highest vote count, together with that count; ties
    /// go to the lexicographically smallest song name. With no positive
    /// count at all, a fixed placeholder name and a count of zero come back.
    #[verifier::loop_isolation(false)]
    pub fn best_match(&self) -> (best: (String, usize))
        requires
            self.wf(),
        ensures
            forall|s: Seq<char>| self@.contains_key(s) ==> #[trigger] self@[s] <= best.1 as nat,
            best.1 > 0 ==> {
                &&& self@.contains_key(best.0@)
                &&& self@[best.0@] == best.1 as nat
                &&& forall|s: Seq<char>|
                    self@.contains_key(s) && #[trigger] self@[s] == best.1 as nat ==> lex_le(
                        best.0@,
                        s,
                    )
            },
            best.1 == 0 ==> best.0@ == "No match found"@,
    {
        let mut best_song: String = "No match found".to_owned();
        let mut best_count: usize = 0;
        let mut i: usize = 0;
        while i < self.songs.len()
            invariant
                i <= self.songs@.len(),
                best_count == 0 ==> best_song@ == "No match found"@,
                forall|j: int| 0 <= j < i ==> #[trigger] self.counts@[j] <= best_count,
                best_count > 0 ==> exists|j: int|
                    0 <= j < i && (#[trigger] self.songs@[j])@ == best_song@
                        && self.counts@[j] == best_count,
                best_count > 0 ==> forall|j: int|
                    0 <= j < i && #[trigger] self.counts@[j] == best_count ==> lex_le(
                        best_song@,
                        self.songs@[j]@,
                    ),
            decreases self.songs@.len() - i,
        {
            let c = self.counts[i];
            if c > best_count {
                proof {
                    lemma_lex_le_refl(self.songs@[i as int]@);
                }
                best_song = self.songs[i].clone();
                best_count = c;
            } else if c == best_count && c > 0 {
                if lex_le_exec(&self.songs[i], &best_song) {
                    proof {
                        let cand = self.songs@[i as int]@;
                        assert forall|j: int|
                            0 <= j < i + 1 && #[trigger] self.counts@[j] == best_count implies
                            lex_le(cand, self.songs@[j]@) by {
                            if j < i {
                                lemma_lex_le_trans(cand, best_song@, self.songs@[j]@);
                            } else {
                                lemma_lex_le_refl(cand);
                            }
                        }
                    }
                    best_song = self.songs[i].clone();
                } else {
                    proof {
                        lemma_lex_le_total(self.songs@[i as int]@, best_song@);
                    }
                }
            }
            i += 1;
        }
        proof {
            assert forall|s: Seq<char>| self@.contains_key(s) implies #[trigger] self@[s]
                <= best_count as nat by {
                lemma_tally_map_contains(self.songs@, self.counts@, s);
                let j = choose|j: int| 0 <= j < self.songs@.len() && (#[trigger] self.songs@[j])@ == s;
                lemma_tally_map_at(self.songs@, self.counts@, j);
            }
            if best_count > 0 {
                let j = choose|j: int|
                    0 <= j < self.songs@.len() && (#[trigger] self.songs@[j])@ == best_song@
                        && self.counts@[j] == best_count;
                lemma_tally_map_at(self.songs@, self.counts@, j);
                assert forall|s: Seq<char>|
                    self@.contains_key(s) && #[trigger] self@[s] == best_count as nat implies
                    lex_le(best_song@, s) by {
                    lemma_tally_map_contains(self.songs@, self.counts@, s);
                    let k = choose|k: int|
                        0 <= k < self.songs@.len() && (#[trigger] self.songs@[k])@ == s;
                    lemma_tally_map_at(self.songs@, self.counts@, k);
                }
            }
        }
        (best_song, best_count)
    }
}

/// Decides whether `a` comes no later than `b` in lexicographic order.
fn lex_le_exec(a: &String, b: &String) -> (r: bool)
    ensures
        r == lex_le(a@, b@),
{
    let an = a.as_str().unicode_len();
    let bn = b.as_str().unicode_len();
    let mut i: usize = 0;
    proof {
        assert(a@.skip(0) =~= a@);
        assert(b@.skip(0) =~= b@);
    }
    while i < an && i < bn
        invariant
            i <= an,
            i <= bn,
            an == a@.len(),
            bn == b@.len(),
            lex_le(a@, b@) == lex_le(a@.skip(i as int), b@.skip(i as int)),
        decreases an - i,
    {
        let ca = a.as_str().get_char(i);
        let cb = b.as_str().get_char(i);
        proof {
            assert(a@.skip(i as int)[0] == a@[i as int]);
            assert(b@.skip(i as int)[0] == b@[i as int]);
        }
        if ca != cb {
            return (ca as u32) < (cb as u32);
        }
        proof {
            assert(a@.skip(i as int).skip(1) =~= a@.skip(i + 1));
            assert(b@.skip(i as int).skip(1) =~= b@.skip(i + 1));
        }
        i += 1;
    }
    an <= bn
}

} // verus!
