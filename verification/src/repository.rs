//! Match repository: a persistent index from fingerprint to the set of songs
//! it occurred in, with voting lookups.
//!
//! The contract is storage-engine-agnostic: any backing store that supports
//! atomic multi-key set-union writes and set-membership reads can implement
//! it. `SongIndex` is the verified in-memory implementation.

use std::collections::HashMap;
use vstd::prelude::*;

use crate::errors::RepositoryError;
use crate::tally::{distinct_views, MatchTally};

verus! {

broadcast use vstd::std_specs::hash::group_hash_axioms;

/// The name sequences of a column of songs.
pub open spec fn string_views(v: Seq<String>) -> Seq<Seq<char>> {
    v.map_values(|s: String| s@)
}

/// Whether some song in the column has the name `s`.
pub open spec fn seq_has_view(v: Seq<String>, s: Seq<char>) -> bool {
    exists|k: int| 0 <= k < v.len() && (#[trigger] v[k])@ == s
}

/// A column holds a name exactly when the set of its names does.
pub proof fn lemma_seq_has_view_to_set(v: Seq<String>, s: Seq<char>)
    ensures
        seq_has_view(v, s) == string_views(v).to_set().contains(s),
{
    if seq_has_view(v, s) {
        let k = choose|k: int| 0 <= k < v.len() && (#[trigger] v[k])@ == s;
        assert(string_views(v)[k] == s);
        assert(string_views(v).contains(s));
    }
    if string_views(v).to_set().contains(s) {
        assert(string_views(v).contains(s));
        let k = choose|k: int|
            0 <= k < string_views(v).len() && string_views(v)[k] == s;
        assert(v[k]@ == s);
    }
}

/// The abstract index that a concrete fingerprint table stands for.
pub open spec fn table_view(m: Map<u64, Vec<String>>) -> Map<u64, Set<Seq<char>>> {
    Map::new(|fp: u64| m.contains_key(fp), |fp: u64| string_views(m[fp]@).to_set())
}

/// The song set under a fingerprint; a missing key holds the empty set.
pub open spec fn songs_at(index: Map<u64, Set<Seq<char>>>, fp: u64) -> Set<Seq<char>> {
    if index.contains_key(fp) {
        index[fp]
    } else {
        Set::empty()
    }
}

/// The index after adding `song` to one fingerprint's set.
pub open spec fn add_song(index: Map<u64, Set<Seq<char>>>, fp: u64, song: Seq<char>) -> Map<
    u64,
    Set<Seq<char>>,
> {
    index.insert(fp, songs_at(index, fp).insert(song))
}

/// The index after storing `song` under every fingerprint of the collection,
/// in order.
pub open spec fn store_spec(index: Map<u64, Set<Seq<char>>>, fps: Seq<u64>, song: Seq<char>) -> Map<
    u64,
    Set<Seq<char>>,
>
    decreases fps.len(),
{
    if fps.len() == 0 {
        index
    } else {
        add_song(store_spec(index, fps.drop_last(), song), fps.last(), song)
    }
}

/// The vote one query fingerprint contributes to `song`.
pub open spec fn vote(index: Map<u64, Set<Seq<char>>>, fp: u64, song: Seq<char>) -> nat {
    if songs_at(index, fp).contains(song) {
        1nat
    } else {
        0nat
    }
}

/// The votes `song` receives from a query: one per query position whose
/// fingerprint's set contains the song, so a fingerprint occurring twice in
/// the query votes twice.
pub open spec fn votes_spec(index: Map<u64, Set<Seq<char>>>, fps: Seq<u64>, song: Seq<char>) -> nat
    decreases fps.len(),
{
    if fps.len() == 0 {
        0nat
    } else {
        votes_spec(index, fps.drop_last(), song) + vote(index, fps.last(), song)
    }
}

/// A song's votes never exceed the query length.
pub proof fn lemma_votes_le_len(index: Map<u64, Set<Seq<char>>>, fps: Seq<u64>, song: Seq<char>)
    ensures
        votes_spec(index, fps, song) <= fps.len(),
    decreases fps.len(),
{
    if fps.len() > 0 {
        lemma_votes_le_len(index, fps.drop_last(), song);
    }
}

/// Extending a query by one fingerprint adds exactly that fingerprint's vote.
pub proof fn lemma_votes_take_step(
    index: Map<u64, Set<Seq<char>>>,
    fps: Seq<u64>,
    i: int,
    song: Seq<char>,
)
    requires
        0 <= i < fps.len(),
    ensures
        votes_spec(index, fps.take(i + 1), song) == votes_spec(index, fps.take(i), song) + vote(
            index,
            fps[i],
            song,
        ),
{
    assert(fps.take(i + 1).drop_last() =~= fps.take(i));
    assert(fps.take(i + 1).last() == fps[i]);
}

/// Membership after a store, characterized exactly: a set contains a song
/// afterwards when it did before, or when the song is the stored one and the
/// key is among the stored fingerprints.
pub proof fn lemma_store_membership_iff(
    index: Map<u64, Set<Seq<char>>>,
    fps: Seq<u64>,
    song: Seq<char>,
    k: u64,
    s: Seq<char>,
)
    ensures
        songs_at(store_spec(index, fps, song), k).contains(s) <==> (songs_at(index, k).contains(s)
            || (s == song && fps.contains(k))),
    decreases fps.len(),
{
    if fps.len() > 0 {
        let dl = fps.drop_last();
        let last = fps.last();
        lemma_store_membership_iff(index, dl, song, k, s);
        assert(fps.contains(last)) by {
            assert(fps[fps.len() - 1] == last);
        }
        assert forall|x: u64| #[trigger] dl.contains(x) implies fps.contains(x) by {
            let j = choose|j: int| 0 <= j < dl.len() && dl[j] == x;
            assert(fps[j] == x);
        }
        if k != last && fps.contains(k) {
            let j = choose|j: int| 0 <= j < fps.len() && fps[j] == k;
            assert(dl[j] == k);
        }
    }
}

/// A query whose every fingerprint's set contains the song yields one vote
/// per query position.
pub proof fn lemma_votes_all_present(
    index: Map<u64, Set<Seq<char>>>,
    fps: Seq<u64>,
    song: Seq<char>,
)
    requires
        forall|j: int| 0 <= j < fps.len() ==> songs_at(index, #[trigger] fps[j]).contains(song),
    ensures
        votes_spec(index, fps, song) == fps.len(),
    decreases fps.len(),
{
    if fps.len() > 0 {
        assert(forall|j: int|
            0 <= j < fps.len() - 1 ==> fps.drop_last()[j] == #[trigger] fps[j]);
        lemma_votes_all_present(index, fps.drop_last(), song);
    }
}

/// Law (round trip): storing a fingerprint collection under a song and then
/// querying the same collection reports that song with a vote count equal to
/// the collection's length.
pub proof fn lemma_store_find_round_trip(
    index: Map<u64, Set<Seq<char>>>,
    fps: Seq<u64>,
    song: Seq<char>,
)
    ensures
        votes_spec(store_spec(index, fps, song), fps, song) == fps.len(),
{
    let stored = store_spec(index, fps, song);
    assert forall|j: int| 0 <= j < fps.len() implies songs_at(
        stored,
        #[trigger] fps[j],
    ).contains(song) by {
        lemma_store_membership_iff(index, fps, song, fps[j], song);
        assert(fps.contains(fps[j]));
    }
    lemma_votes_all_present(stored, fps, song);
}

/// Storing a song that every queried set already contains changes nothing.
pub proof fn lemma_store_noop(index: Map<u64, Set<Seq<char>>>, fps: Seq<u64>, song: Seq<char>)
    requires
        forall|j: int| 0 <= j < fps.len() ==> songs_at(index, #[trigger] fps[j]).contains(song),
    ensures
        store_spec(index, fps, song) == index,
    decreases fps.len(),
{
    if fps.len() > 0 {
        assert(forall|j: int|
            0 <= j < fps.len() - 1 ==> fps.drop_last()[j] == #[trigger] fps[j]);
        lemma_store_noop(index, fps.drop_last(), song);
        let last = fps.last();
        assert(songs_at(index, last).contains(song));
        assert(index.contains_key(last));
        assert(songs_at(index, last).insert(song) =~= index[last]);
        assert(add_song(index, last, song) =~= index);
    }
}

/// Law (idempotence): storing the same fingerprint collection under the same
/// song twice leaves exactly the index that one store produces.
pub proof fn lemma_store_idempotent(
    index: Map<u64, Set<Seq<char>>>,
    fps: Seq<u64>,
    song: Seq<char>,
)
    ensures
        store_spec(store_spec(index, fps, song), fps, song) == store_spec(index, fps, song),
{
    let stored = store_spec(index, fps, song);
    assert forall|j: int| 0 <= j < fps.len() implies songs_at(
        stored,
        #[trigger] fps[j],
    ).contains(song) by {
        lemma_store_membership_iff(index, fps, song, fps[j], song);
        assert(fps.contains(fps[j]));
    }
    lemma_store_noop(stored, fps, song);
}


/// A duplicate-free query that covers a duplicate-free collection `a`, over
/// an index in which exactly the sets keyed by `a`'s fingerprints contain
/// `s`, gives `s` one vote per element of `a`.
proof fn lemma_votes_eq_cover_len(
    index: Map<u64, Set<Seq<char>>>,
    q: Seq<u64>,
    s: Seq<char>,
    a: Seq<u64>,
)
    requires
        q.no_duplicates(),
        a.no_duplicates(),
        forall|k: u64|
            #[trigger] q.contains(k) ==> (songs_at(index, k).contains(s) <==> a.contains(k)),
        forall|k: u64| #[trigger] a.contains(k) ==> q.contains(k),
    ensures
        votes_spec(index, q, s) == a.len(),
    decreases q.len(),
{
    if q.len() == 0 {
        if a.len() > 0 {
            assert(a.contains(a[0]));
            assert(q.contains(a[0]));
        }
    } else {
        let k = q.last();
        let q2 = q.drop_last();
        assert(q.contains(k)) by {
            assert(q[q.len() - 1] == k);
        }
        assert(q2.no_duplicates());
        assert(!q2.contains(k)) by {
            if q2.contains(k) {
                let j = choose|j: int| 0 <= j < q2.len() && q2[j] == k;
                assert(q[j] == q[q.len() - 1]);
            }
        }
        assert forall|x: u64| #[trigger] q2.contains(x) implies q.contains(x) by {
            let j = choose|j: int| 0 <= j < q2.len() && q2[j] == x;
            assert(q[j] == x);
        }
        if songs_at(index, k).contains(s) {
            assert(a.contains(k));
            let i = choose|i: int| 0 <= i < a.len() && a[i] == k;
            let a2 = a.remove(i);
            a.remove_ensures(i);
            assert forall|x: u64| #[trigger] a2.contains(x) implies a.contains(x) && x != k by {
                let j = choose|j: int| 0 <= j < a2.len() && a2[j] == x;
                if j < i {
                    assert(a[j] == x);
                    assert(a[j] != a[i]);
                } else {
                    assert(a[j + 1] == x);
                    assert(a[j + 1] != a[i]);
                }
            }
            assert forall|x: u64| a.contains(x) && x != k implies #[trigger] a2.contains(x) by {
                let j = choose|j: int| 0 <= j < a.len() && a[j] == x;
                assert(j != i);
                if j < i {
                    assert(a2[j] == x);
                } else {
                    assert(a2[j - 1] == x);
                }
            }
            assert(a2.no_duplicates()) by {
                assert forall|x: int, y: int|
                    0 <= x < a2.len() && 0 <= y < a2.len() && x != y implies a2[x] != a2[y] by {
                    let x0: int = if x < i {
                        x
                    } else {
                        x + 1
                    };
                    let y0: int = if y < i {
                        y
                    } else {
                        y + 1
                    };
                    assert(a2[x] == a[x0] && a2[y] == a[y0]);
                }
            }
            assert forall|x: u64| #[trigger] q2.contains(x) implies (songs_at(index, x).contains(
                s,
            ) <==> a2.contains(x)) by {
                assert(x != k);
            }
            assert forall|x: u64| #[trigger] a2.contains(x) implies q2.contains(x) by {
                assert(a.contains(x) && x != k);
                let j = choose|j: int| 0 <= j < q.len() && q[j] == x;
                assert(j != q.len() - 1);
                assert(q2[j] == x);
            }
            lemma_votes_eq_cover_len(index, q2, s, a2);
        } else {
            assert(!a.contains(k));
            assert forall|x: u64| #[trigger] a.contains(x) implies q2.contains(x) by {
                assert(x != k);
                let j = choose|j: int| 0 <= j < q.len() && q[j] == x;
                assert(j != q.len() - 1);
                assert(q2[j] == x);
            }
            lemma_votes_eq_cover_len(index, q2, s, a);
        }
    }
}

/// Law (voting correctness): store one fingerprint collection under one song
/// and another collection under a second song, starting from an empty index.
/// A duplicate-free query covering exactly the fingerprints of both
/// collections — their union, shared fingerprints listed once — tallies each
/// song once per query occurrence of each fingerprint in its own collection:
/// the full length of each collection, with shared fingerprints contributing
/// to both songs.
pub proof fn lemma_union_query_votes(
    a: Seq<u64>,
    b: Seq<u64>,
    sa: Seq<char>,
    sb: Seq<char>,
    q: Seq<u64>,
)
    requires
        sa != sb,
        a.no_duplicates(),
        b.no_duplicates(),
        q.no_duplicates(),
        forall|k: u64| #[trigger] q.contains(k) <==> a.contains(k) || b.contains(k),
    ensures
        votes_spec(
            store_spec(store_spec(Map::<u64, Set<Seq<char>>>::empty(), a, sa), b, sb),
            q,
            sa,
        ) == a.len(),
        votes_spec(
            store_spec(store_spec(Map::<u64, Set<Seq<char>>>::empty(), a, sa), b, sb),
            q,
            sb,
        ) == b.len(),
{
    let empty = Map::<u64, Set<Seq<char>>>::empty();
    let first = store_spec(empty, a, sa);
    let idx = store_spec(first, b, sb);
    assert forall|k: u64| #![trigger songs_at(idx, k)] true implies (songs_at(idx, k).contains(sa)
        <==> a.contains(k)) && (songs_at(idx, k).contains(sb) <==> b.contains(k)) by {
        lemma_store_membership_iff(first, b, sb, k, sa);
        lemma_store_membership_iff(empty, a, sa, k, sa);
        lemma_store_membership_iff(first, b, sb, k, sb);
        lemma_store_membership_iff(empty, a, sa, k, sb);
    }
    lemma_votes_eq_cover_len(idx, q, sa, a);
    lemma_votes_eq_cover_len(idx, q, sb, b);
}

/// Contract of a match repository: an abstract index from fingerprint to
/// song-name set, a bulk store that adds one song under many fingerprints,
/// and a voting lookup. A backing store that can fail reports failure
/// without corrupting the index.
pub trait Repository: Sized {
    /// The abstract index this repository holds.
    spec fn index(&self) -> Map<u64, Set<Seq<char>>>;

    /// Validity of the backing state.
    spec fn inv(&self) -> bool;

    /// Whether this backing store can report a transport or storage failure;
    /// an implementation that cannot always succeeds.
    spec fn may_fail(&self) -> bool;

    /// Adds `song` to the set of every fingerprint in the collection,
    /// atomically: on success all memberships are recorded, on failure none
    /// are.
    fn store(&mut self, fingerprints: &Vec<u64>, song: &String) -> (r: Result<(), RepositoryError>)
        requires
            old(self).inv(),
        ensures
            final(self).inv(),
            match r {
                Ok(_) => final(self).index() == store_spec(
                    old(self).index(),
                    fingerprints@,
                    song@,
                ),
                Err(_) => old(self).may_fail() && final(self).index() == old(self).index(),
            },
    ;

    /// Tallies, for every song, how many query fingerprints' sets contain it;
    /// a fingerprint missing from the index contributes no votes rather than
    /// an error. The result holds exactly the songs with at least one vote.
    fn find_matches(&mut self, fingerprints: &Vec<u64>) -> (r: Result<MatchTally, RepositoryError>)
        requires
            old(self).inv(),
        ensures
            final(self).inv(),
            final(self).index() == old(self).index(),
            match r {
                Ok(t) => {
                    &&& t.wf()
                    &&& forall|s: Seq<char>|
                        #[trigger] t@.contains_key(s) ==> t@[s] == votes_spec(
                            old(self).index(),
                            fingerprints@,
                            s,
                        )
                    &&& forall|s: Seq<char>|
                        votes_spec(old(self).index(), fingerprints@, s) > 0
                            ==> #[trigger] t@.contains_key(s)
                    &&& forall|s: Seq<char>|
                        #[trigger] t@.contains_key(s) ==> votes_spec(
                            old(self).index(),
                            fingerprints@,
                            s,
                        ) > 0
                },
                Err(_) => old(self).may_fail(),
            },
    ;
}

/// Verified in-memory match repository: a hash table from fingerprint to the
/// list of distinct songs stored under it.
pub struct SongIndex {
    table: HashMap<u64, Vec<String>>,
}

impl SongIndex {
    /// An empty index.
    pub fn new() -> (r: SongIndex)
        ensures
            r.inv(),
            r.index() == Map::<u64, Set<Seq<char>>>::empty(),
    {
        let table: HashMap<u64, Vec<String>> = HashMap::new();
        let r = SongIndex { table };
        proof {
            assert(r.index() =~= Map::<u64, Set<Seq<char>>>::empty());
        }
        r
    }
}

/// Decides whether some song in the column has the same name as `song`.
fn contains_string(v: &Vec<String>, song: &String) -> (r: bool)
    ensures
        r == seq_has_view(v@, song@),
{
    let mut i: usize = 0;
    while i < v.len()
        invariant
            i <= v@.len(),
            forall|j: int| 0 <= j < i ==> (#[trigger] v@[j])@ != song@,
        decreases v@.len() - i,
    {
        if v[i] == *song {
            return true;
        }
        i += 1;
    }
    false
}

impl Repository for SongIndex {
    closed spec fn index(&self) -> Map<u64, Set<Seq<char>>> {
        table_view(self.table@)
    }

    closed spec fn inv(&self) -> bool {
        forall|fp: u64|
            self.table@.contains_key(fp) ==> distinct_views((#[trigger] self.table@[fp])@)
    }

    open spec fn may_fail(&self) -> bool {
        false
    }

    #[verifier::loop_isolation(false)]
    fn store(&mut self, fingerprints: &Vec<u64>, song: &String) -> (r: Result<(), RepositoryError>) {
        let ghost orig = self.index();
        let mut i: usize = 0;
        while i < fingerprints.len()
            invariant
                self.inv(),
                i <= fingerprints@.len(),
                self.index() == store_spec(orig, fingerprints@.take(i as int), song@),
            decreases fingerprints@.len() - i,
        {
            let fp = fingerprints[i];
            let ghost pre = self.index();
            let removed = self.table.remove(&fp);
            match removed {
                Some(mut v) => {
                    let present = contains_string(&v, song);
                    proof {
                        assert(pre.contains_key(fp));
                        assert(songs_at(pre, fp) =~= string_views(v@).to_set());
                        lemma_seq_has_view_to_set(v@, song@);
                    }
                    let ghost before = v@;
                    if !present {
                        v.push(song.clone());
                        proof {
                            assert(v@.drop_last() =~= before);
                            assert(string_views(v@) =~= string_views(before).push(song@));
                            string_views(before).lemma_push_to_set_commute(song@);
                            assert(string_views(v@).to_set() =~= songs_at(pre, fp).insert(song@));
                        }
                    } else {
                        proof {
                            assert(string_views(v@).to_set() =~= songs_at(pre, fp).insert(song@));
                        }
                    }
                    self.table.insert(fp, v);
                    proof {
                        assert(self.index() =~= add_song(pre, fp, song@));
                    }
                },
                None => {
                    let mut v: Vec<String> = Vec::new();
                    v.push(song.clone());
                    self.table.insert(fp, v);
                    proof {
                        assert(!pre.contains_key(fp));
                        assert(string_views(v@) =~= Seq::<Seq<char>>::empty().push(song@));
                        Seq::<Seq<char>>::empty().lemma_push_to_set_commute(song@);
                        assert(Seq::<Seq<char>>::empty().to_set() =~= Set::<Seq<char>>::empty());
                        assert(string_views(v@).to_set() =~= Set::empty().insert(song@));
                        assert(self.index() =~= add_song(pre, fp, song@));
                    }
                },
            }
            proof {
                assert(fingerprints@.take(i as int + 1).drop_last() =~= fingerprints@.take(
                    i as int,
                ));
                assert(fingerprints@.take(i as int + 1).last() == fingerprints@[i as int]);
            }
            i += 1;
        }
        proof {
            assert(fingerprints@.take(fingerprints@.len() as int) =~= fingerprints@);
        }
        Ok(())
    }

    #[verifier::loop_isolation(false)]
    fn find_matches(&mut self, fingerprints: &Vec<u64>) -> (r: Result<
        MatchTally,
        RepositoryError,
    >) {
        let ghost idx = self.index();
        let mut tally = MatchTally::new();
        let mut i: usize = 0;
        while i < fingerprints.len()
            invariant
                tally.wf(),
                i <= fingerprints@.len(),
                forall|s: Seq<char>|
                    #[trigger] tally@.contains_key(s) ==> tally@[s] == votes_spec(
                        idx,
                        fingerprints@.take(i as int),
                        s,
                    ),
                forall|s: Seq<char>|
                    votes_spec(idx, fingerprints@.take(i as int), s) > 0
                        ==> #[trigger] tally@.contains_key(s),
                forall|s: Seq<char>|
                    #[trigger] tally@.contains_key(s) ==> votes_spec(
                        idx,
                        fingerprints@.take(i as int),
                        s,
                    ) > 0,
            decreases fingerprints@.len() - i,
        {
            let fp = fingerprints[i];
            let ghost taken = fingerprints@.take(i as int);
            match self.table.get(&fp) {
                Some(v) => {
                    proof {
                        assert(self.table@.contains_key(fp) && self.table@[fp] == *v);
                        assert(distinct_views(v@));
                        assert(songs_at(idx, fp) =~= string_views(v@).to_set());
                    }
                    let mut j: usize = 0;
                    while j < v.len()
                        invariant
                            tally.wf(),
                            j <= v@.len(),
                            forall|s: Seq<char>|
                                #[trigger] tally@.contains_key(s) ==> tally@[s] == votes_spec(
                                    idx,
                                    taken,
                                    s,
                                ) + (if seq_has_view(v@.take(j as int), s) {
                                    1nat
                                } else {
                                    0nat
                                }),
                            forall|s: Seq<char>|
                                votes_spec(idx, taken, s) > 0 ==> #[trigger] tally@.contains_key(
                                    s,
                                ),
                            forall|s: Seq<char>|
                                seq_has_view(v@.take(j as int), s)
                                    ==> #[trigger] tally@.contains_key(s),
                            forall|s: Seq<char>|
                                #[trigger] tally@.contains_key(s) ==> votes_spec(idx, taken, s) > 0
                                    || seq_has_view(v@.take(j as int), s),
                        decreases v@.len() - j,
                    {
                        let song_j = &v[j];
                        proof {
                            lemma_votes_le_len(idx, taken, song_j@);
                            if seq_has_view(v@.take(j as int), song_j@) {
                                let k = choose|k: int|
                                    0 <= k < v@.take(j as int).len() && (#[trigger] v@.take(
                                        j as int,
                                    )[k])@ == song_j@;
                                assert(v@[k]@ == v@[j as int]@);
                                assert(false);
                            }
                        }
                        tally.add_vote(song_j);
                        proof {
                            assert(v@.take(j as int + 1) =~= v@.take(j as int).push(v@[j as int]));
                            assert forall|s: Seq<char>|
                                seq_has_view(v@.take(j as int + 1), s) && s != song_j@ implies
                                seq_has_view(v@.take(j as int), s) by {
                                let k = choose|k: int|
                                    0 <= k < v@.take(j as int + 1).len() && (#[trigger] v@.take(
                                        j as int + 1,
                                    )[k])@ == s;
                                assert(k < j);
                                assert(v@.take(j as int)[k]@ == s);
                            }
                            assert(seq_has_view(v@.take(j as int + 1), song_j@)) by {
                                assert(v@.take(j as int + 1)[j as int]@ == song_j@);
                            }
                        }
                        j += 1;
                    }
                    proof {
                        assert(v@.take(v@.len() as int) =~= v@);
                        assert forall|s: Seq<char>| #[trigger] tally@.contains_key(s) implies
                            tally@[s] == votes_spec(idx, fingerprints@.take(i as int + 1), s) by {
                            lemma_votes_take_step(idx, fingerprints@, i as int, s);
                            lemma_seq_has_view_to_set(v@, s);
                        }
                        assert forall|s: Seq<char>|
                            votes_spec(idx, fingerprints@.take(i as int + 1), s) > 0 implies
                            tally@.contains_key(s) by {
                            lemma_votes_take_step(idx, fingerprints@, i as int, s);
                            lemma_seq_has_view_to_set(v@, s);
                        }
                        assert forall|s: Seq<char>| #[trigger] tally@.contains_key(s) implies
                            votes_spec(idx, fingerprints@.take(i as int + 1), s) > 0 by {
                            lemma_votes_take_step(idx, fingerprints@, i as int, s);
                            lemma_seq_has_view_to_set(v@, s);
                        }
                    }
                },
                None => {
                    proof {
                        assert(!idx.contains_key(fp));
                        assert forall|s: Seq<char>|
                            votes_spec(idx, fingerprints@.take(i as int + 1), s) == votes_spec(
                                idx,
                                taken,
                                s,
                            ) by {
                            lemma_votes_take_step(idx, fingerprints@, i as int, s);
                        }
                    }
                },
            }
            i += 1;
        }
        proof {
            assert(fingerprints@.take(fingerprints@.len() as int) =~= fingerprints@);
        }
        Ok(tally)
    }
}


/// The votes `song` receives from a list of fetched song sets: one per set
/// that contains the song's name.
pub open spec fn set_votes(sets: Seq<Vec<String>>, song: Seq<char>) -> nat
    decreases sets.len(),
{
    if sets.len() == 0 {
        0nat
    } else {
        set_votes(sets.drop_last(), song) + (if seq_has_view(sets.last()@, song) {
            1nat
        } else {
            0nat
        })
    }
}

/// A song's set votes never exceed the number of sets.
proof fn lemma_set_votes_le_len(sets: Seq<Vec<String>>, song: Seq<char>)
    ensures
        set_votes(sets, song) <= sets.len(),
    decreases sets.len(),
{
    if sets.len() > 0 {
        lemma_set_votes_le_len(sets.drop_last(), song);
    }
}

/// Extending the list by one set adds exactly that set's vote.
proof fn lemma_set_votes_take_step(sets: Seq<Vec<String>>, i: int, song: Seq<char>)
    requires
        0 <= i < sets.len(),
    ensures
        set_votes(sets.take(i + 1), song) == set_votes(sets.take(i), song) + (if seq_has_view(
            sets[i]@,
            song,
        ) {
            1nat
        } else {
            0nat
        }),
{
    assert(sets.take(i + 1).drop_last() =~= sets.take(i));
    assert(sets.take(i + 1).last() == sets[i]);
}

/// Decides whether the song at position `j` already occurs earlier in the
/// column.
fn appears_before(v: &Vec<String>, j: usize) -> (r: bool)
    requires
        j < v@.len(),
    ensures
        r == seq_has_view(v@.take(j as int), v@[j as int]@),
{
    let mut i: usize = 0;
    while i < j
        invariant
            i <= j < v@.len(),
            forall|k: int| 0 <= k < i ==> (#[trigger] v@[k])@ != v@[j as int]@,
        decreases j - i,
    {
        if v[i] == v[j] {
            proof {
                assert(v@.take(j as int)[i as int]@ == v@[j as int]@);
            }
            return true;
        }
        i += 1;
    }
    proof {
        let target = v@[j as int]@;
        if seq_has_view(v@.take(j as int), target) {
            let k = choose|k: int|
                0 <= k < v@.take(j as int).len() && (#[trigger] v@.take(j as int)[k])@ == target;
            assert(v@[k]@ == v@[j as int]@);
            assert(false);
        }
    }
    false
}

/// Tallies votes over song sets fetched from a backing store, one set per
/// query fingerprint: each set votes once for every distinct song name it
/// contains, a repeated name within one set counting once. The result holds
/// exactly the songs with at least one vote.
#[verifier::loop_isolation(false)]
pub fn tally_song_sets(song_sets: &Vec<Vec<String>>) -> (t: MatchTally)
    ensures
        t.wf(),
        forall|s: Seq<char>|
            #[trigger] t@.contains_key(s) ==> t@[s] == set_votes(song_sets@, s),
        forall|s: Seq<char>| set_votes(song_sets@, s) > 0 ==> #[trigger] t@.contains_key(s),
        forall|s: Seq<char>| #[trigger] t@.contains_key(s) ==> set_votes(song_sets@, s) > 0,
{
    let mut tally = MatchTally::new();
    let mut i: usize = 0;
    while i < song_sets.len()
        invariant
            tally.wf(),
            i <= song_sets@.len(),
            forall|s: Seq<char>|
                #[trigger] tally@.contains_key(s) ==> tally@[s] == set_votes(
                    song_sets@.take(i as int),
                    s,
                ),
            forall|s: Seq<char>|
                set_votes(song_sets@.take(i as int), s) > 0 ==> #[trigger] tally@.contains_key(s),
            forall|s: Seq<char>|
                #[trigger] tally@.contains_key(s) ==> set_votes(song_sets@.take(i as int), s) > 0,
        decreases song_sets@.len() - i,
    {
        let v = &song_sets[i];
        let ghost taken = song_sets@.take(i as int);
        let mut j: usize = 0;
        while j < v.len()
            invariant
                tally.wf(),
                j <= v@.len(),
                forall|s: Seq<char>|
                    #[trigger] tally@.contains_key(s) ==> tally@[s] == set_votes(taken, s) + (
                    if seq_has_view(v@.take(j as int), s) {
                        1nat
                    } else {
                        0nat
                    }),
                forall|s: Seq<char>|
                    set_votes(taken, s) > 0 ==> #[trigger] tally@.contains_key(s),
                forall|s: Seq<char>|
                    seq_has_view(v@.take(j as int), s) ==> #[trigger] tally@.contains_key(s),
                forall|s: Seq<char>|
                    #[trigger] tally@.contains_key(s) ==> set_votes(taken, s) > 0 || seq_has_view(
                        v@.take(j as int),
                        s,
                    ),
            decreases v@.len() - j,
        {
            let song_j = &v[j];
            let seen = appears_before(v, j);
            if !seen {
                proof {
                    lemma_set_votes_le_len(taken, song_j@);
                }
                tally.add_vote(song_j);
            }
            proof {
                assert(v@.take(j as int + 1) =~= v@.take(j as int).push(v@[j as int]));
                assert forall|s: Seq<char>|
                    seq_has_view(v@.take(j as int + 1), s) && s != song_j@ implies seq_has_view(
                    v@.take(j as int),
                    s,
                ) by {
                    let k = choose|k: int|
                        0 <= k < v@.take(j as int + 1).len() && (#[trigger] v@.take(
                            j as int + 1,
                        )[k])@ == s;
                    assert(k < j);
                    assert(v@.take(j as int)[k]@ == s);
                }
                assert(seq_has_view(v@.take(j as int + 1), song_j@)) by {
                    assert(v@.take(j as int + 1)[j as int]@ == song_j@);
                }
            }
            j += 1;
        }
        proof {
            assert(v@.take(v@.len() as int) =~= v@);
            assert forall|s: Seq<char>| #[trigger] tally@.contains_key(s) implies tally@[s]
                == set_votes(song_sets@.take(i as int + 1), s) by {
                lemma_set_votes_take_step(song_sets@, i as int, s);
            }
            assert forall|s: Seq<char>|
                set_votes(song_sets@.take(i as int + 1), s) > 0 implies tally@.contains_key(s) by {
                lemma_set_votes_take_step(song_sets@, i as int, s);
            }
            assert forall|s: Seq<char>| #[trigger] tally@.contains_key(s) implies set_votes(
                song_sets@.take(i as int + 1),
                s,
            ) > 0 by {
                lemma_set_votes_take_step(song_sets@, i as int, s);
            }
        }
        i += 1;
    }
    proof {
        assert(song_sets@.take(song_sets@.len() as int) =~= song_sets@);
    }
    tally
}

} // verus!
