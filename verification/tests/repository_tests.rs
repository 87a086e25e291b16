use std::time::Instant;

use soundprint::repository::{tally_song_sets, Repository, SongIndex};

#[test]
fn test_repository() {
    let fake_fingerprints_1: Vec<u64> = vec![
        1234567890, 1987654321, 1290347856, 1111111111, 2222222222, 3333333333, 4444444444,
        5555555555, 6666666666, 7777777777,
    ];
    let fake_fingerprints_2: Vec<u64> = vec![
        1231231234, 9999999999, 8888888888, 1111111111, 2222222222, 3333333333, 4444444444,
        5555555555, 6666666666, 7777777777,
    ];
    let song_1 = format!("Shrek and Donkey - Pinocchio is laying again");
    let song_2 = format!("Alice in Wonderland - Poker face");
    let mut db_handler = SongIndex::new();
    if let Ok(_) = db_handler.store(&fake_fingerprints_1, &song_1) {
        assert_eq!(1, 1);
    } else {
        assert_eq!(1, 2);
    }
    if let Ok(_) = db_handler.store(&fake_fingerprints_2, &song_2) {
        assert_eq!(1, 1);
    } else {
        assert_eq!(1, 2);
    }
    if let Ok(matches) = db_handler.find_matches(&fake_fingerprints_2) {
        match matches.get(&song_1) {
            Some(m) => assert_eq!(m, 7),
            None => assert_eq!(1, 2),
        };
        match matches.get(&song_2) {
            Some(m) => assert_eq!(m, 10),
            None => assert_eq!(1, 2),
        };
    } else {
        assert_eq!(1, 2);
    }
}

#[test]
fn test_benchmark_repository() {
    let mut fake_fingerprints_1: Vec<u64> = Vec::new();
    let mut fake_fingerprints_2: Vec<u64> = Vec::new();
    let fingerprint_1_max: u64 = 20000;
    let fingerprint_2_max: u64 = 30000;
    for fingerprint in 0..fingerprint_1_max {
        fake_fingerprints_1.push(fingerprint);
    }
    for fingerprint in 0..fingerprint_2_max {
        fake_fingerprints_2.push(fingerprint);
    }
    let song_1 = format!("Shrek and Donkey - Pinocchio is laying again");
    let song_2 = format!("Alice in Wonderland - Poker face");
    let mut db_handler = SongIndex::new();
    let start_time = Instant::now();
    if let Ok(_) = db_handler.store(&fake_fingerprints_1, &song_1) {
        assert_eq!(1, 1);
    } else {
        assert_eq!(1, 2);
    }
    if let Ok(_) = db_handler.store(&fake_fingerprints_2, &song_2) {
        assert_eq!(1, 1);
    } else {
        assert_eq!(1, 2);
    }
    println!(
        "Adding to database of 2 songs of total {} fingerprints took {} milliseconds",
        fingerprint_2_max,
        start_time.elapsed().as_millis()
    );
    let half_time = Instant::now();
    if let Ok(matches) = db_handler.find_matches(&fake_fingerprints_2) {
        match matches.get(&song_1) {
            Some(m) => assert_eq!(m as u64, fingerprint_1_max),
            None => assert_eq!(1, 2),
        };
        match matches.get(&song_2) {
            Some(m) => assert_eq!(m as u64, fingerprint_2_max),
            None => assert_eq!(1, 2),
        };
    } else {
        assert_eq!(1, 2);
    }
    println!(
        "Matching of total {} fingerprints took {} milliseconds",
        fingerprint_1_max + fingerprint_2_max,
        half_time.elapsed().as_millis()
    );
}

// Round trip: storing a collection under a song and querying the same
// collection reports the song with one vote per query fingerprint.
#[test]
fn test_store_find_round_trip() {
    let fps: Vec<u64> = vec![10, 20, 30, 40, 50];
    let song = "SongA".to_string();
    let mut index = SongIndex::new();
    index.store(&fps, &song).unwrap();
    let tally = index.find_matches(&fps).unwrap();
    assert_eq!(tally.get(&song), Some(5));
}

// Idempotence: storing the same (fingerprints, song) twice changes no vote
// count beyond what one store produces.
#[test]
fn test_store_idempotent() {
    let fps: Vec<u64> = vec![10, 20, 30, 40, 50];
    let song = "SongA".to_string();
    let mut once = SongIndex::new();
    once.store(&fps, &song).unwrap();
    let mut twice = SongIndex::new();
    twice.store(&fps, &song).unwrap();
    twice.store(&fps, &song).unwrap();
    let t1 = once.find_matches(&fps).unwrap();
    let t2 = twice.find_matches(&fps).unwrap();
    assert_eq!(t1.get(&song), Some(5));
    assert_eq!(t2.get(&song), Some(5));
}

// Voting correctness: two sets of ten fingerprints sharing four of them,
// stored under different songs; querying the union tallies each song once
// per occurrence of its fingerprints in the query.
#[test]
fn test_voting_over_shared_fingerprints() {
    let set_a: Vec<u64> = vec![1, 2, 3, 4, 5, 6, 7, 8, 9, 10];
    let set_b: Vec<u64> = vec![7, 8, 9, 10, 11, 12, 13, 14, 15, 16];
    let union: Vec<u64> = vec![1, 2, 3, 4, 5, 6, 7, 8, 9, 10, 11, 12, 13, 14, 15, 16];
    let song_a = "SongA".to_string();
    let song_b = "SongB".to_string();
    let mut index = SongIndex::new();
    index.store(&set_a, &song_a).unwrap();
    index.store(&set_b, &song_b).unwrap();
    let tally = index.find_matches(&union).unwrap();
    assert_eq!(tally.get(&song_a), Some(10));
    assert_eq!(tally.get(&song_b), Some(10));
    // a fingerprint occurring twice in the query votes twice
    let doubled: Vec<u64> = vec![1, 1];
    let tally = index.find_matches(&doubled).unwrap();
    assert_eq!(tally.get(&song_a), Some(2));
    assert_eq!(tally.get(&song_b), None);
}

// A fingerprint missing from the index contributes no votes rather than an
// error.
#[test]
fn test_missing_fingerprints_vote_nothing() {
    let mut index = SongIndex::new();
    index.store(&vec![1, 2], &"SongA".to_string()).unwrap();
    let tally = index.find_matches(&vec![98, 99]).unwrap();
    assert_eq!(tally.get(&"SongA".to_string()), None);
}

// The tally over fetched song sets counts each set once per distinct song
// name it contains, however often the name repeats inside one set.
#[test]
fn test_tally_song_sets_counts_each_set_once() {
    let sets: Vec<Vec<String>> = vec![
        vec!["SongA".to_string(), "SongB".to_string()],
        vec!["SongA".to_string(), "SongA".to_string()],
        vec![],
        vec!["SongB".to_string()],
    ];
    let tally = tally_song_sets(&sets);
    assert_eq!(tally.get(&"SongA".to_string()), Some(2));
    assert_eq!(tally.get(&"SongB".to_string()), Some(2));
    assert_eq!(tally.get(&"SongC".to_string()), None);
}
