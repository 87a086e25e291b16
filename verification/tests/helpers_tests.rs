use soundprint::helpers::pick_most_likely;
use soundprint::tally::MatchTally;

#[test]
fn test_pick_most_likely() {
    let mut findings = MatchTally::new();
    findings.set_count(&"Mock song 1".to_string(), 1);
    findings.set_count(&"Mock song 2".to_string(), 2);
    findings.set_count(&"Mock song 3".to_string(), 0);
    findings.set_count(&"Best mock song".to_string(), 4);

    let (best_fit, count) = pick_most_likely(&findings);
    assert_eq!(best_fit, "Best mock song");
    assert_eq!(count, 4);
}

#[test]
fn test_pick_most_likely_empty_tally() {
    let findings = MatchTally::new();
    let (best_fit, count) = pick_most_likely(&findings);
    assert_eq!(best_fit, "No match found");
    assert_eq!(count, 0);
}

// Ties break deterministically: the lexicographically smallest song name
// among the highest counts wins, whatever the insertion order.
#[test]
fn test_pick_most_likely_tie_break() {
    let mut findings = MatchTally::new();
    findings.set_count(&"Zebra".to_string(), 3);
    findings.set_count(&"Alpha".to_string(), 3);
    findings.set_count(&"Mid".to_string(), 2);
    let (best_fit, count) = pick_most_likely(&findings);
    assert_eq!(best_fit, "Alpha");
    assert_eq!(count, 3);

    let mut reordered = MatchTally::new();
    reordered.set_count(&"Alpha".to_string(), 3);
    reordered.set_count(&"Mid".to_string(), 2);
    reordered.set_count(&"Zebra".to_string(), 3);
    let (best_fit, count) = pick_most_likely(&reordered);
    assert_eq!(best_fit, "Alpha");
    assert_eq!(count, 3);
}

#[test]
fn test_set_count_overwrites() {
    let mut findings = MatchTally::new();
    findings.set_count(&"Song".to_string(), 2);
    findings.set_count(&"Song".to_string(), 7);
    assert_eq!(findings.get(&"Song".to_string()), Some(7));
    assert_eq!(findings.get(&"Other".to_string()), None);
}
