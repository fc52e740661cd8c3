use pwd_strength::{DateMatcher, DictionaryMatcher, MatcherKind, Omnimatch, RankedSurnames};

#[test]
fn peter2024_with_default_matchers() {
    let mut omni = Omnimatch::new("peter2024", "smith\npeter\njones\n");
    let results = omni.execute();
    assert_eq!(results.len(), 2);
    assert_eq!(results[0].matcher_name, "DictionaryMatcher");
    assert_eq!(results[1].matcher_name, "DateMatcher");
    let words: Vec<(usize, usize)> =
        results[0].matches.iter().map(|m| (m.idx_match_start, m.idx_match_end)).collect();
    assert_eq!(words, vec![(0, 5)]);
    // "2024": its second half has no zero, so it reads as a date.
    let dates: Vec<(usize, usize)> =
        results[1].matches.iter().map(|m| (m.idx_match_start, m.idx_match_end)).collect();
    assert_eq!(dates, vec![(5, 9)]);
    for r in results.iter() {
        for m in &r.matches {
            assert!(m.idx_match_start < m.idx_match_end);
            assert_eq!(m.match_len, m.idx_match_end - m.idx_match_start);
        }
    }
}

#[test]
fn set_matchers_replaces_the_list() {
    let mut omni = Omnimatch::new("01.02.2003", "");
    omni.set_matchers(vec![MatcherKind::Date(DateMatcher::new())]);
    let results = omni.execute();
    assert_eq!(results.len(), 1);
    assert_eq!(results[0].matcher_name, "DateMatcher");
    assert!(!results[0].matches.is_empty());

    omni.set_matchers(vec![
        MatcherKind::Dictionary(DictionaryMatcher::new(vec![RankedSurnames::new("02\n")])),
        MatcherKind::Dictionary(DictionaryMatcher::new(vec![])),
    ]);
    let results = omni.execute();
    assert_eq!(results.len(), 2);
    assert_eq!(results[0].matches.len(), 1);
    assert!(results[1].matches.is_empty());
}

#[test]
fn empty_password_gives_empty_results() {
    let mut omni = Omnimatch::new("", "peter\n");
    let results = omni.execute();
    assert_eq!(results.len(), 2);
    assert!(results.iter().all(|r| r.matches.is_empty()));
}
