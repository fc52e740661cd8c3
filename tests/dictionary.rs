use pwd_strength::{default_dict_lib, Dictionary, DictionaryMatcher, Match, Matcher, Rank, RankedSurnames};

fn spans(ms: &[Match]) -> Vec<(usize, usize)> {
    ms.iter().map(|m| (m.idx_match_start, m.idx_match_end)).collect()
}

#[test]
fn ranks_follow_line_numbers() {
    let d = RankedSurnames::new("smith\njohnson\npeter\n");
    assert_eq!(d.get_name(), "RankedSurnames");
    assert!(d.contains("peter"));
    assert!(!d.contains("Peter"));
    assert_eq!(d.rank_of("smith"), Rank::Ranking(0));
    assert_eq!(d.rank_of("peter"), Rank::Ranking(2));
    assert_eq!(d.rank_of("jones"), Rank::NoRank);
}

#[test]
fn last_occurrence_wins() {
    let d = RankedSurnames::new("ab\ncd\nab");
    assert_eq!(d.rank_of("ab"), Rank::Ranking(2));
    assert_eq!(d.rank_of("cd"), Rank::Ranking(1));
}

#[test]
fn crlf_lines() {
    let d = RankedSurnames::new("ab\r\ncd\r\n");
    assert!(d.contains("ab"));
    assert!(d.contains("cd"));
    assert!(!d.contains("ab\r"));
    let d = RankedSurnames::new("a\n\nb");
    assert_eq!(d.rank_of(""), Rank::Ranking(1));
    assert_eq!(d.rank_of("b"), Rank::Ranking(2));
}

#[test]
fn default_library_holds_the_list() {
    let dicts = default_dict_lib("smith\npeter");
    assert_eq!(dicts.len(), 1);
    assert_eq!(dicts[0].rank_of("peter"), Rank::Ranking(1));
}

#[test]
fn every_known_substring_is_reported() {
    let m = DictionaryMatcher::new(vec![RankedSurnames::new("pet\npeter\nte\nxyz\n")]);
    let r = m.match_pwd("peter1");
    assert_eq!(r.matcher_name, "DictionaryMatcher");
    assert_eq!(spans(&r.matches), vec![(0, 3), (0, 5), (2, 4)]);
    assert_eq!(r.matches[1].rank, Rank::Ranking(1));
    assert_eq!(r.matches[1].match_len, 5);
}

#[test]
fn password_is_lowercased() {
    let m = DictionaryMatcher::new(vec![RankedSurnames::new("peter\n")]);
    let r = m.match_pwd("xPeTeR");
    assert_eq!(spans(&r.matches), vec![(1, 6)]);
}

#[test]
fn dictionaries_in_order_and_overlaps_kept() {
    let m = DictionaryMatcher::new(vec![RankedSurnames::new("bc\n"), RankedSurnames::new("ab\nbc\n")]);
    let r = m.match_pwd("abc");
    assert_eq!(spans(&r.matches), vec![(1, 3), (0, 2), (1, 3)]);
    assert_eq!(r.matches[0].rank, Rank::Ranking(0));
    assert_eq!(r.matches[2].rank, Rank::Ranking(1));
}

#[test]
fn single_letters_are_never_words() {
    let m = DictionaryMatcher::new(vec![RankedSurnames::new("a\n\nb")]);
    assert!(m.match_pwd("a").matches.is_empty());
    assert!(m.match_pwd("").matches.is_empty());
    assert!(m.match_pwd("ab").matches.is_empty());
}

#[test]
fn matching_twice_gives_the_same_matches() {
    let m = DictionaryMatcher::new(vec![RankedSurnames::new("an\nanna\nna\n")]);
    let a = spans(&m.match_pwd("annanna").matches);
    let b = spans(&m.match_pwd("annanna").matches);
    assert_eq!(a, b);
    assert!(!a.is_empty());
}

#[test]
fn non_ascii_positions_are_characters() {
    let m = DictionaryMatcher::new(vec![RankedSurnames::new("müller\n")]);
    let r = m.match_pwd("éMüller");
    assert_eq!(spans(&r.matches), vec![(1, 7)]);
}
