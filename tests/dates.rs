use pwd_strength::{DateMatcher, Match, Matcher};
use regex::Regex;

fn spans(ms: &[Match]) -> Vec<(usize, usize)> {
    ms.iter().map(|m| (m.idx_match_start, m.idx_match_end)).collect()
}

#[test]
#[allow(non_snake_case)]
fn DateRegexTest() {
    let shall_pass = vec!["01.02.03", "12.2.15", "12.02.15", "12.2.2015", "12.02.2015"];
    let shall_not_pass =
        vec!["..", ".1.", "123.1.1", "12345.1.1", "1.1.123", "1.1.12345", "01.01.12345"];

    let count = shall_pass.iter().filter(|date| !DateMatcher::is_sep_shape(date)).count();
    assert_eq!(0, count);

    let count = shall_not_pass.iter().filter(|nondate| DateMatcher::is_sep_shape(nondate)).count();
    assert_eq!(0, count);
}

#[test]
#[allow(non_snake_case)]
fn Bla() {
    let maybe_date_no_sep = Regex::new(r"^\d{4,8}$").unwrap();
    let pwd = "16011993ab";
    let len = pwd.len();
    for start_pos in 0..len - 4 {
        for window_size in 4..9 {
            if start_pos + window_size > len {
                break;
            };

            let slice = &pwd[start_pos..start_pos + window_size];
            if maybe_date_no_sep.is_match(slice) {
                println!("found {:?}", slice);
            }
        }
    }
}

#[test]
fn separated_dates_are_valid_dates() {
    for d in ["01.02.03", "12.2.15", "12.02.15", "12.2.2015", "12.02.2015"] {
        assert!(DateMatcher::is_sep_date(d), "{}", d);
    }
    for d in ["..", ".1.", "123.1.1", "12345.1.1", "1.1.123", "1.1.12345", "01.01.12345"] {
        assert!(!DateMatcher::is_sep_date(d), "{}", d);
    }
}

#[test]
fn separated_date_needs_a_month_in_the_middle() {
    assert!(!DateMatcher::is_sep_date("01.13.2015"));
    assert!(!DateMatcher::is_sep_date("01.00.2015"));
    assert!(DateMatcher::is_sep_date("2015-12-01"));
    assert!(DateMatcher::is_sep_date("31/12/99"));
}

#[test]
fn separated_date_needs_a_day_and_a_year() {
    // 3015 is no year and no day; 12 is both, but needs a partner.
    assert!(!DateMatcher::is_sep_date("12.02.3015"));
    // Neither 32 nor 40 is a day.
    assert!(!DateMatcher::is_sep_date("32.1.40"));
    // 32 reads as a two-digit year, 1 as a day.
    assert!(DateMatcher::is_sep_date("32.1.1"));
    // 1 is a day, 99 a year.
    assert!(DateMatcher::is_sep_date("1.1.99"));
}

#[test]
fn separators_must_agree() {
    assert!(!DateMatcher::is_sep_shape("01-02/03"));
    assert!(!DateMatcher::is_sep_date("01-02/03"));
    for sep in [".", ",", ";", "-", "/"] {
        let d = format!("01{}02{}03", sep, sep);
        assert!(DateMatcher::is_sep_date(&d), "{}", d);
    }
    assert!(!DateMatcher::is_sep_shape("01:02:03"));
}

#[test]
fn unseparated_dates() {
    assert!(DateMatcher::is_no_sep_date("19930116"));
    assert!(!DateMatcher::is_no_sep_date("00000000"));
    assert!(DateMatcher::is_no_sep_date("2024"));
    assert!(!DateMatcher::is_no_sep_date("2001"));
    assert!(DateMatcher::is_no_sep_date("1201"));
    assert!(!DateMatcher::is_no_sep_date("123"));
    assert!(!DateMatcher::is_no_sep_date("123456789"));
    assert!(!DateMatcher::is_no_sep_date("12a4"));
    assert!(DateMatcher::is_no_sep_date("010199"));
    assert!(!DateMatcher::is_no_sep_date("99999"));
}

#[test]
fn date_matcher_scenario_dates() {
    let m = DateMatcher::new();
    let r = m.match_pwd("19930116");
    assert_eq!(r.matcher_name, "DateMatcher");
    assert!(spans(&r.matches).contains(&(0, 8)));
    let r = m.match_pwd("00000000");
    assert!(!spans(&r.matches).contains(&(0, 8)));
}

#[test]
fn short_passwords_hold_no_dates() {
    let m = DateMatcher::new();
    for p in ["", "1", "12", "123", "1.1"] {
        assert!(m.match_pwd(p).matches.is_empty(), "{}", p);
    }
}

#[test]
fn last_window_is_scanned() {
    let m = DateMatcher::new();
    let r = m.match_pwd("ab2024");
    assert_eq!(spans(&r.matches), vec![(2, 6)]);
    let r = m.match_pwd("x12.02.2015");
    assert!(spans(&r.matches).contains(&(1, 11)));
}

#[test]
fn date_matches_in_scan_order() {
    let m = DateMatcher::new();
    let r = m.match_pwd("a1.1.99");
    // unseparated windows first, then separated ones
    assert_eq!(spans(&r.matches), vec![(1, 7)]);
    let r = m.match_pwd("11111");
    assert_eq!(spans(&r.matches), vec![(0, 4), (0, 5), (1, 5)]);
    for x in &r.matches {
        assert!(x.idx_match_start < x.idx_match_end);
        assert_eq!(x.match_len, x.idx_match_end - x.idx_match_start);
    }
}

#[test]
fn non_ascii_password_does_not_panic() {
    let m = DateMatcher::new();
    let r = m.match_pwd("é2024ü");
    assert_eq!(spans(&r.matches), vec![(1, 5)]);
}

fn digits(mut n: u64, width: usize) -> String {
    let mut s = vec!['0'; width];
    for k in (0..width).rev() {
        s[k] = char::from(b'0' + (n % 10) as u8);
        n /= 10;
    }
    s.into_iter().collect()
}

#[test]
fn unseparated_grammar_agrees_with_patterns() {
    let four = [Regex::new(r"[1-9]{2}[0-9]{2}").unwrap(), Regex::new(r"[0-9]{2}[1-9]{2}").unwrap()];
    let longer = [
        Regex::new(r"^(?:[01]?[0-9][0-3]?[0-9])(?:[12][0-9])?[0-9]{2}$").unwrap(),
        Regex::new(r"^(?:[0-3]?[0-9][01]?[0-9])(?:[12][0-9])?[0-9]{2}$").unwrap(),
        Regex::new(r"^(?:[12][0-9])?[0-9]{2}(?:[01]?[0-9][0-3]?[0-9])$").unwrap(),
        Regex::new(r"^(?:[12][0-9])?[0-9]{2}(?:[0-3]?[0-9][01]?[0-9])$").unwrap(),
    ];
    for n in 0..10_000u64 {
        let s = digits(n, 4);
        let expected = four.iter().any(|r| r.is_match(&s));
        assert_eq!(DateMatcher::is_no_sep_date(&s), expected, "{}", s);
    }
    for width in 5..=8usize {
        let count: u64 = 10u64.pow(width as u32);
        let step = if width == 5 { 1 } else { count / 20_000 + 7 };
        let mut n = 0u64;
        while n < count {
            let s = digits(n, width);
            let expected = longer.iter().any(|r| r.is_match(&s));
            assert_eq!(DateMatcher::is_no_sep_date(&s), expected, "{}", s);
            n += step;
        }
    }
}

#[test]
fn separated_shape_agrees_with_pattern() {
    let shape =
        Regex::new(r"^((?:\d{1,2})|\d{4})[\.,;\-/](\d{1,2})[\.,;\-/]((?:\d{1,2})|\d{4})$").unwrap();
    let fields = ["", "1", "12", "123", "1234", "12345"];
    for a in fields {
        for b in fields {
            for c in fields {
                for sep in [".", "-", "/"] {
                    let s = format!("{}{}{}{}{}", a, sep, b, sep, c);
                    assert_eq!(DateMatcher::is_sep_shape(&s), shape.is_match(&s), "{}", s);
                }
            }
        }
    }
}

#[test]
fn long_digit_runs_do_not_panic() {
    let m = DateMatcher::new();
    let r = m.match_pwd("99999999999.1.99999999999");
    assert!(r.matches.iter().all(|x| x.match_len <= 10));
    assert!(!DateMatcher::is_sep_date("99999999999.1.1"));
}
