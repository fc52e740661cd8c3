use pwd_strength::{estimate_strength, Weakness};

#[test]
fn it_works() {}

#[test]
fn test_too_short() {
    let _ = estimate_strength("peter", "smith\npeter\n");
}

#[test]
fn unrated_strength_is_all_zero() {
    let s = estimate_strength("peter2024", "peter\n");
    assert_eq!(s.guesses, 0);
    assert_eq!(s.guesses_log10, 0);
    assert_eq!(s.score, 0);
    assert_eq!(s.calc_time, 0);
    assert_eq!(s.sequence, "wut");
}

#[test]
fn weakness_equality() {
    assert_eq!(Weakness::TooShort, Weakness::TooShort);
    assert_ne!(Weakness::TooShort, Weakness::NoNumbers);
    assert_ne!(Weakness::NoNumbers, Weakness::NoWeakness);
}
