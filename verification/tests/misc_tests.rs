use plutocradroid::listing::{MotionListFilter, filter_admits};
use plutocradroid::token::generate_state;

#[test]
fn filter_names_parse() {
    assert_eq!(MotionListFilter::from_name("all"), Some(MotionListFilter::All));
    assert_eq!(MotionListFilter::from_name("passed"), Some(MotionListFilter::Passed));
    assert_eq!(MotionListFilter::from_name("failed"), Some(MotionListFilter::Failed));
    assert_eq!(MotionListFilter::from_name("finished"), Some(MotionListFilter::Finished));
    assert_eq!(MotionListFilter::from_name("pending"), Some(MotionListFilter::Pending));
    assert_eq!(
        MotionListFilter::from_name("pending_passed"),
        Some(MotionListFilter::PendingPassed)
    );
    assert_eq!(MotionListFilter::from_name("bogus"), None);
    assert_eq!(MotionListFilter::from_name(""), None);
    assert_eq!(MotionListFilter::default(), MotionListFilter::All);
}

#[test]
fn filters_admit_the_right_motions() {
    // (filter, resolved, winning) -> shown
    let cases = [
        (MotionListFilter::All, true, true, true),
        (MotionListFilter::All, false, false, true),
        (MotionListFilter::Passed, true, true, true),
        (MotionListFilter::Passed, true, false, false),
        (MotionListFilter::Passed, false, true, false),
        (MotionListFilter::Failed, true, false, true),
        (MotionListFilter::Failed, true, true, false),
        (MotionListFilter::Finished, true, false, true),
        (MotionListFilter::Finished, false, true, false),
        (MotionListFilter::Pending, false, true, true),
        (MotionListFilter::Pending, true, true, false),
        (MotionListFilter::PendingPassed, false, false, true),
        (MotionListFilter::PendingPassed, true, true, true),
        (MotionListFilter::PendingPassed, true, false, false),
    ];
    for (f, resolved, winning, shown) in cases {
        assert_eq!(filter_admits(f, resolved, winning), shown, "{:?}", f);
    }
}

#[test]
fn state_tokens_are_long_and_urlsafe() {
    let a = generate_state().unwrap();
    let b = generate_state().unwrap();
    assert_eq!(a.len(), 22);
    assert_eq!(b.len(), 22);
    for c in a.chars().chain(b.chars()) {
        assert!(c.is_ascii_alphanumeric() || c == '-' || c == '_');
    }
    // 128 random bits: two draws never collide in practice.
    assert_ne!(a, b);
}
