//! The decision rules the reconcile loop leans on: actionability, keys,
//! and the status texts.

use narratarr::store::{
    book_step, ebook_key, epoch_seconds, is_actionable, key_author, key_title, now_epoch, BookStep,
    Decision, DecisionStatus,
};

fn decision(key: &str, status: DecisionStatus, next_retry: Option<i64>) -> Decision {
    Decision {
        ebook_key: key.into(),
        status,
        asin: Some("B000TEST".into()),
        confidence: Some(0.9f64.to_bits()),
        attempts: 1,
        next_retry,
        updated_at: now_epoch(),
        note: None,
        ebook_title: None,
        ebook_author: None,
        image_url: None,
        reasons: None,
    }
}

#[test]
fn actionability_rules() {
    let now = now_epoch();
    assert!(is_actionable(None, now));
    assert!(!is_actionable(Some(&decision("k", DecisionStatus::Matched, None)), now));
    assert!(!is_actionable(Some(&decision("k", DecisionStatus::Ambiguous, None)), now));
    assert!(!is_actionable(Some(&decision("k", DecisionStatus::Skipped, None)), now));
    assert!(!is_actionable(Some(&decision("k", DecisionStatus::NotFound, Some(now + 1000))), now));
    assert!(is_actionable(Some(&decision("k", DecisionStatus::NotFound, Some(now - 1))), now));
    assert!(is_actionable(Some(&decision("k", DecisionStatus::NotFound, None)), now));
}

#[test]
fn ebook_key_is_stable_across_metadata_styles() {
    assert_eq!(
        ebook_key("The Way of Kings", "Sanderson, Brandon"),
        ebook_key("The Way of Kings", "Brandon Sanderson"),
    );
}

#[test]
fn ebook_key_shape() {
    assert_eq!(ebook_key("The Way of Kings", "Sanderson, Brandon"), "brandon sanderson|the way of kings");
    let k = ebook_key("Carl's Doomsday Scenario", "Matt Dinniman");
    assert_eq!(k, "matt dinniman|carl s doomsday scenario");
    assert_eq!(key_author(&k), "matt dinniman");
    assert_eq!(key_title(&k), "carl s doomsday scenario");
    assert_eq!(key_title("no bar"), "no bar");
    assert_eq!(key_author("no bar"), "no bar");
    assert_eq!(key_title("a|b|c"), "b");
}

#[test]
fn status_texts_roundtrip() {
    for s in [
        DecisionStatus::Matched,
        DecisionStatus::Ambiguous,
        DecisionStatus::NotFound,
        DecisionStatus::Skipped,
    ] {
        assert_eq!(DecisionStatus::parse(s.as_str()), Some(s));
    }
    assert_eq!(DecisionStatus::NotFound.as_str(), "not_found");
    assert_eq!(DecisionStatus::parse("bogus"), None);
}

#[test]
fn clock_is_after_the_epoch() {
    assert!(now_epoch() > 1_600_000_000);
}

#[test]
fn epoch_seconds_from_a_reading() {
    assert_eq!(epoch_seconds(Some(1_700_000_000)), 1_700_000_000);
    assert_eq!(epoch_seconds(None), 0);
}

#[test]
fn cycle_step_per_book() {
    let now = 1000;
    assert!(matches!(book_step(None, now), BookStep::Match));
    match book_step(Some(&decision("k", DecisionStatus::Matched, None)), now) {
        BookStep::Skip { resync } => assert_eq!(resync.as_deref(), Some("B000TEST")),
        BookStep::Match => panic!("a matched book is not matched again"),
    }
    match book_step(Some(&decision("k", DecisionStatus::Ambiguous, None)), now) {
        BookStep::Skip { resync } => assert!(resync.is_none()),
        BookStep::Match => panic!("a book in review is not matched again"),
    }
    assert!(matches!(
        book_step(Some(&decision("k", DecisionStatus::NotFound, Some(now))), now),
        BookStep::Match
    ));
    assert!(matches!(
        book_step(Some(&decision("k", DecisionStatus::NotFound, Some(now + 1))), now),
        BookStep::Skip { resync: None }
    ));
}
