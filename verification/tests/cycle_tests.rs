//! The reconcile cycle's decisions: check-then-act sync, the override
//! file, what a verdict records, and which books a cycle works on.

use narratarr::cycle::{
    cycle_books, cycle_decision, find_library, known_match_metadata, library_choices,
    match_metadata, override_decision, override_metadata, search_again_without_author,
    search_author, title_order, truncate, BestPick, SyncStats,
};
use narratarr::listenarr::AddOutcome;
use narratarr::matcher::{Candidate, Ebook, Status};
use narratarr::reconcile::OverrideAction;
use narratarr::store::{is_actionable, Decision, DecisionStatus, FULL_CONFIDENCE_BITS, NOT_FOUND_RETRY_SECS};
use narratarr::web::queue_json;

fn ebook(title: &str, author: &str) -> Ebook {
    Ebook { title: title.into(), author: author.into(), language: Some("zho".into()) }
}

fn prior(status: DecisionStatus, asin: Option<&str>) -> Decision {
    Decision {
        ebook_key: "frank herbert|dune".into(),
        status,
        asin: asin.map(Into::into),
        confidence: None,
        attempts: 2,
        next_retry: None,
        updated_at: 0,
        note: None,
        ebook_title: Some("Dune".into()),
        ebook_author: Some("Frank Herbert".into()),
        image_url: None,
        reasons: None,
    }
}

#[test]
fn sync_is_check_then_act() {
    let mut st = SyncStats::new();
    // present: nothing to do
    assert!(!st.after_lookup(Some(true), true));
    // absent in a dry run: only counted
    assert!(!st.after_lookup(Some(false), false));
    // absent with apply: add it
    assert!(st.after_lookup(Some(false), true));
    st.after_add(Some(AddOutcome::Added));
    st.after_add(Some(AddOutcome::AlreadyExists));
    // lookup and add failures are counted as errors
    assert!(!st.after_lookup(None, true));
    st.after_add(None);
    assert_eq!((st.present, st.would_add, st.added, st.errors), (2, 1, 1, 2));
}

#[test]
fn override_skip_and_accept() {
    let now = 1000;
    let d = override_decision("frank herbert|dune", &OverrideAction::Skip, None, now).unwrap();
    assert_eq!(d.status, DecisionStatus::Skipped);
    assert_eq!(d.note.as_deref(), Some("manual override: skip"));
    assert_eq!(d.attempts, 0);
    assert_eq!(d.updated_at, now);
    // already skipped: nothing to record
    assert!(override_decision("k", &OverrideAction::Skip, Some(&prior(DecisionStatus::Skipped, None)), now).is_none());

    let accept = OverrideAction::Asin("B0DUNE".into());
    let p = prior(DecisionStatus::Ambiguous, Some("B0OTHER"));
    let d = override_decision("frank herbert|dune", &accept, Some(&p), now).unwrap();
    assert_eq!(d.status, DecisionStatus::Matched);
    assert_eq!(d.asin.as_deref(), Some("B0DUNE"));
    assert_eq!(d.confidence, Some(FULL_CONFIDENCE_BITS));
    assert_eq!(d.attempts, 2);
    assert_eq!(d.ebook_title.as_deref(), Some("Dune"));
    // idempotent: the same line again records nothing
    assert!(override_decision("frank herbert|dune", &accept, Some(&d), now + 5).is_none());
    // matched to a different ASIN: re-recorded
    let m = prior(DecisionStatus::Matched, Some("B0OTHER"));
    assert!(override_decision("k", &accept, Some(&m), now).is_some());
}

#[test]
fn override_metadata_comes_from_the_key() {
    let m = override_metadata("frank herbert|dune", "B0DUNE");
    assert_eq!(m.asin, "B0DUNE");
    assert_eq!(m.title, "dune");
    assert_eq!(m.authors, vec!["frank herbert".to_string()]);
    assert!(m.subtitle.is_none() && m.narrators.is_empty() && m.language.is_none());
    let m = override_metadata("nokey", "B1");
    assert_eq!(m.title, "nokey");
    assert_eq!(m.authors, vec!["nokey".to_string()]);
}

#[test]
fn sync_metadata() {
    let e = ebook("Dune", "Herbert, Frank;Someone");
    let m = known_match_metadata("B1", &e);
    assert_eq!(m.title, "Dune");
    assert_eq!(m.authors, vec!["Herbert, Frank".to_string()]);
    assert_eq!(m.language.as_deref(), Some("zho"));
    let c = Candidate {
        asin: Some("B1".into()),
        title: "Dune (Unabridged)".into(),
        subtitle: Some("Book One".into()),
        authors: vec!["Frank Herbert".into()],
        narrators: vec!["Scott Brick".into()],
        language: Some("english".into()),
        ..Default::default()
    };
    let m = match_metadata("B1", Some(&c), &e);
    assert_eq!(m.title, "Dune (Unabridged)");
    assert_eq!(m.subtitle.as_deref(), Some("Book One"));
    assert_eq!(m.narrators, vec!["Scott Brick".to_string()]);
    assert_eq!(m.language.as_deref(), Some("english"));
    let m = match_metadata("B1", None, &e);
    assert_eq!(m.title, "Dune");
    assert!(m.authors.is_empty());
}

#[test]
fn verdicts_record_lanes_and_backoff() {
    let e = ebook("Dune", "Frank Herbert");
    let best = BestPick {
        asin: Some("B1".into()),
        title: "Dune".into(),
        total_bits: 0.97f64.to_bits(),
        image_url: Some("https://img/d.jpg".into()),
        penalties: vec!["abridged".into(), "language-mismatch".into()],
    };
    let now = 5_000;
    let d = cycle_decision("k", &e, Status::NotFound, Some(&best), Some(&prior(DecisionStatus::NotFound, None)), now);
    assert_eq!(d.status, DecisionStatus::NotFound);
    assert_eq!(d.next_retry, Some(now + NOT_FOUND_RETRY_SECS));
    assert_eq!(NOT_FOUND_RETRY_SECS, 30 * 24 * 3600);
    assert_eq!(d.attempts, 3);
    assert_eq!(d.reasons.as_deref(), Some("abridged,language-mismatch"));
    assert_eq!(d.ebook_author.as_deref(), Some("Frank Herbert"));
    assert!(!is_actionable(Some(&d), now + NOT_FOUND_RETRY_SECS - 1));
    assert!(is_actionable(Some(&d), now + NOT_FOUND_RETRY_SECS));

    let d = cycle_decision("k", &e, Status::Ambiguous, Some(&best), None, now);
    assert_eq!(d.next_retry, None);
    assert_eq!(d.attempts, 1);
    assert_eq!(d.confidence, Some(0.97f64.to_bits()));
    assert_eq!(d.note.as_deref(), Some("Dune"));
    assert!(!is_actionable(Some(&d), i64::MAX));
    // the review card shows the same reasons
    let q = queue_json(&[d]);
    let items = q.get("items").unwrap().as_array().unwrap();
    let reasons: Vec<_> = items[0].get("reasons").unwrap().as_array().unwrap().iter().map(|r| r.as_str().unwrap()).collect();
    assert_eq!(reasons, vec!["abridged", "language-mismatch"]);

    let d = cycle_decision("k", &e, Status::NotFound, None, None, now);
    assert!(d.asin.is_none() && d.confidence.is_none() && d.note.is_none() && d.reasons.is_none());
    let quiet = BestPick { penalties: vec![], ..best };
    let d = cycle_decision("k", &e, Status::Matched, Some(&quiet), None, now);
    assert_eq!(d.reasons, None);
}

#[test]
fn books_in_title_order_with_limit() {
    let books = vec![
        ebook("beta", "x"),
        ebook("Alpha", "y"),
        ebook("alpha", "z"),
        ebook("Alpha", "w"),
        ebook("Étude", "v"),
    ];
    // code-point order: uppercase before lowercase, ties keep their order
    assert_eq!(title_order(&books), vec![1, 3, 2, 0, 4]);
    let r = cycle_books(&books, 3, "en");
    let titles: Vec<_> = r.iter().map(|b| (b.title.as_str(), b.author.as_str())).collect();
    assert_eq!(titles, vec![("Alpha", "y"), ("Alpha", "w"), ("alpha", "z")]);
    assert!(r.iter().all(|b| b.language.as_deref() == Some("en")));
    assert_eq!(cycle_books(&books, usize::MAX, "en").len(), 5);
    assert!(cycle_books(&[], 3, "en").is_empty());
}

#[test]
fn search_plan() {
    assert_eq!(search_author("Herbert, Frank;Other").as_deref(), Some("Herbert, Frank"));
    assert_eq!(search_author(" ; "), None);
    assert!(search_again_without_author(0, true));
    assert!(!search_again_without_author(0, false));
    assert!(!search_again_without_author(3, true));
}

#[test]
fn library_choice() {
    let libs = vec![
        ("l1".to_string(), "Podcasts".to_string(), "podcast".to_string()),
        ("l2".to_string(), "Books".to_string(), "book".to_string()),
    ];
    assert_eq!(find_library(&libs, "books"), Some(1));
    assert_eq!(find_library(&libs, "BOOKS"), Some(1));
    assert_eq!(find_library(&libs, "Audio"), None);
    assert_eq!(
        library_choices(&libs),
        "abs library must name one of: Podcasts (podcast), Books (book)"
    );
    assert_eq!(library_choices(&vec![]), "abs library must name one of: ");
}

#[test]
fn truncation_counts_characters() {
    assert_eq!(truncate("Étude in Blue", 5), "Étude");
    assert_eq!(truncate("short", 48), "short");
    assert_eq!(truncate("", 0), "");
}
