//! Fixtures pinning the matcher's normalizers and the facts a verdict is
//! built from, against real-world library metadata.

use narratarr::matcher::{
    assess_candidate, author_forms, author_unknown, base_title, bonuses, classify, content_words,
    find_by_asin, first_eligible, normalize_author, normalize_title, penalties, preclean_title,
    primary_author, query_title, title_forms, BestFacts, Candidate, Ebook, FormatKind,
    LanguageCheck, Status,
};

fn ebook(title: &str, author: &str) -> Ebook {
    Ebook { title: title.into(), author: author.into(), language: Some("en".into()) }
}

fn cand(title: &str, subtitle: Option<&str>, authors: &[&str]) -> Candidate {
    Candidate {
        asin: Some("B000TEST".into()),
        title: title.into(),
        subtitle: subtitle.map(Into::into),
        authors: authors.iter().map(|s| s.to_string()).collect(),
        format_type: Some("unabridged".into()),
        language: Some("english".into()),
        ..Default::default()
    }
}

fn words(v: Vec<Vec<char>>) -> Vec<String> {
    v.into_iter().map(|w| w.into_iter().collect()).collect()
}

// ── normalizers, against the library's real filename mess ───────────────

#[test]
fn title_filename_artifacts() {
    assert_eq!(normalize_title("Alloy of Law_ A Mistborn Novel, The"), "alloy of law: a mistborn novel");
    assert_eq!(base_title(&normalize_title("Alloy of Law_ A Mistborn Novel, The")), "alloy of law");
    assert_eq!(normalize_title("a Short History Of Nearly Everything (2010)"), "a short history of nearly everything");
}

#[test]
fn author_reversed_and_junk() {
    assert_eq!(normalize_author("Bryson, Bill"), "bill bryson");
    assert_eq!(normalize_author("Skiena, Steven S. [Skiena, Steven S.] & chenjin5.com"), "steven s skiena");
    assert_eq!(normalize_author("Forsgren PhD"), "forsgren");
}

#[test]
fn query_title_keeps_punctuation_strips_tags() {
    assert_eq!(query_title("Abaddon's Gate"), "Abaddon's Gate");
    assert_eq!(query_title("Beyond the Dark Portal (wow-4)"), "Beyond the Dark Portal");
    assert_eq!(query_title("Alloy of Law_ A Mistborn Novel, The"), "Alloy of Law");
}

#[test]
fn semicolon_author_lists_use_first_author() {
    assert_eq!(normalize_author("Horstman, Mark;Braun, Michael"), "mark horstman");
    assert_eq!(normalize_author("Max Brooks;"), "max brooks");
}

#[test]
fn first_listed_author_is_credited() {
    // "The Effective Manager" by the first author of a list: the credited
    // author is the same person, and the titles agree
    let forms = author_forms("Horstman, Mark;Braun, Michael", &vec!["Mark Horstman".to_string()]);
    assert_eq!(forms.ebook, "mark horstman");
    assert_eq!(forms.credited.len(), 1);
    assert_eq!(forms.credited[0].name, "mark horstman");
    assert!(forms.credited[0].same_surname);
    let a = assess_candidate(
        &ebook("The Effective Manager", "Horstman, Mark;Braun, Michael"),
        &cand("The Effective Manager", None, &["Mark Horstman"]),
    );
    assert!(!a.extra_words && !a.derivative && !a.dramatized);
}

#[test]
fn preclean_strips_filename_junk_from_titles() {
    assert_eq!(preclean_title("Cline, Ernest - Armada: A Novel"), "Armada: A Novel");
    assert_eq!(
        preclean_title("Sanderson, Brandon - Mistborn 06 - The Bands of Mourning"),
        "The Bands of Mourning"
    );
    assert_eq!(
        preclean_title("The Lord of the Rings #01 - The Fellowship of the Ring"),
        "The Fellowship of the Ring"
    );
    assert_eq!(
        preclean_title("Astrophysics for People in a Hurry - Summarized for Busy People"),
        "Astrophysics for People in a Hurry - Summarized for Busy People"
    );
}

// ── the facts behind the verdicts ────────────────────────────────────────

#[test]
fn primary_author_takes_first_nonblank() {
    assert_eq!(primary_author("A;B;C"), "A");
    assert_eq!(primary_author(" ; Max Brooks ;x"), "Max Brooks");
    assert_eq!(primary_author(""), "");
}

#[test]
fn summary_junk_is_never_eligible() {
    let a = assess_candidate(
        &ebook("Astrophysics for People in a Hurry", "Neil deGrasse Tyson"),
        &cand("Summary of Astrophysics for People in a Hurry", None, &["Goldmine Reads"]),
    );
    assert!(a.derivative);
    assert_eq!(penalties(&a), vec!["derivative-work", "title-extra-words"]);
    // the only candidate is junk: no best, not found
    assert_eq!(first_eligible(&vec![a.derivative]), None);
    assert_eq!(classify(None, false), Status::NotFound);
}

#[test]
fn dramatized_adaptation_is_flagged() {
    let a = assess_candidate(
        &ebook("The Great Gatsby (\"Global Classics\")", "F. Scott Fitzgerald"),
        &cand("The Great Gatsby (Dramatized)", None, &["F. Scott Fitzgerald"]),
    );
    assert!(a.dramatized);
    assert!(penalties(&a).contains(&"dramatized"));
}

#[test]
fn adjacent_title_carries_extra_words() {
    let a = assess_candidate(
        &ebook("The Effective Manager", "Horstman, Mark;Braun, Kate"),
        &cand("The Effective Hiring Manager", None, &["Mark Horstman"]),
    );
    assert!(a.extra_words);
    assert!(penalties(&a).contains(&"title-extra-words"));
}

#[test]
fn subtitle_only_differences_carry_no_extra_words() {
    let a = assess_candidate(
        &ebook("Accelerate", "Nicole Forsgren"),
        &cand(
            "Accelerate",
            Some("Building and Scaling High Performing Technology Organizations"),
            &["Nicole Forsgren PhD"],
        ),
    );
    assert!(!a.extra_words);
    let f = title_forms(
        "Accelerate",
        "Accelerate",
        Some("Building and Scaling High Performing Technology Organizations"),
    );
    assert_eq!(f.ebook_full, "accelerate");
    assert_eq!(f.candidate_full, "accelerate: building and scaling high performing technology organizations");
    assert_eq!(f.candidate_base, "accelerate");
    assert!(f.same_base);
}

#[test]
fn edition_words_are_not_content() {
    assert_eq!(
        words(content_words("start with why 15th anniversary edition")),
        vec!["start".to_string(), "why".to_string()]
    );
    let a = assess_candidate(
        &ebook("Start with Why: How Great Leaders Inspire Everyone to Take Action", "Simon Sinek"),
        &cand("Start with Why 15th Anniversary Edition", None, &["Simon Sinek"]),
    );
    assert!(!a.extra_words);
    let f = title_forms(
        "Start with Why: How Great Leaders Inspire Everyone to Take Action",
        "Start with Why 15th Anniversary Edition",
        None,
    );
    assert!(f.same_base);
}

#[test]
fn language_and_format_checks() {
    let mut c = cand("Abaddon's Gate - La fuga", None, &["James S. A. Corey"]);
    c.language = Some("italian".into());
    let a = assess_candidate(&ebook("Abaddon's Gate", "James S. A. Corey"), &c);
    assert_eq!(a.language, LanguageCheck::Different);
    assert!(penalties(&a).contains(&"language-mismatch"));

    let mut ab = cand("Dune", None, &["Frank Herbert"]);
    ab.format_type = Some("ABRIDGED".into());
    let a = assess_candidate(&ebook("Dune", "Frank Herbert"), &ab);
    assert_eq!(a.format, FormatKind::Abridged);
    assert_eq!(penalties(&a), vec!["abridged"]);
    assert_eq!(bonuses(&a), vec!["language"]);

    let a = assess_candidate(&ebook("Dune", "Frank Herbert"), &cand("Dune", None, &["Frank Herbert"]));
    assert_eq!(a.format, FormatKind::Unabridged);
    assert_eq!(a.language, LanguageCheck::Same);
    assert!(penalties(&a).is_empty());
    assert_eq!(bonuses(&a), vec!["unabridged", "language"]);
}

#[test]
fn reversed_author_agrees_on_surname() {
    let forms = author_forms("Corey, James S. A", &vec!["James S. A. Corey".to_string()]);
    assert_eq!(forms.ebook, "james s a corey");
    assert_eq!(forms.credited[0].name, "james s a corey");
    assert!(forms.credited[0].same_surname);
    let forms = author_forms("DoctorHepa", &vec!["Matt Dinniman".to_string()]);
    assert!(!forms.credited[0].same_surname);
}

#[test]
fn classification_rules() {
    let f = |confident, author_confirmed, plausible, strong_title| BestFacts {
        confident,
        author_confirmed,
        plausible,
        strong_title,
    };
    assert_eq!(classify(Some(f(true, true, true, true)), false), Status::Matched);
    // no author metadata: never an auto-match, review instead
    assert_eq!(classify(Some(f(true, true, true, true)), true), Status::Ambiguous);
    // a perfect title with an unconfirmed author goes to review
    assert_eq!(classify(Some(f(true, false, true, true)), false), Status::Ambiguous);
    assert_eq!(classify(Some(f(false, false, false, true)), true), Status::Ambiguous);
    assert_eq!(classify(Some(f(false, false, false, true)), false), Status::NotFound);
    assert_eq!(classify(None, true), Status::NotFound);
}

#[test]
fn author_unknown_and_eligibility() {
    assert!(author_unknown(&ebook("X", "  ; ")));
    assert!(!author_unknown(&ebook("X", "Frank Herbert")));
    assert_eq!(first_eligible(&vec![true, false, false]), Some(1));
    assert_eq!(first_eligible(&vec![]), None);
}

#[test]
fn candidates_are_found_by_asin() {
    let mut a = cand("Dune", None, &["Frank Herbert"]);
    a.asin = Some("ABRIDGED".into());
    let b = cand("Dune", None, &["Frank Herbert"]);
    let cs = vec![a, b];
    assert_eq!(find_by_asin(&cs, "B000TEST"), Some(1));
    assert_eq!(find_by_asin(&cs, "ABRIDGED"), Some(0));
    assert_eq!(find_by_asin(&cs, "NOPE"), None);
}
