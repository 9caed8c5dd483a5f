//! Contracts for the reconcile-loop plumbing.

use narratarr::reconcile::{interval_text_is_supported, parse_interval, parse_overrides, render_report, OverrideAction};
use narratarr::store::{Decision, DecisionStatus};

fn decision(key: &str, status: DecisionStatus) -> Decision {
    Decision {
        ebook_key: key.into(),
        status,
        asin: None,
        confidence: None,
        attempts: 1,
        next_retry: None,
        updated_at: 0,
        note: None,
        ebook_title: None,
        ebook_author: None,
        image_url: None,
        reasons: None,
    }
}

#[test]
fn interval_parsing() {
    assert_eq!(parse_interval("90s"), Some(90));
    assert_eq!(parse_interval("30m"), Some(1800));
    assert_eq!(parse_interval("6h"), Some(21600));
    assert_eq!(parse_interval("1d"), Some(86400));
    assert_eq!(parse_interval("6x"), None);
    assert_eq!(parse_interval(""), None);
}

#[test]
fn interval_edges() {
    assert_eq!(parse_interval("  45m \n"), Some(2700));
    assert_eq!(parse_interval("h"), None);
    assert_eq!(parse_interval("-5s"), None);
    assert!(interval_text_is_supported("6h"));
    assert!(!interval_text_is_supported("6é"));
    assert!(!interval_text_is_supported("999999999999999999d"));
}

#[test]
fn overrides_parsing() {
    let text = "\n# comment\nbrandon sanderson|mistborn: secret history = B01DPMS8JC\n\
                aaron rosenberg|beyond the dark portal = SKIP   # reject\nbadline\n= B0X\n";
    let o = parse_overrides(text);
    assert_eq!(o.len(), 2);
    assert_eq!(o[0].1, OverrideAction::Asin("B01DPMS8JC".into()));
    assert_eq!(o[1].1, OverrideAction::Skip);
}

#[test]
fn override_keys_split_at_last_equals() {
    let o = parse_overrides("a = b = B0C\nk =\n");
    assert_eq!(o.len(), 1);
    assert_eq!(o[0].0, "a = b");
    assert_eq!(o[0].1, OverrideAction::Asin("B0C".into()));
}

#[test]
fn report_contains_paste_ready_override_lines() {
    let mut d = decision("matt dinniman|carl s doomsday scenario", DecisionStatus::Ambiguous);
    d.asin = Some("B0934GTSGT".into());
    d.confidence = Some(0.63f64.to_bits());
    d.note = Some("Carl's Doomsday Scenario".into());
    let md = render_report(&[d], &["0.63".to_string()], 0);
    assert!(md.contains("Needs review"));
    assert!(md.contains("`matt dinniman|carl s doomsday scenario = B0934GTSGT`"));
    assert!(md.contains("= skip`"));
}

#[test]
fn report_counts_and_not_found_lane() {
    let mut nf = decision("a|b", DecisionStatus::NotFound);
    nf.next_retry = Some(86400 * 3 + 10);
    nf.attempts = 2;
    let ds = vec![decision("m|x", DecisionStatus::Matched), nf];
    let md = render_report(&ds, &["0.00".to_string(), "0.00".to_string()], 0);
    assert_eq!(
        md,
        "# narratarr review report\n\n1 matched · 0 needing review · 1 not found\n\n\
         ## Not found\n\nRetried automatically; add an override if you know the ASIN.\n\n\
         - a|b (attempt 2, retry in 3d)\n"
    );
}

#[test]
fn pasted_report_lines_parse_back() {
    let mut d = decision("jeff grubb|the last guardian", DecisionStatus::Ambiguous);
    d.asin = Some("1945683260".into());
    let md = render_report(&[d], &["0.71".to_string()], 0);
    // the user copies the text between the backticks into the overrides file
    let pasted: Vec<&str> = md.split('`').skip(1).step_by(2).filter(|s| s.contains(" = ")).collect();
    assert_eq!(pasted, vec!["jeff grubb|the last guardian = 1945683260", "jeff grubb|the last guardian = skip"]);
    let o = parse_overrides(&pasted.join("\n"));
    assert_eq!(o.len(), 2);
    assert_eq!(o[0].0, "jeff grubb|the last guardian");
    assert_eq!(o[0].1, OverrideAction::Asin("1945683260".into()));
    assert_eq!(o[1].1, OverrideAction::Skip);
}

#[test]
fn at_most_one_override_per_line() {
    let text = "a = B1\n# only a comment\nb = skip\nnot an override\n";
    let o = parse_overrides(text);
    assert!(o.len() <= text.lines().count());
    assert_eq!(o.len(), 2);
}
