use archive_org_redump_link_updater::replace::{fix, needs_fix, DomainRegex};

#[test]
fn rewrites_bare_domain_preserving_case() {
    assert_eq!(fix("redump.org"), "redump.info");
    assert_eq!(fix("Redump.org"), "Redump.info");
    assert_eq!(fix("REDUMP.ORG"), "REDUMP.INFO");
}

#[test]
fn rewrites_inside_urls() {
    assert_eq!(
        fix("www.redump.org/disc/192839128392"),
        "www.redump.info/disc/192839128392"
    );
    assert_eq!(
        fix(r#"<a href="http://redump.org/disc/123">Redump.org</a>"#),
        r#"<a href="http://redump.info/disc/123">Redump.info</a>"#
    );
    assert_eq!(
        fix("https://redump.org/disc/192839128392/"),
        "https://redump.info/disc/192839128392/"
    );
}

#[test]
fn rewrites_every_occurrence() {
    assert_eq!(
        fix("see redump.org and Redump.org twice"),
        "see redump.info and Redump.info twice"
    );
}

#[test]
fn leaves_unrelated_text_alone() {
    assert_eq!(fix("nothing to do here"), "nothing to do here");
    assert_eq!(fix("redump.info"), "redump.info");
    // A different domain that merely ends in "redump.org".
    assert_eq!(fix("notredump.org"), "notredump.org");
    // Not the TLD - a longer word starting with "org".
    assert_eq!(fix("redump.organization"), "redump.organization");
}

#[test]
fn needs_fix_agrees_with_fix() {
    assert!(needs_fix("visit redump.org"));
    assert!(!needs_fix("visit redump.info"));
    assert!(!needs_fix("notredump.org"));
    assert!(!needs_fix(""));
}

#[test]
fn preserves_surrounding_markup_exactly() {
    let desc = "<b>Source:</b> redump.org<br /><i>note</i>";
    assert_eq!(fix(desc), "<b>Source:</b> redump.info<br /><i>note</i>");
}

#[test]
fn mixed_case_tld_becomes_lowercase_info() {
    assert_eq!(fix("REDUMP.Org"), "REDUMP.info");
    assert_eq!(fix("redump.ORG"), "redump.INFO");
}

#[test]
fn lookalike_and_real_domain_in_one_text() {
    assert_eq!(
        fix("notredump.org, then redump.org."),
        "notredump.org, then redump.info."
    );
    assert!(needs_fix("notredump.org, then redump.org."));
}

#[test]
fn label_start_after_non_ascii_letter_is_not_rewritten() {
    // An accented letter is alphanumeric, so the label does not start at "redump".
    assert_eq!(fix("éredump.org"), "éredump.org");
    // A non-alphanumeric symbol before it does start the label.
    assert_eq!(fix("→redump.org"), "→redump.info");
}

#[test]
fn compiled_regex_gives_the_same_results() {
    let rx = DomainRegex::new();
    assert_eq!(rx.fix("Redump.org/disc/1"), "Redump.info/disc/1");
    assert!(rx.needs_fix("REDUMP.ORG"));
    assert!(!rx.needs_fix("redump.organization"));
}

#[test]
fn fixing_twice_changes_nothing_more() {
    let texts = [
        "redump.org",
        "REDUMP.ORG and Redump.Org",
        "notredump.org, then redump.org.",
        "redump.orgredump.org",
        "x redump.org redump.org",
    ];
    for t in texts {
        let once = fix(t);
        assert_eq!(fix(&once), once);
        assert!(!needs_fix(&once));
    }
}

#[test]
fn matches_back_to_back_follow_the_word_boundary() {
    // The first is followed by a word character, so only the second matches,
    // and it follows an alphanumeric character: nothing changes.
    assert_eq!(fix("redump.orgredump.org"), "redump.orgredump.org");
    assert_eq!(fix("redump.org/redump.org"), "redump.info/redump.info");
    assert_eq!(fix("redump.org_x"), "redump.org_x");
    assert_eq!(fix("redump.org-x"), "redump.info-x");
}

#[test]
fn first_change_is_counted_in_characters() {
    let rx = DomainRegex::new();
    assert_eq!(rx.first_change("notredump.org, \u{e9} redump.org"), Some(17));
    assert_eq!(rx.first_change("redump.info only"), None);
    assert_eq!(rx.first_change("redump.org"), Some(0));
}
