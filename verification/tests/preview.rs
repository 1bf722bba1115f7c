use archive_org_redump_link_updater::preview::{preview, snippet};
use archive_org_redump_link_updater::replace::{fix, DomainRegex};

#[test]
fn snippet_shows_the_changed_region_of_a_long_description() {
    let long = format!("{}redump.org{}", "x".repeat(500), "y".repeat(500));
    let s = snippet(&long);
    assert!(s.contains("redump.org"), "snippet lost the match: {s}");
    assert!(s.len() < long.len(), "snippet did not shorten the text");
    assert!(s.starts_with("..."), "expected a leading ellipsis: {s}");
    assert!(s.ends_with("..."), "expected a trailing ellipsis: {s}");
}

#[test]
fn snippet_handles_short_text_and_no_match() {
    assert_eq!(snippet("redump.org"), "redump.org");
    assert_eq!(snippet("no domain here"), "no domain here");
    assert_eq!(snippet(""), "");
}

#[test]
fn snippet_window_has_exact_bounds() {
    let long = format!("{}redump.org{}", "x".repeat(500), "y".repeat(500));
    let expected = format!("...{}redump.org{}...", "x".repeat(46), "y".repeat(35));
    assert_eq!(snippet(&long), expected);
    // Exactly 46 characters before: no leading ellipsis.
    let edge = format!("{}Redump.ORG", "a".repeat(46));
    assert_eq!(snippet(&edge), edge);
    // 47 characters before: the first one is cut.
    let over = format!("{}Redump.ORG", "a".repeat(47));
    assert_eq!(snippet(&over), format!("...{}Redump.ORG", "a".repeat(46)));
}

#[test]
fn snippet_without_match_keeps_ninety_characters() {
    let text = "z".repeat(200);
    assert_eq!(snippet(&text), "z".repeat(90));
    assert_eq!(snippet("short"), "short");
}

#[test]
fn snippet_counts_characters_not_bytes() {
    let text = format!("{}redump.org", "é".repeat(50));
    assert_eq!(snippet(&text), format!("...{}redump.org", "é".repeat(46)));
}

#[test]
fn snippet_of_any_text_is_cut_at_characters() {
    // The Kelvin sign (3 bytes) lowercases to 'k' (1 byte): positions are
    // counted in characters, so the window is still cut cleanly.
    let text = "\u{e9}\u{212a} redump.org";
    assert_eq!(snippet(text), text);
    let long = format!("{}\u{212a}redump.org", "\u{212a}".repeat(60));
    assert_eq!(snippet(&long), format!("...{}redump.org", "\u{212a}".repeat(46)));
}

#[test]
fn snippet_centres_on_the_first_change_not_an_earlier_mention() {
    // An earlier "redump." that is not changed must not pull the window away.
    let text = format!("redump.info{}redump.org/disc/1", " ".repeat(150));
    let p = 11 + 150;
    let expected = format!("...{}redump.org/disc/1", " ".repeat(46));
    assert_eq!(text.find("redump.org"), Some(p));
    assert_eq!(snippet(&text), expected);
}

#[test]
fn preview_shows_the_same_place_before_and_after() {
    let before = format!("see Redump.info, {} then REDUMP.ORG/disc/7 and more", "a".repeat(100));
    let after = fix(&before);
    let (old, new) = preview(&DomainRegex::new(), &before, &after);
    assert_eq!(old, format!("...{} then REDUMP.ORG/disc/7 and more", "a".repeat(40)));
    assert_eq!(new, format!("...{} then REDUMP.INFO/disc/7 and more", "a".repeat(40)));
}

#[test]
fn preview_without_a_change_shows_both_texts_alike() {
    let text = "no domain here";
    assert_eq!(preview(&DomainRegex::new(), text, text), (text.to_string(), text.to_string()));
    let lookalike = format!("{}notredump.org{}", "b".repeat(60), "c".repeat(60));
    let (old, new) = preview(&DomainRegex::new(), &lookalike, &lookalike);
    assert_eq!(old, new);
    assert_eq!(old, format!("...{}notredump.org{}...", "b".repeat(43), "c".repeat(35)));
}
