use archive_org_redump_link_updater::text::{decimal, trim};

#[test]
fn decimal_writes_numbers_like_format() {
    for n in [0usize, 7, 10, 99, 100, 1234, 90210, usize::MAX] {
        assert_eq!(decimal(n), format!("{n}"));
    }
}

#[test]
fn trim_removes_surrounding_whitespace() {
    assert_eq!(trim("  you@example.com \t\n"), "you@example.com");
    assert_eq!(trim("   "), "");
    assert_eq!(trim(""), "");
    assert_eq!(trim("a b"), "a b");
    assert_eq!(trim("\u{3000}key\u{a0}"), "key");
}
