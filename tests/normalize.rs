use ipa_navigator_kokoro::normalize::normalize_text;

#[test]
fn test_normalize_text() {
    assert_eq!(normalize_text("  Hello,  world!  "), "Hello, world!");
    assert_eq!(normalize_text(""), "");
    assert_eq!(
        normalize_text("\n\t Multiple \n lines \t"),
        "Multiple lines"
    );

    assert_eq!(normalize_text("Dr. Smith"), "Doctor Smith");
    assert_eq!(
        normalize_text("Visit Mr. Jones at 123 Main St."),
        "Visit Mister Jones at 123 Main Street"
    );

    assert_eq!(
        normalize_text("She said, \u{201C}Hello!\u{201D}"),
        "She said, \"Hello!\""
    );

    assert_eq!(normalize_text("Ages 5-12 welcome"), "Ages 5 to 12 welcome");
    assert_eq!(normalize_text("$1,000,000"), "$1000000");
}

#[test]
fn normalizes_the_street_address_scenario() {
    assert_eq!(
        normalize_text("  Dr. Smith, at 5-12 Main St.  "),
        "Doctor Smith, at 5 to 12 Main Street"
    );
}

#[test]
fn abbreviations_only_at_word_starts() {
    assert_eq!(normalize_text("Mrs. Ms. Ave. Rd. Blvd. etc."), "Missus Miss Avenue Road Boulevard etcetera");
    assert_eq!(normalize_text("XDr. and 1St."), "XDr. and 1St.");
    assert_eq!(normalize_text("(Dr.)"), "(Doctor)");
    assert_eq!(normalize_text("Dr"), "Dr");
    assert_eq!(normalize_text("Dr.Rd."), "DoctorRoad");
    assert_eq!(normalize_text("\u{665}-\u{661}\u{662}"), "\u{665}-\u{661}\u{662}");
}

#[test]
fn single_quotes_fold() {
    assert_eq!(normalize_text("\u{2018}hi\u{2019}"), "'hi'");
}

#[test]
fn chained_ranges_and_separators() {
    assert_eq!(normalize_text("1-2-3"), "1 to 2 to 3");
    assert_eq!(normalize_text("1,2,3"), "123");
    assert_eq!(normalize_text("a-b, 1 -2"), "a-b, 1 -2");
}

#[test]
fn normalizing_twice_changes_nothing() {
    for t in [
        "  Dr. Smith, at 5-12 Main St.  ",
        "\u{2018}x\u{2019}  \u{00A0} 1,000-2,000 etc.",
        "Dr.Mr. St.St.",
        "",
        "   ",
    ] {
        let once = normalize_text(t);
        assert_eq!(normalize_text(&once), once);
    }
}

#[test]
fn whitespace_only_becomes_empty() {
    assert_eq!(normalize_text(" \u{3000}\t "), "");
}
