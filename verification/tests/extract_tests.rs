use republisher::extract::extract_release_date;

#[test]
fn canonical_phrase_yields_midnight_utc() {
    let text = "The article will become freely available on March 3, 2024 at midnight.";
    assert_eq!(extract_release_date(text), Some(1709424000));
}

#[test]
fn absent_phrase_yields_nothing() {
    assert_eq!(extract_release_date("no such phrase here"), None);
}

#[test]
fn case_and_whitespace_variants_parse_equivalently() {
    assert_eq!(
        extract_release_date("Freely   available  on  dec 1, 2023"),
        Some(1701388800)
    );
    assert_eq!(
        extract_release_date("freely available on December 1, 2023"),
        Some(1701388800)
    );
    assert_eq!(
        extract_release_date("FREELY AVAILABLE ON DEC 1, 2023"),
        Some(1701388800)
    );
}

#[test]
fn missing_whitespace_is_tolerated() {
    assert_eq!(
        extract_release_date("freelyavailableonmarch3, 2024"),
        Some(1709424000)
    );
}

#[test]
fn two_digit_day_parses() {
    assert_eq!(
        extract_release_date("freely available on January 15, 2000"),
        Some(947894400)
    );
}

#[test]
fn leap_day_parses_only_in_leap_years() {
    assert_eq!(
        extract_release_date("freely available on February 29, 2024"),
        Some(1709164800)
    );
    assert_eq!(extract_release_date("freely available on February 29, 2023"), None);
}

#[test]
fn nonexistent_calendar_date_yields_nothing() {
    assert_eq!(extract_release_date("freely available on February 30, 2024"), None);
}

#[test]
fn unknown_month_name_yields_nothing() {
    assert_eq!(extract_release_date("freely available on Foo 3, 2024"), None);
}

#[test]
fn leftmost_phrase_decides() {
    let text = "freely available on Foo 3, 2024 but freely available on March 3, 2024";
    assert_eq!(extract_release_date(text), None);
}

#[test]
fn three_digit_day_yields_nothing() {
    assert_eq!(extract_release_date("freely available on March 123, 2024"), None);
}

#[test]
fn day_zero_yields_nothing() {
    assert_eq!(extract_release_date("freely available on March 0, 2024"), None);
}
