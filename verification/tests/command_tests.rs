use topbot::command::parse_command;
use topbot::model::RankingRequest;

#[test]
fn parses_plain_command() {
    assert_eq!(
        parse_command(b"/top 3 7"),
        Some(RankingRequest { top: 3, days: 7 })
    );
}

#[test]
fn clamps_low_values() {
    assert_eq!(
        parse_command(b"/top 0 0"),
        Some(RankingRequest { top: 1, days: 1 })
    );
    assert_eq!(parse_command(b"/top 0 0"), parse_command(b"/top 1 1"));
}

#[test]
fn clamps_high_values() {
    assert_eq!(
        parse_command(b"/top 999 9999"),
        Some(RankingRequest { top: 5, days: 365 })
    );
    assert_eq!(
        parse_command(b"/top 999 9999"),
        parse_command(b"/top 5 365")
    );
}

#[test]
fn rejects_command_not_at_start() {
    assert_eq!(parse_command(b"hello /top 3 3"), None);
    assert_eq!(parse_command(b" /top 3 3"), None);
}

#[test]
fn rejects_missing_arguments() {
    assert_eq!(parse_command(b"/top"), None);
    assert_eq!(parse_command(b"/top "), None);
    assert_eq!(parse_command(b"/top 3"), None);
    assert_eq!(parse_command(b"/top 3 "), None);
}

#[test]
fn accepts_extra_spaces_and_trailing_text() {
    assert_eq!(
        parse_command(b"/top   2   9 whatever comes later"),
        Some(RankingRequest { top: 2, days: 9 })
    );
    assert_eq!(
        parse_command(b"/top 2 9next"),
        Some(RankingRequest { top: 2, days: 9 })
    );
}

#[test]
fn rejects_malformed_numbers() {
    assert_eq!(parse_command(b"/topx 2 9"), None);
    assert_eq!(parse_command(b"/top 2x 9"), None);
    assert_eq!(parse_command(b"/top x 9"), None);
}

#[test]
fn ignores_commands_with_unrepresentable_numbers() {
    assert_eq!(parse_command(b"/top 99999999999999999999 3"), None);
    assert_eq!(parse_command(b"/top 3 99999999999999999999"), None);
    // The largest representable value still parses, and is clamped.
    assert_eq!(
        parse_command(b"/top 9223372036854775807 9223372036854775807"),
        Some(RankingRequest { top: 5, days: 365 })
    );
}

#[test]
fn leading_zeros_are_plain_digits() {
    assert_eq!(
        parse_command(b"/top 0000000000000000000003 0002"),
        Some(RankingRequest { top: 3, days: 2 })
    );
}
