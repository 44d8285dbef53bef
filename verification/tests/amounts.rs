use solfort::amount::{format_lamports_as_sol, parse_sol_amount};

#[test]
fn truncation_of_long_fraction() {
    // floor(1.23456789 * 10^9) = 1234567890, truncation not rounding
    assert_eq!(parse_sol_amount("1.23456789"), Some(1_234_567_890));
    assert_eq!(parse_sol_amount("0.1234567895"), Some(123_456_789));
    assert_eq!(parse_sol_amount("0.9999999999"), Some(999_999_999));
}

#[test]
fn whole_and_fractional_amounts() {
    assert_eq!(parse_sol_amount("0"), Some(0));
    assert_eq!(parse_sol_amount("1"), Some(1_000_000_000));
    assert_eq!(parse_sol_amount("1.5"), Some(1_500_000_000));
    assert_eq!(parse_sol_amount("2.25"), Some(2_250_000_000));
    assert_eq!(parse_sol_amount("1."), Some(1_000_000_000));
    assert_eq!(parse_sol_amount(".5"), Some(500_000_000));
    assert_eq!(parse_sol_amount("0.000000001"), Some(1));
}

#[test]
fn malformed_amounts_are_rejected() {
    assert_eq!(parse_sol_amount(""), None);
    assert_eq!(parse_sol_amount("."), None);
    assert_eq!(parse_sol_amount("1.2.3"), None);
    assert_eq!(parse_sol_amount("abc"), None);
    assert_eq!(parse_sol_amount("1e3"), None);
    assert_eq!(parse_sol_amount("-1"), None);
    assert_eq!(parse_sol_amount("1,5"), None);
}

#[test]
fn amounts_at_the_edge_of_u64() {
    assert_eq!(
        parse_sol_amount("18446744073.709551615"),
        Some(u64::MAX)
    );
    assert_eq!(parse_sol_amount("18446744073.709551616"), None);
    assert_eq!(parse_sol_amount("18446744074"), None);
    assert_eq!(parse_sol_amount("99999999999999999999999"), None);
}

#[test]
fn balance_display_trims_trailing_zeros() {
    assert_eq!(format_lamports_as_sol(0).as_str(), "0");
    assert_eq!(format_lamports_as_sol(1_500_000_000).as_str(), "1.5");
    assert_eq!(format_lamports_as_sol(2_000_000_000).as_str(), "2");
    assert_eq!(format_lamports_as_sol(1).as_str(), "0.000000001");
    assert_eq!(format_lamports_as_sol(1_234_567_890).as_str(), "1.23456789");
    assert_eq!(format_lamports_as_sol(10_010_000_000).as_str(), "10.01");
}

#[test]
fn display_round_trips_through_parsing() {
    for l in [0u64, 1, 999_999_999, 1_000_000_000, 1_500_000_000, 1_234_567_890, u64::MAX] {
        let shown = format_lamports_as_sol(l);
        assert_eq!(parse_sol_amount(shown.as_str()), Some(l));
    }
}
