use bioengineer::screen::gui::format_units::format_age;

#[test]
fn test_format_age() {
    assert_eq!(format_age(0), "0 minutes");
    assert_eq!(format_age(1), "1 minute");
    assert_eq!(format_age(10), "10 minutes");
    assert_eq!(format_age((1) * 60 + 0), "1 hour, 0 minutes");
    assert_eq!(format_age((17) * 60 + 0), "17 hours, 0 minutes");
    assert_eq!(format_age((26) * 60 + 0), "1 day, 2 hours, 0 minutes");
    assert_eq!(format_age((24 * 3 + 17) * 60 + 0), "3 days, 17 hours, 0 minutes");
    assert_eq!(format_age((365 * 24 + 3 * 24 + 1) * 60 + 0), "1 year, 3 days, 1 hour, 0 minutes");
    assert_eq!(
        format_age((1000000 * 365 * 24 + 24 + 10) * 60 + 0),
        "1000000 years, 1 day, 10 hours, 0 minutes"
    );
}

use bioengineer::screen::gui::format_units::format_unit;
use bioengineer::world::game_state::get_goal_air_cleaned_str;

#[test]
fn whole_quantities_are_written_with_three_significant_digits() {
    assert_eq!(format_unit(1000, " paperclips"), "1.00 K paperclips");
    assert_eq!(format_unit(0, "W"), "0.00 W");
    assert_eq!(format_unit(10, "W"), "10.0 W");
    assert_eq!(format_unit(999, "W"), "999 W");
    assert_eq!(format_unit(1000, "W"), "1.00 KW");
    assert_eq!(format_unit(1110, "W"), "1.11 KW");
    assert_eq!(format_unit(-1110, "W"), "-1.11 KW");
    assert_eq!(format_unit(10000, "W"), "10.0 KW");
    assert_eq!(format_unit(10100, "W"), "10.1 KW");
    assert_eq!(format_unit(100100, "W"), "100 KW");
    assert_eq!(format_unit(999999, "W"), "999 KW");
    assert_eq!(format_unit(1000000, "W"), "1.00 MW");
    assert_eq!(format_unit(999999999, "W"), "999 MW");
    assert_eq!(format_unit(1000000000, "W"), "1.00 GW");
    assert_eq!(format_unit(999999999999, "W"), "999 GW");
    assert_eq!(format_unit(1000000000000, "W"), "1.00 TW");
    assert_eq!(format_unit(999999999999999, "W"), "999 TW");
    assert_eq!(format_unit(1000000000000000, "W"), "1.00 PW");
    assert_eq!(format_unit(999999999999999935, "W"), "999 PW");
    assert_eq!(format_unit(1000000000000000000, "W"), "1.00 EW");
    assert_eq!(format_unit(i64::MIN, "W"), "-9.22 EW");
    assert_eq!(format_unit(1, "W"), "1.00 W");
    assert_eq!(format_unit(-5, "g"), "-5.00 g");
}

#[test]
fn goal_of_cleaned_air() {
    assert_eq!(get_goal_air_cleaned_str(), "100 KL");
}
