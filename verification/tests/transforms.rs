use visor::timedate::{DateVal, TimeVal, StampVal};
use visor::transforms::{apply_transformation_at, apply_transformation, apply_split};

fn noon() -> StampVal {
    StampVal {
        date: DateVal { year: 2024, month: 3, day: 15 },
        time: TimeVal { hour: 12, minute: 0, second: 0 },
    }
}

#[test]
fn date_from_digit_run() {
    assert_eq!(apply_transformation_at("20240315120000", "date", &noon()), "15/03/2024");
}

#[test]
fn date_from_slash_format() {
    assert_eq!(apply_transformation_at("15/03/2024", "date", &noon()), "15/03/2024");
}

#[test]
fn date_from_iso_format() {
    assert_eq!(apply_transformation_at("2024-03-15", "date", &noon()), "15/03/2024");
}

#[test]
fn date_from_dash_and_dot_formats() {
    assert_eq!(apply_transformation_at("15-03-2024", "date", &noon()), "15/03/2024");
    assert_eq!(apply_transformation_at("15.03.2024", "date", &noon()), "15/03/2024");
}

#[test]
fn date_from_two_digit_year() {
    // The four-digit format is tried first and its year field is
    // flexible-width, so a two-digit year reads as the year 24.
    assert_eq!(apply_transformation_at("15/03/24", "date", &noon()), "15/03/0024");
}

#[test]
fn date_empty_falls_back_to_clock() {
    assert_eq!(apply_transformation_at("", "date", &noon()), "15/03/2024");
    assert_eq!(apply_transformation_at("   ", "date", &noon()), "15/03/2024");
}

#[test]
fn date_unreadable_falls_back_to_clock() {
    assert_eq!(apply_transformation_at("not a date", "date", &noon()), "15/03/2024");
}

#[test]
fn date_idempotent_on_concrete_values() {
    let once = apply_transformation_at("2024-03-15", "date", &noon());
    let twice = apply_transformation_at(&once, "date", &noon());
    assert_eq!(once, twice);
}

#[test]
fn heure_cuts_time_out_of_fourteen_digits() {
    assert_eq!(apply_transformation_at("20240315120000", "heure", &noon()), "120000");
}

#[test]
fn heure_pads_twelve_digit_run() {
    assert_eq!(apply_transformation_at("202403151230", "heure", &noon()), "123000");
}

#[test]
fn heure_takes_first_six_digits() {
    assert_eq!(apply_transformation_at("123456", "heure", &noon()), "123456");
}

#[test]
fn heure_pads_four_digits() {
    assert_eq!(apply_transformation_at("1234", "heure", &noon()), "123400");
}

#[test]
fn heure_defaults_to_zeros() {
    assert_eq!(apply_transformation_at("12", "heure", &noon()), "000000");
    assert_eq!(apply_transformation_at("", "heure", &noon()), "000000");
}

#[test]
fn heure_ignores_non_digits() {
    assert_eq!(apply_transformation_at("12:34:56", "heure", &noon()), "123456");
}

#[test]
fn heure_idempotent_on_concrete_values() {
    let once = apply_transformation_at("202403151230", "heure", &noon());
    let twice = apply_transformation_at(&once, "heure", &noon());
    assert_eq!(once, twice);
}

#[test]
fn datetime_from_fourteen_digits() {
    assert_eq!(
        apply_transformation_at("20240315123045", "datetime", &noon()),
        "15/03/2024 12:30:45"
    );
}

#[test]
fn datetime_from_eight_digits_gets_midnight() {
    assert_eq!(
        apply_transformation_at("20240315", "datetime", &noon()),
        "15/03/2024 00:00:00"
    );
}

#[test]
fn datetime_from_formatted_text() {
    assert_eq!(
        apply_transformation_at("15/03/2024 12:30:45", "datetime", &noon()),
        "15/03/2024 12:30:45"
    );
    assert_eq!(
        apply_transformation_at("2024-03-15 12:30", "datetime", &noon()),
        "15/03/2024 12:30:00"
    );
}

#[test]
fn datetime_from_bare_date_text() {
    assert_eq!(
        apply_transformation_at("15/03/2024", "datetime", &noon()),
        "15/03/2024 00:00:00"
    );
}

#[test]
fn datetime_empty_falls_back_to_clock() {
    assert_eq!(apply_transformation_at("", "datetime", &noon()), "15/03/2024 12:00:00");
}

#[test]
fn datetime_idempotent_on_concrete_values() {
    let once = apply_transformation_at("20240315123045", "datetime", &noon());
    let twice = apply_transformation_at(&once, "datetime", &noon());
    assert_eq!(once, twice);
}

#[test]
fn decimal_swaps_comma_and_filters() {
    assert_eq!(apply_transformation_at("10,5", "decimal", &noon()), "10.5");
    assert_eq!(apply_transformation_at("1 234,56", "decimal", &noon()), "1234.56");
    assert_eq!(apply_transformation_at("-3,25 kg", "decimal", &noon()), "-3.25");
    assert_eq!(apply_transformation_at("abc", "decimal", &noon()), "");
}

#[test]
fn decimal_idempotent_on_concrete_values() {
    let once = apply_transformation_at("1 234,56", "decimal", &noon());
    let twice = apply_transformation_at(&once, "decimal", &noon());
    assert_eq!(once, twice);
}

#[test]
fn tinyint_keeps_two_and_collapses_everything_else() {
    assert_eq!(apply_transformation_at("2", "tinyint", &noon()), "2");
    assert_eq!(apply_transformation_at(" 02 ", "tinyint", &noon()), "2");
    assert_eq!(apply_transformation_at("+2", "tinyint", &noon()), "2");
    assert_eq!(apply_transformation_at("3", "tinyint", &noon()), "1");
    assert_eq!(apply_transformation_at("-2", "tinyint", &noon()), "1");
    assert_eq!(apply_transformation_at("x", "tinyint", &noon()), "1");
    assert_eq!(apply_transformation_at("", "tinyint", &noon()), "1");
}

#[test]
fn tinyint_idempotent_on_concrete_values() {
    let once = apply_transformation_at("7", "tinyint", &noon());
    let twice = apply_transformation_at(&once, "tinyint", &noon());
    assert_eq!(once, twice);
}

#[test]
fn current_datetime_reads_the_clock_argument() {
    assert_eq!(
        apply_transformation_at("ignored", "current_datetime", &noon()),
        "15/03/2024 12:00:00"
    );
}

#[test]
fn datetime_combine_joins_date_and_time() {
    assert_eq!(
        apply_transformation_at("15/03/2024;12:30:45", "datetime_combine", &noon()),
        "15/03/2024 12:30:45"
    );
}

#[test]
fn datetime_combine_accepts_dotted_time() {
    assert_eq!(
        apply_transformation_at("2024-03-15;12.30.45", "datetime_combine", &noon()),
        "15/03/2024 12:30:45"
    );
}

#[test]
fn datetime_combine_without_second_part_falls_back() {
    assert_eq!(
        apply_transformation_at("15/03/2024", "datetime_combine", &noon()),
        "15/03/2024 12:00:00"
    );
}

#[test]
fn unknown_tag_is_identity() {
    assert_eq!(apply_transformation_at("as is", "unknown", &noon()), "as is");
    assert_eq!(apply_transformation_at("as is", "", &noon()), "as is");
}

#[test]
fn clocked_entry_point_matches_deterministic_tags() {
    assert_eq!(apply_transformation("10,5".to_string(), "decimal"), "10.5");
    assert_eq!(apply_transformation("1234".to_string(), "heure"), "123400");
    assert_eq!(apply_transformation("2".to_string(), "tinyint"), "2");
}

#[test]
fn split_cuts_at_first_plus() {
    assert_eq!(apply_split("ABC123+XYZ789", "before"), "ABC123");
    assert_eq!(apply_split("ABC123+XYZ789", "after"), "XYZ789");
}

#[test]
fn split_without_plus() {
    assert_eq!(apply_split("ABC123", "before"), "ABC123");
    assert_eq!(apply_split("ABC123", "after"), "");
}

#[test]
fn split_trims_and_truncates_to_ten() {
    assert_eq!(apply_split(" ABCDEFGHIJKLM + Z", "before"), "ABCDEFGHIJ");
    assert_eq!(apply_split("A+ 0123456789XYZ ", "after"), "0123456789");
}
