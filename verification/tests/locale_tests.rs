use datepicker::CalendarError;
use datepicker::date::CalendarDate;
use datepicker::state::Datepicker;
use datepicker::state::DatepickerProperties;

fn ymd(year: i32, month: u8, day: u8) -> CalendarDate {
    CalendarDate { year, month, day }
}

fn picker_with_locale(locale: &str, year: i32, month: u8) -> Datepicker {
    let props =
        DatepickerProperties { locale: Some(locale.to_string()), week_start: Some(1) };
    Datepicker::create(ymd(year, month, 1), props).unwrap()
}

#[test]
fn english_month_name_comes_from_the_formatter() {
    let s = picker_with_locale("en_US", 2024, 2);
    assert_eq!(s.month_label().unwrap(), "February");
    let s = picker_with_locale("en_US", 2023, 12);
    assert_eq!(s.month_label().unwrap(), "December");
}

#[test]
fn russian_month_name_comes_from_the_table() {
    let s = picker_with_locale("ru_RU", 2024, 2);
    assert_eq!(s.month_label().unwrap(), "Февраль");
    let s = picker_with_locale("ru_RU", 2024, 1);
    assert_eq!(s.month_label().unwrap(), "Январь");
    let s = picker_with_locale("ru_RU", 2024, 8);
    assert_eq!(s.month_label().unwrap(), "Август");
}

#[test]
fn english_weekday_labels_follow_the_week_start() {
    let s = picker_with_locale("en_US", 2024, 2);
    let labels = s.weekday_labels().unwrap();
    assert_eq!(labels, vec!["Mon", "Tue", "Wed", "Thu", "Fri", "Sat", "Sun"]);
    let props = DatepickerProperties { locale: Some("en_US".to_string()), week_start: Some(0) };
    let s = Datepicker::create(ymd(2024, 2, 1), props).unwrap();
    let labels = s.weekday_labels().unwrap();
    assert_eq!(labels, vec!["Sun", "Mon", "Tue", "Wed", "Thu", "Fri", "Sat"]);
}

#[test]
fn unknown_locale_is_reported_not_defaulted() {
    let s = picker_with_locale("xx_ZZ", 2024, 2);
    assert_eq!(s.month_label(), Err(CalendarError::UnsupportedLocale));
    assert_eq!(s.weekday_labels(), Err(CalendarError::UnsupportedLocale));
}

#[test]
fn russian_weekday_labels_use_the_formatter() {
    // Weekday names have no table of their own; they come from the
    // locale data even for Russian.
    let s = picker_with_locale("ru_RU", 2024, 2);
    let labels = s.weekday_labels().unwrap();
    assert_eq!(labels.len(), 7);
    assert_ne!(labels[0], "Mon");
}
