use datepicker::CalendarError;
use datepicker::date::CalendarDate;
use datepicker::grid::MonthOffset;
use datepicker::state::Datepicker;
use datepicker::state::DatepickerMessage;
use datepicker::state::DatepickerProperties;

fn ymd(year: i32, month: u8, day: u8) -> CalendarDate {
    CalendarDate { year, month, day }
}

fn picker(year: i32, month: u8, day: u8) -> Datepicker {
    Datepicker::create(ymd(year, month, day), DatepickerProperties::default()).unwrap()
}

#[test]
fn create_uses_defaults() {
    let s = picker(2024, 2, 15);
    assert_eq!(s.current_month, ymd(2024, 2, 1));
    assert_eq!(s.selected_date, None);
    assert_eq!(s.week_start, 1);
    assert_eq!(s.locale, "en_US");
}

#[test]
fn create_rejects_bad_inputs() {
    let props = DatepickerProperties { locale: None, week_start: Some(7) };
    assert!(matches!(
        Datepicker::create(ymd(2024, 2, 15), props),
        Err(CalendarError::InvalidConfig)
    ));
    let props = DatepickerProperties { locale: None, week_start: Some(0) };
    assert!(matches!(
        Datepicker::create(ymd(2024, 13, 15), props),
        Err(CalendarError::InvalidDate)
    ));
}

#[test]
fn navigate_rolls_the_year_back() {
    let mut s = picker(2024, 1, 1);
    s.navigate(-1).unwrap();
    assert_eq!(s.current_month, ymd(2023, 12, 1));
}

#[test]
fn navigate_composes_additively() {
    let mut a = picker(2024, 7, 9);
    a.navigate(5).unwrap();
    a.navigate(-7).unwrap();
    let mut b = picker(2024, 7, 9);
    b.navigate(-2).unwrap();
    assert_eq!(a.current_month, b.current_month);

    let mut a = picker(2001, 3, 28);
    a.navigate(-26).unwrap();
    a.navigate(40).unwrap();
    let mut b = picker(2001, 3, 28);
    b.navigate(14).unwrap();
    assert_eq!(a.current_month, b.current_month);
    assert_eq!(a.current_month, ymd(2002, 5, 1));
}

#[test]
fn navigate_does_not_touch_the_selection() {
    let mut s = picker(2024, 2, 15);
    s.select(ymd(2024, 2, 20)).unwrap();
    s.navigate(3).unwrap();
    assert_eq!(s.selected_date, Some(ymd(2024, 2, 20)));
    assert_eq!(s.current_month, ymd(2024, 5, 1));
}

#[test]
fn navigate_out_of_range_changes_nothing() {
    let mut s = picker(9998, 12, 1);
    assert_eq!(s.navigate(1), Err(CalendarError::InvalidDate));
    assert_eq!(s.current_month, ymd(9998, 12, 1));
    let mut s = picker(2, 1, 1);
    assert_eq!(s.navigate(-12), Err(CalendarError::InvalidDate));
    assert_eq!(s.current_month, ymd(2, 1, 1));
}

#[test]
fn select_out_of_view_recenters_the_month() {
    let mut s = picker(2024, 2, 1);
    let notice = s.select(ymd(2024, 3, 15)).unwrap();
    assert_eq!(notice, ymd(2024, 3, 15));
    assert_eq!(s.current_month, ymd(2024, 3, 1));
    assert_eq!(s.selected_date, Some(ymd(2024, 3, 15)));
    // The rebuilt grid marks exactly the selected cell.
    let grid = s.current_grid();
    let mut marked = Vec::new();
    for row in &grid.rows {
        for cell in &row.cells {
            if s.is_selected(cell) {
                marked.push(*cell);
            }
        }
    }
    assert_eq!(marked.len(), 1);
    assert_eq!(marked[0].date, ymd(2024, 3, 15));
    assert_eq!(marked[0].owning, MonthOffset::Current);
}

#[test]
fn select_in_view_keeps_the_month() {
    let mut s = picker(2024, 2, 1);
    s.select(ymd(2024, 2, 29)).unwrap();
    assert_eq!(s.current_month, ymd(2024, 2, 1));
    assert_eq!(s.selected_date, Some(ymd(2024, 2, 29)));
}

#[test]
fn select_rejects_a_nonexistent_day() {
    let mut s = picker(2023, 2, 1);
    assert_eq!(s.select(ymd(2023, 2, 29)), Err(CalendarError::InvalidDate));
    assert_eq!(s.selected_date, None);
    assert_eq!(s.current_month, ymd(2023, 2, 1));
}

#[test]
fn nothing_selected_marks_nothing() {
    let s = picker(2024, 2, 1);
    let grid = s.current_grid();
    for row in &grid.rows {
        for cell in &row.cells {
            assert!(!s.is_selected(cell));
        }
    }
}

#[test]
fn update_handles_both_messages() {
    let mut s = picker(2024, 2, 1);
    let notice = s.update(DatepickerMessage::CurrentMonthChange(ymd(2025, 7, 20))).unwrap();
    assert_eq!(notice, None);
    assert_eq!(s.current_month, ymd(2025, 7, 1));
    assert_eq!(s.selected_date, None);
    let notice = s.update(DatepickerMessage::Select(ymd(2025, 8, 2))).unwrap();
    assert_eq!(notice, Some(ymd(2025, 8, 2)));
    assert_eq!(s.current_month, ymd(2025, 8, 1));
    assert_eq!(s.selected_date, Some(ymd(2025, 8, 2)));
}

#[test]
fn current_week_starts_on_the_week_start() {
    let s = picker(2024, 2, 1);
    // Feb 15 2024 is a Thursday; Monday-first puts it in column 3.
    let week = s.current_week(ymd(2024, 2, 15)).unwrap();
    let expected: Vec<CalendarDate> = (12..=18).map(|d| ymd(2024, 2, d)).collect();
    assert_eq!(week, expected);
}

#[test]
fn current_week_crosses_the_year_start() {
    let props = DatepickerProperties { locale: None, week_start: Some(0) };
    let s = Datepicker::create(ymd(2024, 1, 10), props).unwrap();
    // Jan 1 2024 is a Monday; the Sunday-first week holds Dec 31 2023.
    let week = s.current_week(ymd(2024, 1, 1)).unwrap();
    assert_eq!(week[0], ymd(2023, 12, 31));
    assert_eq!(week[1], ymd(2024, 1, 1));
    assert_eq!(week[6], ymd(2024, 1, 6));
}

#[test]
fn current_week_rejects_a_bad_date() {
    let s = picker(2024, 2, 1);
    assert_eq!(s.current_week(ymd(2024, 2, 30)), Err(CalendarError::InvalidDate));
}
