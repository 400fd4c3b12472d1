use datepicker::CalendarError;
use datepicker::date::CalendarDate;
use datepicker::grid::CalendarGrid;
use datepicker::grid::DayCell;
use datepicker::grid::MonthOffset;
use datepicker::grid::build_grid;

fn ymd(year: i32, month: u8, day: u8) -> CalendarDate {
    CalendarDate { year, month, day }
}

fn flat(grid: &CalendarGrid) -> Vec<DayCell> {
    let mut cells = Vec::new();
    for row in &grid.rows {
        assert_eq!(row.cells.len(), 7);
        for cell in &row.cells {
            cells.push(*cell);
        }
    }
    cells
}

fn current_days(grid: &CalendarGrid) -> Vec<u8> {
    flat(grid)
        .iter()
        .filter(|c| c.owning == MonthOffset::Current)
        .map(|c| c.day_number)
        .collect()
}

#[test]
fn leap_february_monday_first() {
    // February 2024: a leap year, 29 days; Feb 1 is a Thursday.
    let grid = build_grid(ymd(2024, 2, 1), 1).unwrap();
    assert_eq!(grid.rows.len(), 5);
    let row0: Vec<(u8, MonthOffset)> =
        grid.rows[0].cells.iter().map(|c| (c.day_number, c.owning)).collect();
    assert_eq!(
        row0,
        vec![
            (29, MonthOffset::Previous),
            (30, MonthOffset::Previous),
            (31, MonthOffset::Previous),
            (1, MonthOffset::Current),
            (2, MonthOffset::Current),
            (3, MonthOffset::Current),
            (4, MonthOffset::Current),
        ]
    );
    assert_eq!(grid.rows[0].cells[0].date, ymd(2024, 1, 29));
    assert_eq!(grid.rows[0].cells[2].date, ymd(2024, 1, 31));
    // The last row spills into March.
    let row4: Vec<(u8, MonthOffset)> =
        grid.rows[4].cells.iter().map(|c| (c.day_number, c.owning)).collect();
    assert_eq!(
        row4,
        vec![
            (26, MonthOffset::Current),
            (27, MonthOffset::Current),
            (28, MonthOffset::Current),
            (29, MonthOffset::Current),
            (1, MonthOffset::Next),
            (2, MonthOffset::Next),
            (3, MonthOffset::Next),
        ]
    );
    assert_eq!(grid.rows[4].cells[4].date, ymd(2024, 3, 1));
    assert_eq!(grid.rows[4].cells[6].date, ymd(2024, 3, 3));
}

#[test]
fn current_days_are_one_to_n() {
    let cases: Vec<(i32, u8, u8, u8)> = vec![
        (2024, 2, 1, 29),
        (2024, 1, 1, 31),
        (2023, 9, 0, 30),
        (2024, 3, 0, 31),
        (2021, 2, 1, 28),
        (1900, 2, 0, 28),
        (2000, 2, 3, 29),
    ];
    for (year, month, ws, n) in cases {
        let grid = build_grid(ymd(year, month, 1), ws).unwrap();
        let days = current_days(&grid);
        let expected: Vec<u8> = (1..=n).collect();
        assert_eq!(days, expected, "year {} month {} ws {}", year, month, ws);
        let rows = grid.rows.len();
        assert!(rows == 4 || rows == 5 || rows == 6);
    }
}

#[test]
fn previous_cells_immediately_precede_the_first() {
    let grid = build_grid(ymd(2024, 2, 1), 1).unwrap();
    let cells = flat(&grid);
    let prev: Vec<&DayCell> =
        cells.iter().filter(|c| c.owning == MonthOffset::Previous).collect();
    // Feb 1 2024 is a Thursday, three columns after Monday.
    assert_eq!(prev.len(), 3);
    assert_eq!(prev[0].date, ymd(2024, 1, 29));
    assert_eq!(prev[1].date, ymd(2024, 1, 30));
    assert_eq!(prev[2].date, ymd(2024, 1, 31));
    // They sit before the current block, nowhere else.
    for (i, c) in cells.iter().enumerate() {
        assert_eq!(c.owning == MonthOffset::Previous, i < 3);
    }
}

#[test]
fn month_starting_on_week_start_has_no_leading_blanks() {
    // Jan 1 2024 is a Monday.
    let grid = build_grid(ymd(2024, 1, 1), 1).unwrap();
    let first = &grid.rows[0].cells[0];
    assert_eq!(first.owning, MonthOffset::Current);
    assert_eq!(first.day_number, 1);
    assert_eq!(grid.rows.len(), 5);
}

#[test]
fn six_row_month_is_not_clipped() {
    // March 2024 starts on a Friday; Sunday-first needs six rows.
    let grid = build_grid(ymd(2024, 3, 1), 0).unwrap();
    assert_eq!(grid.rows.len(), 6);
}

#[test]
fn four_row_month_has_no_padding() {
    // February 2021: 28 days starting on a Monday.
    let grid = build_grid(ymd(2021, 2, 1), 1).unwrap();
    assert_eq!(grid.rows.len(), 4);
    let cells = flat(&grid);
    assert!(cells.iter().all(|c| c.owning == MonthOffset::Current));
}

#[test]
fn reference_day_is_ignored() {
    let a = build_grid(ymd(2024, 2, 1), 1).unwrap();
    let b = build_grid(ymd(2024, 2, 15), 1).unwrap();
    assert_eq!(flat(&a), flat(&b));
}

#[test]
fn invalid_month_is_rejected() {
    assert_eq!(build_grid(ymd(2024, 13, 1), 1).unwrap_err(), CalendarError::InvalidDate);
    assert_eq!(build_grid(ymd(2024, 0, 1), 1).unwrap_err(), CalendarError::InvalidDate);
}

#[test]
fn out_of_range_year_is_rejected() {
    assert_eq!(build_grid(ymd(9999, 6, 1), 1).unwrap_err(), CalendarError::InvalidDate);
    assert_eq!(build_grid(ymd(1, 6, 1), 1).unwrap_err(), CalendarError::InvalidDate);
}

#[test]
fn invalid_week_start_is_rejected() {
    assert_eq!(build_grid(ymd(2024, 2, 1), 7).unwrap_err(), CalendarError::InvalidConfig);
    // A malformed date is reported before a malformed configuration.
    assert_eq!(build_grid(ymd(2024, 13, 1), 7).unwrap_err(), CalendarError::InvalidDate);
}

#[test]
fn cell_dates_are_consecutive() {
    let grid = build_grid(ymd(2024, 12, 1), 0).unwrap();
    let cells = flat(&grid);
    for w in cells.windows(2) {
        let a = w[0].date;
        let b = w[1].date;
        let a_next = datepicker::date::next_date_exec(a);
        assert_eq!(a_next, b);
    }
}
