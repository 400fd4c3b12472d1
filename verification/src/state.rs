//! The datepicker's state machine: the visible month and the selected
//! date, driven by navigation and selection events.

use vstd::prelude::*;

use crate::CalendarError;
use crate::date::CalendarDate;
use crate::date::MAX_YEAR;
use crate::date::MIN_YEAR;
use crate::date::first_of_month;
use crate::date::is_valid_date;
use crate::date::lemma_day_index_prev;
use crate::date::lemma_shift_additive;
use crate::date::month_in_range;
use crate::date::next_date;
use crate::date::next_date_exec;
use crate::date::plus_days;
use crate::date::prev_date_exec;
use crate::date::day_index;
use crate::date::shift_months;
use crate::date::shifted_month;
use crate::date::shifted_year;
use crate::date::valid_date;
use crate::date::weekday_of;
use crate::date::weekday_of_exec;
use crate::grid::CalendarGrid;
use crate::grid::DayCell;
use crate::grid::build_grid;
use crate::grid::cell_date;
use crate::grid::leading_blanks;
use crate::grid::lemma_cell_dates_distinct;
use crate::grid::lemma_grid_dims;
use crate::grid::ref_month_days;
use crate::grid::spec_cell;
use crate::grid::spec_grid;
use crate::grid::total_cells;
use crate::locale::chrono_month_name;
use crate::locale::chrono_weekday_name;
use crate::locale::locale_recognized;
use crate::locale::month_name_of;
use crate::locale::month_name_ru;
use crate::locale::russian_month_name;
use crate::locale::weekday_name_of;

verus! {

/// The widget's state: the month on display (normalized to day 1), the
/// locale, the weekday of the grid's first column, and the selection.
pub struct Datepicker {
    pub current_month: CalendarDate,
    pub locale: String,
    pub week_start: u8,
    pub selected_date: Option<CalendarDate>,
}

/// The two events a host can send: jump the display to a month, or
/// select a date.
pub enum DatepickerMessage {
    CurrentMonthChange(CalendarDate),
    Select(CalendarDate),
}

/// Construction-time configuration: a locale identifier and an optional
/// override of the week-start weekday.
pub struct DatepickerProperties {
    pub locale: Option<String>,
    pub week_start: Option<u8>,
}

impl Default for DatepickerProperties {
    /// The default configuration: United States English, no week-start
    /// override.
    fn default() -> (r: Self)
        ensures
            r.locale is Some && r.locale->0@ == "en_US"@,
            r.week_start is None,
    {
        DatepickerProperties { locale: Some("en_US".to_string()), week_start: None }
    }
}

impl Datepicker {
    /// A well-formed state: the visible month is the first day of a
    /// month a grid can be built for, and the week start is a weekday.
    pub open spec fn wf(self) -> bool {
        &&& month_in_range(self.current_month)
        &&& self.current_month.day == 1
        &&& self.week_start <= 6
    }

    /// Whether a cell shows the selected date.
    pub open spec fn spec_is_selected(self, cell: DayCell) -> bool {
        self.selected_date is Some && self.selected_date->0 == cell.date
    }

    /// Creates the state: the visible month is the first day of `now`'s
    /// month, nothing is selected, and a missing locale or week start
    /// falls back to `en_US` and Monday. Rejects a month out of range
    /// with `InvalidDate` and a week start above 6 with `InvalidConfig`.
    pub fn create(now: CalendarDate, props: DatepickerProperties) -> (r: Result<
        Datepicker,
        CalendarError,
    >)
        ensures
            r is Ok <==> month_in_range(now) && (props.week_start is Some
                ==> props.week_start->0 <= 6),
            r is Ok ==> ({
                let s = r->Ok_0;
                &&& s.current_month == first_of_month(now)
                &&& s.selected_date is None
                &&& s.week_start as int == (if props.week_start is Some {
                    props.week_start->0 as int
                } else {
                    1int
                })
                &&& s.locale@ == (if props.locale is Some {
                    props.locale->0@
                } else {
                    "en_US"@
                })
                &&& s.wf()
            }),
            !month_in_range(now) ==> r == Err::<Datepicker, CalendarError>(
                CalendarError::InvalidDate,
            ),
            month_in_range(now) && props.week_start is Some && props.week_start->0 > 6 ==> r
                == Err::<Datepicker, CalendarError>(CalendarError::InvalidConfig),
    {
        if !(now.month >= 1 && now.month <= 12 && now.year > MIN_YEAR && now.year < MAX_YEAR) {
            return Err(CalendarError::InvalidDate);
        }
        let week_start: u8 = match props.week_start {
            Some(ws) => ws,
            None => 1,
        };
        if week_start > 6 {
            return Err(CalendarError::InvalidConfig);
        }
        let locale: String = match props.locale {
            Some(l) => l,
            None => "en_US".to_string(),
        };
        Ok(
            Datepicker {
                current_month: CalendarDate { year: now.year, month: now.month, day: 1 },
                locale,
                week_start,
                selected_date: None,
            },
        )
    }

    /// Shifts the visible month by `delta` whole months, leaving the
    /// selection untouched; `InvalidDate` exactly when the target month
    /// leaves the representable range, in which case nothing changes.
    pub fn navigate(&mut self, delta: i32) -> (r: Result<(), CalendarError>)
        requires
            old(self).wf(),
        ensures
            final(self).wf(),
            r is Ok <==> MIN_YEAR < shifted_year(
                old(self).current_month.year as int,
                old(self).current_month.month as int,
                delta as int,
            ) < MAX_YEAR,
            r is Ok ==> final(self).current_month == (CalendarDate {
                year: shifted_year(
                    old(self).current_month.year as int,
                    old(self).current_month.month as int,
                    delta as int,
                ) as i32,
                month: shifted_month(
                    old(self).current_month.year as int,
                    old(self).current_month.month as int,
                    delta as int,
                ) as u8,
                day: 1,
            }),
            final(self).selected_date == old(self).selected_date,
            final(self).locale == old(self).locale,
            final(self).week_start == old(self).week_start,
            r is Err ==> *final(self) == *old(self) && r == Err::<(), CalendarError>(
                CalendarError::InvalidDate,
            ),
    {
        match shift_months(self.current_month, delta) {
            Some(d) => {
                if d.year > MIN_YEAR && d.year < MAX_YEAR {
                    self.current_month = d;
                    Ok(())
                } else {
                    Err(CalendarError::InvalidDate)
                }
            },
            None => Err(CalendarError::InvalidDate),
        }
    }

    /// Selects a date and returns it as the notification for the host.
    /// If the date lies outside the visible month, the display jumps to
    /// the first day of the date's month; `InvalidDate` exactly when the
    /// date is malformed or out of range, in which case nothing changes.
    pub fn select(&mut self, date: CalendarDate) -> (r: Result<CalendarDate, CalendarError>)
        requires
            old(self).wf(),
        ensures
            final(self).wf(),
            r is Ok <==> valid_date(date) && month_in_range(date),
            r is Ok ==> r->Ok_0 == date,
            r is Ok ==> final(self).selected_date == Some(date),
            r is Ok ==> final(self).current_month == (if date.year
                == old(self).current_month.year && date.month == old(self).current_month.month {
                old(self).current_month
            } else {
                first_of_month(date)
            }),
            final(self).locale == old(self).locale,
            final(self).week_start == old(self).week_start,
            r is Err ==> *final(self) == *old(self) && r == Err::<CalendarDate, CalendarError>(
                CalendarError::InvalidDate,
            ),
    {
        if !(is_valid_date(date) && date.year > MIN_YEAR && date.year < MAX_YEAR) {
            return Err(CalendarError::InvalidDate);
        }
        self.selected_date = Some(date);
        let same_month = date.year == self.current_month.year && date.month
            == self.current_month.month;
        if !same_month {
            self.current_month = CalendarDate { year: date.year, month: date.month, day: 1 };
        }
        Ok(date)
    }

    /// Applies a host event and returns the notification it raises:
    /// selecting reports the selected date, jumping months reports
    /// nothing.
    pub fn update(&mut self, msg: DatepickerMessage) -> (r: Result<
        Option<CalendarDate>,
        CalendarError,
    >)
        requires
            old(self).wf(),
        ensures
            final(self).wf(),
            final(self).locale == old(self).locale,
            final(self).week_start == old(self).week_start,
            match msg {
                DatepickerMessage::CurrentMonthChange(d) => {
                    &&& (r is Ok <==> month_in_range(d))
                    &&& r is Ok ==> r->Ok_0 is None && final(self).current_month
                        == first_of_month(d) && final(self).selected_date
                        == old(self).selected_date
                    &&& r is Err ==> *final(self) == *old(self) && r == Err::<
                        Option<CalendarDate>,
                        CalendarError,
                    >(CalendarError::InvalidDate)
                },
                DatepickerMessage::Select(d) => {
                    &&& (r is Ok <==> valid_date(d) && month_in_range(d))
                    &&& r is Ok ==> r->Ok_0 == Some(d) && final(self).selected_date == Some(d)
                        && final(self).current_month == (if d.year
                        == old(self).current_month.year && d.month
                        == old(self).current_month.month {
                        old(self).current_month
                    } else {
                        first_of_month(d)
                    })
                    &&& r is Err ==> *final(self) == *old(self) && r == Err::<
                        Option<CalendarDate>,
                        CalendarError,
                    >(CalendarError::InvalidDate)
                },
            },
    {
        match msg {
            DatepickerMessage::CurrentMonthChange(d) => {
                if !(d.month >= 1 && d.month <= 12 && d.year > MIN_YEAR && d.year < MAX_YEAR) {
                    return Err(CalendarError::InvalidDate);
                }
                self.current_month = CalendarDate { year: d.year, month: d.month, day: 1 };
                Ok(None)
            },
            DatepickerMessage::Select(d) => {
                match self.select(d) {
                    Ok(picked) => Ok(Some(picked)),
                    Err(e) => Err(e),
                }
            },
        }
    }

    /// The grid of the visible month, pinned cell by cell by `spec_grid`.
    pub fn current_grid(&self) -> (g: CalendarGrid)
        requires
            self.wf(),
        ensures
            g@ == spec_grid(self.current_month, self.week_start as int),
    {
        match build_grid(self.current_month, self.week_start) {
            Ok(g) => g,
            Err(_) => {
                proof {
                    assert(false);
                }
                CalendarGrid { rows: Vec::new() }
            },
        }
    }

    /// Whether the cell shows the selected date.
    pub fn is_selected(&self, cell: &DayCell) -> (r: bool)
        ensures
            r == self.spec_is_selected(*cell),
    {
        match self.selected_date {
            None => false,
            Some(s) => s == cell.date,
        }
    }

    /// The visible month's name: from the library's Russian table for
    /// `ru_RU`, otherwise from the locale's own data; `UnsupportedLocale`
    /// exactly when neither knows the locale.
    pub fn month_label(&self) -> (r: Result<String, CalendarError>)
        requires
            self.wf(),
        ensures
            self.locale@ == "ru_RU"@ ==> r is Ok && r->Ok_0@ == month_name_ru(
                self.current_month.month as int,
            ),
            self.locale@ != "ru_RU"@ ==> {
                &&& (r is Ok <==> locale_recognized(self.locale@))
                &&& (r is Ok ==> r->Ok_0@ == month_name_of(
                    self.locale@,
                    self.current_month.month as int,
                ))
                &&& (r is Err ==> r == Err::<String, CalendarError>(
                    CalendarError::UnsupportedLocale,
                ))
            },
    {
        let ru: String = "ru_RU".to_string();
        if self.locale == ru {
            Ok(russian_month_name(self.current_month.month))
        } else {
            match chrono_month_name(self.current_month.month, self.locale.as_str()) {
                Some(s) => Ok(s),
                None => Err(CalendarError::UnsupportedLocale),
            }
        }
    }

    /// The seven weekday names heading the grid's columns, starting at
    /// the configured week start; `UnsupportedLocale` exactly when the
    /// locale's data is missing.
    pub fn weekday_labels(&self) -> (r: Result<Vec<String>, CalendarError>)
        requires
            self.wf(),
        ensures
            r is Ok <==> locale_recognized(self.locale@),
            r is Ok ==> r->Ok_0@.len() == 7 && forall|i: int|
                0 <= i < 7 ==> (#[trigger] r->Ok_0@[i])@ == weekday_name_of(
                    self.locale@,
                    (self.week_start as int + i) % 7,
                ),
            r is Err ==> r == Err::<Vec<String>, CalendarError>(CalendarError::UnsupportedLocale),
    {
        let mut out: Vec<String> = Vec::new();
        let mut i: u8 = 0;
        while i < 7
            invariant
                i <= 7,
                self.wf(),
                out@.len() == i as int,
                i > 0 ==> locale_recognized(self.locale@),
                forall|t: int|
                    0 <= t < i as int ==> (#[trigger] out@[t])@ == weekday_name_of(
                        self.locale@,
                        (self.week_start as int + t) % 7,
                    ),
            decreases 7 - i as int,
        {
            let wd: u8 = (self.week_start + i) % 7;
            match chrono_weekday_name(wd, self.locale.as_str()) {
                Some(s) => out.push(s),
                None => {
                    return Err(CalendarError::UnsupportedLocale);
                },
            }
            i = i + 1;
        }
        Ok(out)
    }

    /// The seven days of the week that contains `today`, starting at the
    /// configured week start: consecutive dates, the first on the
    /// week-start weekday, with `today` in its weekday's column;
    /// `InvalidDate` exactly when `today` is malformed or out of range.
    pub fn current_week(&self, today: CalendarDate) -> (r: Result<Vec<CalendarDate>, CalendarError>)
        requires
            self.wf(),
        ensures
            r is Ok <==> valid_date(today) && month_in_range(today),
            r is Ok ==> ({
                let week = r->Ok_0@;
                &&& week.len() == 7
                &&& forall|i: int| 0 <= i < 7 ==> valid_date(#[trigger] week[i])
                &&& weekday_of(week[0]) == self.week_start as int
                &&& forall|i: int| 0 <= i < 6 ==> week[i + 1] == next_date(#[trigger] week[i])
                &&& week[(weekday_of(today) + 7 - self.week_start as int) % 7] == today
            }),
            r is Err ==> r == Err::<Vec<CalendarDate>, CalendarError>(CalendarError::InvalidDate),
    {
        if !(is_valid_date(today) && today.year > MIN_YEAR && today.year < MAX_YEAR) {
            return Err(CalendarError::InvalidDate);
        }
        let wd: u8 = weekday_of_exec(today);
        let k: u8 = (wd + 7 - self.week_start) % 7;
        let mut cur: CalendarDate = today;
        let mut t: u8 = 0;
        while t < k
            invariant
                t <= k,
                k <= 6,
                valid_date(cur),
                valid_date(today),
                month_in_range(today),
                day_index(cur) == day_index(today) - t as int,
                plus_days(cur, t as nat) == today,
                cur.year <= today.year,
                cur.year == MIN_YEAR ==> cur.month == 12 && cur.day as int >= 31 - t as int,
            decreases k as int - t as int,
        {
            proof {
                lemma_day_index_prev(cur);
            }
            let prev = prev_date_exec(cur);
            assert(plus_days(prev, (t + 1) as nat) == plus_days(cur, t as nat));
            cur = prev;
            t = t + 1;
        }
        let ghost start = cur;
        let mut week: Vec<CalendarDate> = Vec::new();
        let mut cur2: CalendarDate = cur;
        let mut i: u8 = 0;
        while i < 7
            invariant
                i <= 7,
                k <= 6,
                valid_date(cur2),
                valid_date(today),
                month_in_range(today),
                week@.len() == i as int,
                forall|b: int| 0 <= b < i as int ==> valid_date(#[trigger] week@[b]),
                forall|b: int| 0 <= b < i as int - 1 ==> week@[b + 1] == next_date(week@[b]),
                0 < i < 7 ==> cur2 == next_date(week@[i as int - 1]),
                i == 0 ==> cur2 == start,
                i > 0 ==> week@[0] == start,
                day_index(start) == day_index(today) - k as int,
                i as int <= k as int ==> plus_days(cur2, (k - i) as nat) == today,
                i as int > k as int ==> week@[k as int] == today,
                cur2.year == MAX_YEAR ==> cur2.month == 1 && cur2.day as int <= 1 + i as int,
            decreases 7 - i as int,
        {
            week.push(cur2);
            if i < 6 {
                cur2 = next_date_exec(cur2);
            }
            i = i + 1;
        }
        proof {
            let a = day_index(today) + 1;
            let ws = self.week_start as int;
            vstd::arithmetic::div_mod::lemma_fundamental_div_mod(a, 7);
            vstd::arithmetic::div_mod::lemma_fundamental_div_mod(wd as int + 7 - ws, 7);
            let kq = (wd as int + 7 - ws) / 7;
            assert(a - k as int == 7 * (a / 7 - 1 + kq) + ws);
            vstd::arithmetic::div_mod::lemma_fundamental_div_mod_converse_mod(
                a - k as int,
                7,
                a / 7 - 1 + kq,
                ws,
            );
            assert(weekday_of(week@[0]) == ws);
        }
        Ok(week)
    }
}

/// Navigating by `d1` months and then by `d2` shows the same visible
/// month as navigating once by `d1 + d2`, for any integers `d1`, `d2`:
/// `navigate`'s contract lands the visible month on `shifted_year` and
/// `shifted_month`, and those compose additively.
pub proof fn lemma_navigate_additive(s: Datepicker, d1: int, d2: int)
    requires
        s.wf(),
    ensures
        ({
            let y = s.current_month.year as int;
            let m = s.current_month.month as int;
            let y1 = shifted_year(y, m, d1);
            let m1 = shifted_month(y, m, d1);
            &&& shifted_year(y1, m1, d2) == shifted_year(y, m, d1 + d2)
            &&& shifted_month(y1, m1, d2) == shifted_month(y, m, d1 + d2)
        }),
{
    lemma_shift_additive(s.current_month.year as int, s.current_month.month as int, d1, d2);
}

/// After a successful selection the selected date is shown: in the grid
/// of the month now on display there is exactly one cell whose date is
/// the selected one, and `is_selected` holds of a cell exactly there —
/// at the column of the date's day within the current-month block.
pub proof fn lemma_selection_focused(s: Datepicker, date: CalendarDate)
    requires
        s.wf(),
        s.selected_date == Some(date),
        s.current_month == first_of_month(date),
        valid_date(date),
    ensures
        ({
            let ws = s.week_start as int;
            let k = leading_blanks(s.current_month, ws) + date.day - 1;
            &&& 0 <= k < total_cells(s.current_month, ws)
            &&& cell_date(s.current_month, ws, k) == date
            &&& forall|i: int|
                0 <= i < total_cells(s.current_month, ws) ==> (s.spec_is_selected(
                    #[trigger] spec_cell(s.current_month, ws, i),
                ) <==> i == k)
        }),
{
    lemma_grid_dims(s.current_month, s.week_start as int);
    lemma_cell_dates_distinct(s.current_month, s.week_start as int);
    assert(ref_month_days(s.current_month) == crate::date::days_in_month(
        date.year as int,
        date.month as int,
    ));
}

} // verus!
