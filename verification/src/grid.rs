//! The calendar grid: a reference month turned into whole weeks of day
//! cells, padded with real adjacent-month days.

use vstd::prelude::*;

use crate::CalendarError;
use crate::date::CalendarDate;
use crate::date::MAX_YEAR;
use crate::date::MIN_YEAR;
use crate::date::days_in_month;
use crate::date::days_in_month_exec;
use crate::date::first_of_month;
use crate::date::month_in_range;
use crate::date::next_month_month;
use crate::date::next_month_year;
use crate::date::prev_month_month;
use crate::date::prev_month_year;
use crate::date::weekday_of;
use crate::date::weekday_of_exec;

verus! {

/// Which month a grid cell's day belongs to, relative to the reference month.
#[derive(Clone, Copy, Debug, PartialEq, Eq, Structural)]
pub enum MonthOffset {
    Previous,
    Current,
    Next,
}

/// One cell of the grid: a day number, the month it belongs to, and the
/// fully resolved date it stands for.
#[derive(Clone, Copy, Debug, PartialEq, Eq, Structural)]
pub struct DayCell {
    pub day_number: u8,
    pub owning: MonthOffset,
    pub date: CalendarDate,
}

/// One week of the grid: exactly seven cells, column 0 holding the
/// configured week-start weekday.
#[derive(Debug)]
pub struct WeekRow {
    pub cells: Vec<DayCell>,
}

impl View for WeekRow {
    type V = Seq<DayCell>;

    open spec fn view(&self) -> Seq<DayCell> {
        self.cells@
    }
}

/// The whole grid: four to six week rows.
#[derive(Debug)]
pub struct CalendarGrid {
    pub rows: Vec<WeekRow>,
}

impl View for CalendarGrid {
    type V = Seq<Seq<DayCell>>;

    open spec fn view(&self) -> Seq<Seq<DayCell>> {
        self.rows@.map_values(|w: WeekRow| w@)
    }
}

/// Cells before day 1 in its row: the distance, in columns, from the
/// week-start weekday to the weekday of the first of the month.
pub open spec fn leading_blanks(refm: CalendarDate, ws: int) -> int {
    (weekday_of(first_of_month(refm)) + 7 - ws) % 7
}

/// Day count of the reference month.
pub open spec fn ref_month_days(refm: CalendarDate) -> int {
    days_in_month(refm.year as int, refm.month as int)
}

/// Cells after the last day of the month, filling its row to seven.
pub open spec fn trailing_blanks(refm: CalendarDate, ws: int) -> int {
    (7 - (leading_blanks(refm, ws) + ref_month_days(refm)) % 7) % 7
}

/// Total number of cells in the grid.
pub open spec fn total_cells(refm: CalendarDate, ws: int) -> int {
    leading_blanks(refm, ws) + ref_month_days(refm) + trailing_blanks(refm, ws)
}

/// The date of cell `i` of the flat, row-major cell sequence: the
/// leading cells walk backward from the day before the first of the
/// month, then days 1..=N of the reference month, then the trailing
/// cells walk forward from the day after its last day.
pub open spec fn cell_date(refm: CalendarDate, ws: int, i: int) -> CalendarDate {
    let y = refm.year as int;
    let m = refm.month as int;
    let lead = leading_blanks(refm, ws);
    let dim = ref_month_days(refm);
    if i < lead {
        let py = prev_month_year(y, m);
        let pm = prev_month_month(y, m);
        CalendarDate {
            year: py as i32,
            month: pm as u8,
            day: (days_in_month(py, pm) - lead + 1 + i) as u8,
        }
    } else if i < lead + dim {
        CalendarDate { year: y as i32, month: m as u8, day: (i - lead + 1) as u8 }
    } else {
        CalendarDate {
            year: next_month_year(y, m) as i32,
            month: next_month_month(y, m) as u8,
            day: (i - lead - dim + 1) as u8,
        }
    }
}

/// Which month cell `i` belongs to.
pub open spec fn cell_owner(refm: CalendarDate, ws: int, i: int) -> MonthOffset {
    let lead = leading_blanks(refm, ws);
    let dim = ref_month_days(refm);
    if i < lead {
        MonthOffset::Previous
    } else if i < lead + dim {
        MonthOffset::Current
    } else {
        MonthOffset::Next
    }
}

/// Cell `i` of the flat cell sequence.
pub open spec fn spec_cell(refm: CalendarDate, ws: int, i: int) -> DayCell {
    DayCell {
        day_number: cell_date(refm, ws, i).day,
        owning: cell_owner(refm, ws, i),
        date: cell_date(refm, ws, i),
    }
}

/// The flat, row-major cell sequence of the grid.
pub open spec fn grid_cells(refm: CalendarDate, ws: int) -> Seq<DayCell> {
    Seq::new(total_cells(refm, ws) as nat, |i: int| spec_cell(refm, ws, i))
}

/// The grid as a sequence of seven-cell rows.
pub open spec fn spec_grid(refm: CalendarDate, ws: int) -> Seq<Seq<DayCell>> {
    Seq::new(
        (total_cells(refm, ws) / 7) as nat,
        |r: int| Seq::new(7, |c: int| spec_cell(refm, ws, 7 * r + c)),
    )
}

/// The grid's dimensions: the padding stays under a week on both sides,
/// the cell count is a whole number of weeks, and there are 4 to 6 rows.
pub proof fn lemma_grid_dims(refm: CalendarDate, ws: int)
    requires
        month_in_range(refm),
        0 <= ws <= 6,
    ensures
        0 <= leading_blanks(refm, ws) < 7,
        28 <= ref_month_days(refm) <= 31,
        0 <= trailing_blanks(refm, ws) < 7,
        total_cells(refm, ws) % 7 == 0,
        total_cells(refm, ws) == 7 * (total_cells(refm, ws) / 7),
        4 <= total_cells(refm, ws) / 7 <= 6,
{
    let lead = leading_blanks(refm, ws);
    let dim = ref_month_days(refm);
    let wd = weekday_of(first_of_month(refm));
    vstd::arithmetic::div_mod::lemma_mod_bound(wd + 7 - ws, 7);
    let s = lead + dim;
    vstd::arithmetic::div_mod::lemma_fundamental_div_mod(s, 7);
    vstd::arithmetic::div_mod::lemma_mod_bound(s, 7);
    let r = s % 7;
    let trail = trailing_blanks(refm, ws);
    if r == 0 {
        vstd::arithmetic::div_mod::lemma_mod_multiples_basic(1, 7);
        assert(trail == 0);
    } else {
        vstd::arithmetic::div_mod::lemma_small_mod((7 - r) as nat, 7);
        assert(trail == 7 - r);
    }
    let total = total_cells(refm, ws);
    let q = if r == 0 {
        s / 7
    } else {
        s / 7 + 1
    };
    assert(total == 7 * q);
    vstd::arithmetic::div_mod::lemma_fundamental_div_mod_converse_div(total, 7, q, 0);
    vstd::arithmetic::div_mod::lemma_fundamental_div_mod_converse_mod(total, 7, q, 0);
}

/// Every cell of the grid stands for a well-formed date, and walking the
/// flat cell sequence left to right, top to bottom steps through
/// consecutive calendar days with none skipped and none repeated.
pub proof fn lemma_grid_contiguous(refm: CalendarDate, ws: int)
    requires
        month_in_range(refm),
        0 <= ws <= 6,
    ensures
        forall|i: int|
            0 <= i < total_cells(refm, ws) ==> crate::date::valid_date(
                #[trigger] cell_date(refm, ws, i),
            ),
        forall|i: int|
            0 <= i < total_cells(refm, ws) - 1 ==> cell_date(refm, ws, i + 1) == crate::date::next_date(
                #[trigger] cell_date(refm, ws, i),
            ),
{
    lemma_grid_dims(refm, ws);
}

/// The cells' dates are pairwise distinct: no calendar day appears in
/// two cells of one grid.
pub proof fn lemma_cell_dates_distinct(refm: CalendarDate, ws: int)
    requires
        month_in_range(refm),
        0 <= ws <= 6,
    ensures
        forall|i: int, j: int|
            0 <= i < total_cells(refm, ws) && 0 <= j < total_cells(refm, ws) && i != j
                ==> #[trigger] cell_date(refm, ws, i) != #[trigger] cell_date(refm, ws, j),
{
    lemma_grid_dims(refm, ws);
}

/// The cells owned by the reference month are exactly the block that
/// follows the leading cells, and their day numbers, read in row-major
/// order, are 1..=N for an N-day month: increasing, no gaps, no repeats.
pub proof fn lemma_current_days(refm: CalendarDate, ws: int)
    requires
        month_in_range(refm),
        0 <= ws <= 6,
    ensures
        forall|i: int|
            0 <= i < total_cells(refm, ws) ==> ((#[trigger] cell_owner(refm, ws, i))
                == MonthOffset::Current <==> leading_blanks(refm, ws) <= i < leading_blanks(
                refm,
                ws,
            ) + ref_month_days(refm)),
        forall|i: int|
            leading_blanks(refm, ws) <= i < leading_blanks(refm, ws) + ref_month_days(refm)
                ==> #[trigger] cell_date(refm, ws, i) == (CalendarDate {
                year: refm.year,
                month: refm.month,
                day: (i - leading_blanks(refm, ws) + 1) as u8,
            }) && spec_cell(refm, ws, i).day_number == i - leading_blanks(refm, ws) + 1,
{
    lemma_grid_dims(refm, ws);
}

/// The cells owned by the previous month are exactly the first
/// `leading_blanks` cells; their dates are the days immediately before
/// the first of the reference month, in increasing order, the last one
/// a single day before it. Symmetrically, the cells owned by the next
/// month come strictly after the last day of the reference month, the
/// first of them a single day after it.
pub proof fn lemma_adjacent_cells(refm: CalendarDate, ws: int)
    requires
        month_in_range(refm),
        0 <= ws <= 6,
    ensures
        forall|i: int|
            0 <= i < total_cells(refm, ws) ==> ((#[trigger] cell_owner(refm, ws, i))
                == MonthOffset::Previous <==> i < leading_blanks(refm, ws)),
        forall|i: int|
            0 <= i < leading_blanks(refm, ws) ==> crate::date::date_lt(
                #[trigger] cell_date(refm, ws, i),
                first_of_month(refm),
            ),
        leading_blanks(refm, ws) > 0 ==> crate::date::next_date(
            cell_date(refm, ws, leading_blanks(refm, ws) - 1),
        ) == first_of_month(refm),
        forall|i: int|
            leading_blanks(refm, ws) + ref_month_days(refm) <= i < total_cells(refm, ws)
                ==> crate::date::date_lt(
                CalendarDate { year: refm.year, month: refm.month, day: ref_month_days(refm) as u8 },
                #[trigger] cell_date(refm, ws, i),
            ),
        trailing_blanks(refm, ws) > 0 ==> cell_date(
            refm,
            ws,
            leading_blanks(refm, ws) + ref_month_days(refm),
        ) == crate::date::next_date(
            CalendarDate { year: refm.year, month: refm.month, day: ref_month_days(refm) as u8 },
        ),
{
    lemma_grid_dims(refm, ws);
}

/// Builds the grid for a reference month (its day field is ignored) and a
/// week-start weekday (0 = Sunday .. 6 = Saturday). The result is pinned
/// cell by cell: row `r`, column `c` holds `spec_cell` at flat index
/// `7 * r + c`.
#[verifier::loop_isolation(false)]
pub fn build_grid(reference: CalendarDate, week_start: u8) -> (r: Result<
    CalendarGrid,
    CalendarError,
>)
    ensures
        r is Ok <==> month_in_range(reference) && week_start <= 6,
        r is Ok ==> r->Ok_0@ == spec_grid(reference, week_start as int),
        !month_in_range(reference) ==> r == Err::<CalendarGrid, CalendarError>(
            CalendarError::InvalidDate,
        ),
        month_in_range(reference) && week_start > 6 ==> r == Err::<CalendarGrid, CalendarError>(
            CalendarError::InvalidConfig,
        ),
{
    if !(reference.month >= 1 && reference.month <= 12 && reference.year > MIN_YEAR
        && reference.year < MAX_YEAR) {
        return Err(CalendarError::InvalidDate);
    }
    if week_start > 6 {
        return Err(CalendarError::InvalidConfig);
    }
    proof {
        lemma_grid_dims(reference, week_start as int);
    }
    let ghost ws = week_start as int;
    let y: i32 = reference.year;
    let m: u8 = reference.month;
    let first = CalendarDate { year: y, month: m, day: 1 };
    let wd: u8 = weekday_of_exec(first);
    let lead: u8 = (wd + 7 - week_start) % 7;
    let dim: u8 = days_in_month_exec(y, m);
    let py: i32 = if m == 1 {
        y - 1
    } else {
        y
    };
    let pm: u8 = if m == 1 {
        12
    } else {
        m - 1
    };
    let pdim: u8 = days_in_month_exec(py, pm);
    let ny: i32 = if m == 12 {
        y + 1
    } else {
        y
    };
    let nm: u8 = if m == 12 {
        1
    } else {
        m + 1
    };
    let s: u8 = lead + dim;
    let trail: u8 = (7 - s % 7) % 7;
    let total: u8 = s + trail;
    assert(lead as int == leading_blanks(reference, ws));
    assert(trail as int == trailing_blanks(reference, ws));
    assert(total as int == total_cells(reference, ws));

    let mut cells: Vec<DayCell> = Vec::new();
    let mut i: u8 = 0;
    while i < lead
        invariant
            i <= lead,
            cells@.len() == i as int,
            forall|t: int| 0 <= t < i as int ==> cells@[t] == spec_cell(reference, ws, t),
        decreases lead as int - i as int,
    {
        let day: u8 = pdim - lead + 1 + i;
        cells.push(DayCell {
            day_number: day,
            owning: MonthOffset::Previous,
            date: CalendarDate { year: py, month: pm, day },
        });
        i = i + 1;
    }
    let mut dnum: u8 = 1;
    while dnum <= dim
        invariant
            1 <= dnum <= dim + 1,
            cells@.len() == lead as int + dnum as int - 1,
            forall|t: int| 0 <= t < cells@.len() ==> cells@[t] == spec_cell(reference, ws, t),
        decreases dim as int + 1 - dnum as int,
    {
        cells.push(DayCell {
            day_number: dnum,
            owning: MonthOffset::Current,
            date: CalendarDate { year: y, month: m, day: dnum },
        });
        dnum = dnum + 1;
    }
    let mut j: u8 = 0;
    while j < trail
        invariant
            j <= trail,
            cells@.len() == lead as int + dim as int + j as int,
            forall|t: int| 0 <= t < cells@.len() ==> cells@[t] == spec_cell(reference, ws, t),
        decreases trail as int - j as int,
    {
        let day: u8 = j + 1;
        cells.push(DayCell {
            day_number: day,
            owning: MonthOffset::Next,
            date: CalendarDate { year: ny, month: nm, day },
        });
        j = j + 1;
    }
    assert(cells@ =~= grid_cells(reference, ws));

    let rows_n: u8 = total / 7;
    let mut rows: Vec<WeekRow> = Vec::new();
    let mut rr: u8 = 0;
    while rr < rows_n
        invariant
            rr <= rows_n,
            rows@.len() == rr as int,
            forall|a: int| 0 <= a < rr as int ==> rows@[a]@ == spec_grid(reference, ws)[a],
        decreases rows_n as int - rr as int,
    {
        let mut week: Vec<DayCell> = Vec::new();
        let mut c: u8 = 0;
        while c < 7
            invariant
                c <= 7,
                rr < rows_n,
                week@.len() == c as int,
                forall|b: int|
                    0 <= b < c as int ==> week@[b] == spec_cell(reference, ws, 7 * (rr as int) + b),
            decreases 7 - c as int,
        {
            let idx: usize = (rr as usize) * 7 + (c as usize);
            assert(idx < cells@.len());
            week.push(cells[idx]);
            c = c + 1;
        }
        assert(week@ =~= spec_grid(reference, ws)[rr as int]);
        rows.push(WeekRow { cells: week });
        rr = rr + 1;
    }
    let grid = CalendarGrid { rows };
    assert(grid@ =~= spec_grid(reference, ws));
    Ok(grid)
}

} // verus!
