//! The week grid of a year: rows of seven slots from Sunday to Saturday,
//! reaching from the Sunday on or before 1 January to the Saturday on or
//! after 31 December, with the days outside the year left blank.

use crate::calendar::{
    first_day_number, last_day_number, lemma_day_within_year, lemma_order_by_day_number,
    lemma_valid_day_numbers, lemma_year_follows_year, lemma_year_of_day_number,
    lemma_years_in_order, year_end, year_start, ymd, Date, MAX_YEAR, MIN_YEAR,
};
use crate::day::{chrono_day_after, chrono_day_before, CalendarDay};
use vstd::prelude::*;

verus! {

/// One cell of a week row: a day of the year, or nothing.
#[derive(Clone, Copy, Debug, PartialEq, Eq)]
pub enum Slot {
    /// The day lies outside the year.
    Blank,
    /// A day of the year.
    InYear(CalendarDay),
}

/// One week, Sunday first, and the month it counts for.
#[derive(Clone, Debug, PartialEq, Eq)]
pub struct WeekRow {
    /// The seven slots of the week, from Sunday to Saturday.
    pub slots: Vec<Slot>,
    /// The month of the first day of the year in this week, if it has one.
    pub dominant_month: Option<u32>,
}

/// The number of the Sunday on or before day `n`.
pub open spec fn week_start(n: int) -> int {
    n - n % 7
}

/// The number of the Saturday on or after day `n`.
pub open spec fn week_end(n: int) -> int {
    n - n % 7 + 6
}

/// How many strides of seven days, starting at `from`, begin on or before `to`.
pub open spec fn week_count(from: int, to: int) -> int {
    if from <= to {
        (to - from) / 7 + 1
    } else {
        0
    }
}

/// What the slot for day `n` holds when the year runs from day `first` to
/// day `last`: that day if it lies in the year, nothing if not.
pub open spec fn slot_shows(slot: Slot, n: int, first: int, last: int) -> bool {
    if first <= n <= last {
        slot matches Slot::InYear(d) && d@.valid() && d@.day_number() == n
    } else {
        slot is Blank
    }
}

/// The month of the first slot that holds a day, if any slot does.
pub open spec fn first_in_year_month(slots: Seq<Slot>) -> Option<u32>
    decreases slots.len(),
{
    if slots.len() == 0 {
        None
    } else {
        match slots.first() {
            Slot::InYear(d) => Some(d@.month as u32),
            Slot::Blank => first_in_year_month(slots.drop_first()),
        }
    }
}

impl WeekRow {
    /// The row has seven slots, and its month is that of the first slot that
    /// holds a day.
    pub open spec fn is_week(self) -> bool {
        &&& self.slots@.len() == 7
        &&& self.dominant_month == first_in_year_month(self.slots@)
    }

    /// The row is the week of the seven days from day `sunday` on, in a year
    /// that runs from day `first` to day `last`.
    pub open spec fn shows_week(self, sunday: int, first: int, last: int) -> bool {
        &&& self.is_week()
        &&& forall|c: int|
            0 <= c < 7 ==> slot_shows(#[trigger] self.slots@[c], sunday + c, first, last)
    }

    /// A row of the given slots; its month is that of the first slot that
    /// holds a day.
    pub fn new(slots: Vec<Slot>) -> (row: WeekRow)
        ensures
            row.slots == slots,
            row.dominant_month == first_in_year_month(slots@),
            slots@.len() == 7 <==> row.is_week(),
    {
        let mut month: Option<u32> = None;
        let mut i: usize = 0;
        assert(slots@.skip(0) == slots@);
        while i < slots.len() && month.is_none()
            invariant
                i <= slots.len(),
                month is None ==> first_in_year_month(slots@) == first_in_year_month(
                    slots@.skip(i as int),
                ),
                month is Some ==> month == first_in_year_month(slots@),
            decreases slots.len() - i, (if month is None {
                1int
            } else {
                0
            }),
        {
            assert(slots@.skip(i as int).drop_first() == slots@.skip(i + 1));
            match slots[i] {
                Slot::InYear(d) => {
                    month = Some(d.month());
                },
                Slot::Blank => {
                    i += 1;
                },
            }
        }
        WeekRow { slots, dominant_month: month }
    }
}

/// The rows are the weeks from day `from` on, in strides of seven days, as
/// long as a stride begins on or before day `to`, in a year that runs from
/// day `first` to day `last`.
pub open spec fn weeks_cover(
    rows: Seq<WeekRow>,
    from: int,
    to: int,
    first: int,
    last: int,
) -> bool {
    &&& rows.len() == week_count(from, to)
    &&& forall|r: int|
        0 <= r < rows.len() ==> (#[trigger] rows[r]).shows_week(from + 7 * r, first, last)
}

/// The rows are the week grid of the year.
pub open spec fn is_year_grid(rows: Seq<WeekRow>, year: int) -> bool {
    weeks_cover(
        rows,
        week_start(year_start(year)),
        week_end(year_end(year)),
        year_start(year),
        year_end(year),
    )
}

/// Widens a span of days to whole weeks: the Sunday on or before `start` and
/// the Saturday on or after `end`, found by stepping a day at a time.
pub fn adjust_start_and_end_dates(start: &CalendarDay, end: &CalendarDay) -> (r: (
    CalendarDay,
    CalendarDay,
))
    requires
        first_day_number() <= week_start(start@.day_number()),
        week_end(end@.day_number()) <= last_day_number(),
    ensures
        r.0@.valid(),
        r.0@.day_number() == week_start(start@.day_number()),
        r.0@.weekday() == 0,
        r.1@.valid(),
        r.1@.day_number() == week_end(end@.day_number()),
        r.1@.weekday() == 6,
{
    let mut adjusted_start = *start;
    while adjusted_start.weekday() != 0
        invariant
            week_start(start@.day_number()) <= adjusted_start@.day_number()
                <= start@.day_number(),
            first_day_number() <= week_start(start@.day_number()),
        decreases adjusted_start@.day_number() - week_start(start@.day_number()),
    {
        proof {
            use_type_invariant(&adjusted_start);
        }
        adjusted_start = chrono_day_before(&adjusted_start);
    }
    let mut adjusted_end = *end;
    while adjusted_end.weekday() != 6
        invariant
            end@.day_number() <= adjusted_end@.day_number() <= week_end(end@.day_number()),
            week_end(end@.day_number()) <= last_day_number(),
        decreases week_end(end@.day_number()) - adjusted_end@.day_number(),
    {
        proof {
            use_type_invariant(&adjusted_end);
        }
        adjusted_end = chrono_day_after(&adjusted_end);
    }
    proof {
        use_type_invariant(&adjusted_start);
        use_type_invariant(&adjusted_end);
    }
    (adjusted_start, adjusted_end)
}

/// Lays the days from `adjusted_start` on out in weeks of seven, as long as
/// a week begins on or before `adjusted_end`. A day from `start` to `end`
/// fills its slot; any other leaves it blank.
pub fn organize_weeks(
    adjusted_start: &CalendarDay,
    adjusted_end: &CalendarDay,
    start: &CalendarDay,
    end: &CalendarDay,
) -> (rows: Vec<WeekRow>)
    requires
        adjusted_start@.day_number() + 7 * week_count(
            adjusted_start@.day_number(),
            adjusted_end@.day_number(),
        ) <= last_day_number(),
    ensures
        weeks_cover(
            rows@,
            adjusted_start@.day_number(),
            adjusted_end@.day_number(),
            start@.day_number(),
            end@.day_number(),
        ),
{
    let ghost from = adjusted_start@.day_number();
    let ghost to = adjusted_end@.day_number();
    let ghost first = start@.day_number();
    let ghost last = end@.day_number();
    let mut weeks: Vec<WeekRow> = Vec::new();
    let mut date = *adjusted_start;
    while date.is_on_or_before(adjusted_end)
        invariant
            from == adjusted_start@.day_number(),
            to == adjusted_end@.day_number(),
            first == start@.day_number(),
            last == end@.day_number(),
            date@.day_number() == from + 7 * weeks@.len(),
            weeks@.len() <= week_count(from, to),
            from + 7 * week_count(from, to) <= last_day_number(),
            forall|r: int|
                0 <= r < weeks@.len() ==> (#[trigger] weeks@[r]).shows_week(
                    from + 7 * r,
                    first,
                    last,
                ),
        decreases week_count(from, to) - weeks@.len(),
    {
        let ghost sunday = date@.day_number();
        let mut week: Vec<Slot> = Vec::new();
        let mut i: usize = 0;
        while i < 7
            invariant
                i <= 7,
                week@.len() == i,
                first == start@.day_number(),
                last == end@.day_number(),
                date@.day_number() == sunday + i,
                sunday + 7 <= last_day_number(),
                forall|c: int|
                    0 <= c < i ==> slot_shows(#[trigger] week@[c], sunday + c, first, last),
            decreases 7 - i,
        {
            proof {
                use_type_invariant(&date);
            }
            if start.is_on_or_before(&date) && date.is_on_or_before(end) {
                week.push(Slot::InYear(date));
            } else {
                week.push(Slot::Blank);
            }
            date = chrono_day_after(&date);
            i += 1;
        }
        weeks.push(WeekRow::new(week));
    }
    weeks
}

/// Lays the days from `start` to `end` out in weeks without naming a day
/// before `start` or after `end`: blanks up to the weekday of `start`, then
/// the days, then blanks up to Saturday.
fn lay_out_days(start: &CalendarDay, end: &CalendarDay) -> (rows: Vec<WeekRow>)
    requires
        start@.day_number() <= end@.day_number(),
    ensures
        weeks_cover(
            rows@,
            week_start(start@.day_number()),
            week_end(end@.day_number()),
            start@.day_number(),
            end@.day_number(),
        ),
{
    let ghost first = start@.day_number();
    let ghost last = end@.day_number();
    let ghost from = week_start(first);
    let mut weeks: Vec<WeekRow> = Vec::new();
    let mut week: Vec<Slot> = Vec::new();
    let lead = start.weekday();
    while week.len() < lead as usize
        invariant
            lead == first % 7,
            from == week_start(first),
            week@.len() <= lead,
            forall|c: int| 0 <= c < week@.len() ==> slot_shows(#[trigger] week@[c], from + c, first, last),
        decreases lead - week@.len(),
    {
        week.push(Slot::Blank);
    }
    let mut date = *start;
    loop
        invariant_except_break
            first <= date@.day_number() <= last,
            week@.len() == (date@.day_number() - from) % 7,
            weeks@.len() == (date@.day_number() - from) / 7,
        invariant
            first == start@.day_number(),
            last == end@.day_number(),
            from == week_start(first),
            week@.len() < 7,
            forall|r: int|
                0 <= r < weeks@.len() ==> (#[trigger] weeks@[r]).shows_week(
                    from + 7 * r,
                    first,
                    last,
                ),
            forall|c: int|
                0 <= c < week@.len() ==> slot_shows(
                    #[trigger] week@[c],
                    from + 7 * weeks@.len() + c,
                    first,
                    last,
                ),
        ensures
            week@.len() == (last + 1 - from) % 7,
            weeks@.len() == (last + 1 - from) / 7,
        decreases last - date@.day_number(),
    {
        proof {
            use_type_invariant(&date);
        }
        week.push(Slot::InYear(date));
        if week.len() == 7 {
            weeks.push(WeekRow::new(week));
            week = Vec::new();
        }
        if !date.is_before(end) {
            break ;
        }
        proof {
            use_type_invariant(end);
            lemma_valid_day_numbers(end@);
        }
        date = chrono_day_after(&date);
    }
    if week.len() > 0 {
        while week.len() < 7
            invariant
                0 < week@.len() <= 7,
                last < from + 7 * weeks@.len() + week@.len(),
                forall|c: int|
                    0 <= c < week@.len() ==> slot_shows(
                        #[trigger] week@[c],
                        from + 7 * weeks@.len() + c,
                        first,
                        last,
                    ),
            decreases 7 - week@.len(),
        {
            week.push(Slot::Blank);
        }
        weeks.push(WeekRow::new(week));
    }
    weeks
}

/// The week grid of a year: from the Sunday on or before 1 January to the
/// Saturday on or after 31 December, with every day of the year in the slot
/// of its weekday and the days of the neighbouring years left blank.
///
/// The grid is laid out between the two padded days. Only the first and the
/// last year of the calendar have no days around them to pad with, and are
/// laid out from their own days alone.
pub fn build_grid(year: i32) -> (rows: Vec<WeekRow>)
    requires
        MIN_YEAR <= year <= MAX_YEAR,
    ensures
        is_year_grid(rows@, year as int),
{
    proof {
        lemma_day_within_year(ymd(year as int, 1, 1));
        lemma_day_within_year(ymd(year as int, 12, 31));
    }
    let start = CalendarDay::new(year, 1, 1).unwrap();
    let end = CalendarDay::new(year, 12, 31).unwrap();
    if MIN_YEAR < year && year < MAX_YEAR {
        proof {
            lemma_year_follows_year(year as int);
            lemma_year_follows_year(MIN_YEAR as int);
            lemma_years_in_order(MIN_YEAR + 1, year as int);
            lemma_year_follows_year(MAX_YEAR as int - 1);
            lemma_year_follows_year(MAX_YEAR as int);
            lemma_years_in_order(year + 1, MAX_YEAR as int);
        }
        let (adjusted_start, adjusted_end) = adjust_start_and_end_dates(&start, &end);
        organize_weeks(&adjusted_start, &adjusted_end, &start, &end)
    } else {
        lay_out_days(&start, &end)
    }
}

/// The grid of a year is made of whole weeks: it begins on a Sunday, ends on
/// a Saturday, and has 53 or 54 rows. Only a year within range has a grid.
pub proof fn lemma_year_grid_whole_weeks(rows: Seq<WeekRow>, year: int)
    requires
        is_year_grid(rows, year),
    ensures
        week_start(year_start(year)) % 7 == 0,
        week_end(year_end(year)) % 7 == 6,
        week_start(year_start(year)) <= year_start(year) < week_start(year_start(year)) + 7,
        week_end(year_end(year)) - 7 < year_end(year) <= week_end(year_end(year)),
        7 * rows.len() == week_end(year_end(year)) - week_start(year_start(year)) + 1,
        53 <= rows.len() <= 54,
        MIN_YEAR <= year <= MAX_YEAR,
{
    lemma_year_follows_year(year);
    let sunday = week_start(year_start(year)) + 7 * 1;
    assert(rows[1].shows_week(sunday, year_start(year), year_end(year)));
    assert(slot_shows(rows[1].slots@[0], sunday + 0, year_start(year), year_end(year)));
    match rows[1].slots@[0] {
        Slot::InYear(x) => {
            lemma_year_of_day_number(x@, year);
        },
        Slot::Blank => {},
    }
}

/// What a slot of the grid of a year holds: in column `c` a day of the year
/// that falls on weekday `c`, or nothing. Nothing stands only before
/// 1 January in the first row and after 31 December in the last row.
pub proof fn lemma_year_grid_slot(rows: Seq<WeekRow>, year: int, r: int, c: int)
    requires
        is_year_grid(rows, year),
        0 <= r < rows.len(),
        0 <= c < 7,
    ensures
        rows[r].slots@.len() == 7,
        match rows[r].slots@[c] {
            Slot::InYear(x) => {
                &&& x@.valid()
                &&& x@.year == year
                &&& x@.weekday() == c
                &&& x@.day_number() == week_start(year_start(year)) + 7 * r + c
            },
            Slot::Blank => {
                ||| r == 0 && c < ymd(year, 1, 1).weekday()
                ||| r == rows.len() - 1 && c > ymd(year, 12, 31).weekday()
            },
        },
{
    lemma_year_grid_whole_weeks(rows, year);
    let sunday = week_start(year_start(year)) + 7 * r;
    assert(rows[r].shows_week(sunday, year_start(year), year_end(year)));
    assert(slot_shows(rows[r].slots@[c], sunday + c, year_start(year), year_end(year)));
    match rows[r].slots@[c] {
        Slot::InYear(x) => {
            lemma_year_of_day_number(x@, year);
        },
        Slot::Blank => {},
    }
}

/// Every day of the year stands in the grid of the year exactly once: in the
/// column of its weekday, in the row that its distance from the grid's first
/// Sunday gives.
pub proof fn lemma_year_grid_holds_day_once(rows: Seq<WeekRow>, year: int, d: Date)
    requires
        is_year_grid(rows, year),
        d.valid(),
        d.year == year,
    ensures
        ({
            let p = d.day_number() - week_start(year_start(year));
            &&& 0 <= p / 7 < rows.len()
            &&& p % 7 == d.weekday()
            &&& rows[p / 7].slots@.len() == 7
            &&& rows[p / 7].slots@[p % 7] matches Slot::InYear(x) && x@ == d
            &&& forall|r: int, c: int|
                0 <= r < rows.len() && 0 <= c < 7 && (#[trigger] rows[r].slots@[c] matches
                    Slot::InYear(x) && x@ == d) ==> r == p / 7 && c == p % 7
        }),
{
    let p = d.day_number() - week_start(year_start(year));
    lemma_year_grid_whole_weeks(rows, year);
    lemma_year_of_day_number(d, year);
    let r0 = p / 7;
    let c0 = p % 7;
    assert(rows[r0].shows_week(
        week_start(year_start(year)) + 7 * r0,
        year_start(year),
        year_end(year),
    ));
    assert(slot_shows(
        rows[r0].slots@[c0],
        week_start(year_start(year)) + 7 * r0 + c0,
        year_start(year),
        year_end(year),
    ));
    match rows[r0].slots@[c0] {
        Slot::InYear(x) => {
            lemma_order_by_day_number(x@, d);
        },
        Slot::Blank => {},
    }
    assert forall|r: int, c: int|
        0 <= r < rows.len() && 0 <= c < 7 && (#[trigger] rows[r].slots@[c] matches Slot::InYear(x)
            && x@ == d) implies r == p / 7 && c == p % 7 by {
        lemma_year_grid_slot(rows, year, r, c);
    }
}

} // verus!
