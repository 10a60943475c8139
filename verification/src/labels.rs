//! Month labels and separators: where along the week rows a month's label
//! goes, and between which rows a new month begins.

use crate::calendar::{
    lemma_days_before_month, lemma_order_by_day_number, year_start, ymd, Date, MAX_YEAR,
    MIN_YEAR,
};
use crate::grid::{
    first_in_year_month, is_year_grid, lemma_year_grid_holds_day_once, lemma_year_grid_slot,
    lemma_year_grid_whole_weeks, week_start, Slot, WeekRow,
};
use crate::text::{decimal, decimal_text};
use vstd::prelude::*;

verus! {

/// The month of the nearest row before row `i` that has a month, if there
/// is such a row.
pub open spec fn month_seen_before(rows: Seq<WeekRow>, i: int) -> Option<u32>
    decreases i,
{
    if i <= 0 {
        None
    } else {
        match rows[i - 1].dominant_month {
            Some(m) => Some(m),
            None => month_seen_before(rows, i - 1),
        }
    }
}

/// The label of row `i`: the row's month, where the row has one and it is
/// not the month last seen before the row.
pub open spec fn label_at(rows: Seq<WeekRow>, i: int) -> Option<u32> {
    match rows[i].dominant_month {
        Some(m) => if month_seen_before(rows, i) == Some(m) {
            None
        } else {
            Some(m)
        },
        None => None,
    }
}

/// Whether a separator stands between rows `i` and `i + 1`: the later row
/// has a month, and it is not the month of the earlier row.
pub open spec fn separator_after(rows: Seq<WeekRow>, i: int) -> bool {
    rows[i + 1].dominant_month is Some && rows[i].dominant_month != rows[i + 1].dominant_month
}

/// The labels of all rows, one for each row.
pub open spec fn month_labels(rows: Seq<WeekRow>) -> Seq<Option<u32>> {
    Seq::new(rows.len(), |i: int| label_at(rows, i))
}

/// The separators between neighbouring rows, one for each pair.
pub open spec fn month_separators(rows: Seq<WeekRow>) -> Seq<bool> {
    Seq::new(
        if rows.len() == 0 {
            0nat
        } else {
            (rows.len() - 1) as nat
        },
        |i: int| separator_after(rows, i),
    )
}

/// Walks the rows from first to last and gives each row its label and each
/// pair of neighbouring rows its separator.
pub fn label_months(rows: &Vec<WeekRow>) -> (r: (Vec<Option<u32>>, Vec<bool>))
    ensures
        r.0@ == month_labels(rows@),
        r.1@ == month_separators(rows@),
{
    let mut labels: Vec<Option<u32>> = Vec::new();
    let mut separators: Vec<bool> = Vec::new();
    let mut last_month: Option<u32> = None;
    let mut i: usize = 0;
    while i < rows.len()
        invariant
            i <= rows.len(),
            last_month == month_seen_before(rows@, i as int),
            labels@.len() == i,
            forall|j: int| 0 <= j < i ==> #[trigger] labels@[j] == label_at(rows@, j),
            separators@.len() == (if i == 0 {
                0int
            } else {
                i - 1
            }),
            forall|j: int|
                0 <= j < separators@.len() ==> #[trigger] separators@[j] == separator_after(
                    rows@,
                    j,
                ),
        decreases rows.len() - i,
    {
        let label: Option<u32> = match rows[i].dominant_month {
            Some(m) => {
                let seen: bool = match last_month {
                    Some(l) => l == m,
                    None => false,
                };
                if seen {
                    None
                } else {
                    Some(m)
                }
            },
            None => None,
        };
        if i > 0 {
            let separated: bool = match rows[i].dominant_month {
                Some(m) => match rows[i - 1].dominant_month {
                    Some(p) => p != m,
                    None => true,
                },
                None => false,
            };
            separators.push(separated);
        }
        labels.push(label);
        if let Some(m) = rows[i].dominant_month {
            last_month = Some(m);
        }
        i += 1;
    }
    (labels, separators)
}

/// The text of a label: the month's number, filled up with a space to two
/// characters; two spaces where there is no label.
pub open spec fn label_chars(label: Option<u32>) -> Seq<char> {
    match label {
        Some(m) => if m < 10 {
            decimal(m as nat).push(' ')
        } else {
            decimal(m as nat)
        },
        None => seq![' ', ' '],
    }
}

/// The text that stands for a label in the header, two characters wide for
/// every month.
pub fn label_text(label: Option<u32>) -> (text: String)
    ensures
        text@ == label_chars(label),
{
    match label {
        Some(m) => {
            let mut text = decimal_text(m as u64);
            if m < 10 {
                proof {
                    reveal_strlit(" ");
                }
                assert(" "@ =~= seq![' ']);
                text.append(" ");
            }
            text
        },
        None => {
            proof {
                reveal_strlit("  ");
            }
            assert("  "@ =~= seq![' ', ' ']);
            String::from_str("  ")
        },
    }
}

/// Where the slots before slot `k` are blank and slot `k` holds a day, the
/// month of the first day in the slots is that day's month.
pub proof fn lemma_first_in_year_month(slots: Seq<Slot>, k: int)
    requires
        0 <= k < slots.len(),
        forall|j: int| 0 <= j < k ==> slots[j] is Blank,
        slots[k] is InYear,
    ensures
        first_in_year_month(slots) == Some(slots[k]->InYear_0@.month as u32),
    decreases k,
{
    if k > 0 {
        let rest = slots.drop_first();
        assert forall|j: int| 0 <= j < k - 1 implies rest[j] is Blank by {
            assert(rest[j] == slots[j + 1]);
        }
        lemma_first_in_year_month(rest, k - 1);
    }
}

/// The month of a row of the grid of a year: January for the first row, and
/// for each later row the month of its Sunday.
pub proof fn lemma_year_grid_row_month(rows: Seq<WeekRow>, year: int, r: int)
    requires
        is_year_grid(rows, year),
        0 <= r < rows.len(),
    ensures
        r == 0 ==> rows[r].dominant_month == Some(1u32),
        r > 0 ==> rows[r].slots@[0] is InYear && rows[r].dominant_month == Some(
            rows[r].slots@[0]->InYear_0@.month as u32,
        ),
        rows[r].dominant_month matches Some(m) && 1 <= m <= 12,
{
    lemma_year_grid_whole_weeks(rows, year);
    if r == 0 {
        let jan1 = ymd(year, 1, 1);
        lemma_year_grid_holds_day_once(rows, year, jan1);
        let c = jan1.weekday();
        assert forall|j: int| 0 <= j < c implies rows[0].slots@[j] is Blank by {
            lemma_year_grid_slot(rows, year, 0, j);
        }
        lemma_first_in_year_month(rows[0].slots@, c);
    } else {
        lemma_year_grid_slot(rows, year, r, 0);
        lemma_first_in_year_month(rows[r].slots@, 0);
    }
}

/// Along the grid of a year the months of the rows never go back.
pub proof fn lemma_year_grid_months_in_order(rows: Seq<WeekRow>, year: int, r: int, s: int)
    requires
        is_year_grid(rows, year),
        0 <= r <= s < rows.len(),
    ensures
        rows[r].dominant_month matches Some(a) && rows[s].dominant_month matches Some(b) && 1 <= a
            <= b <= 12,
{
    lemma_year_grid_row_month(rows, year, r);
    lemma_year_grid_row_month(rows, year, s);
    if 0 < r < s {
        lemma_year_grid_slot(rows, year, r, 0);
        lemma_year_grid_slot(rows, year, s, 0);
        let x = rows[r].slots@[0]->InYear_0@;
        let y = rows[s].slots@[0]->InYear_0@;
        lemma_order_by_day_number(x, y);
    }
}

/// In the grid of a year, the month seen before a row is the month of the
/// row just before it.
pub proof fn lemma_year_grid_month_seen(rows: Seq<WeekRow>, year: int, i: int)
    requires
        is_year_grid(rows, year),
        0 < i <= rows.len(),
    ensures
        month_seen_before(rows, i) == rows[i - 1].dominant_month,
{
    lemma_year_grid_row_month(rows, year, i - 1);
}

/// The labels of the grid of a year: the first row is labelled January, and
/// the labelled months go up from row to row, so that no month is labelled
/// twice.
pub proof fn lemma_year_grid_labels(rows: Seq<WeekRow>, year: int)
    requires
        is_year_grid(rows, year),
    ensures
        month_labels(rows).len() == rows.len(),
        rows.len() > 0,
        month_labels(rows)[0] == Some(1u32),
        forall|i: int, j: int|
            0 <= i < j < rows.len() && #[trigger] month_labels(rows)[i] is Some
                && #[trigger] month_labels(rows)[j] is Some ==> month_labels(rows)[i]->0
                < month_labels(rows)[j]->0,
{
    lemma_year_grid_whole_weeks(rows, year);
    lemma_year_grid_row_month(rows, year, 0);
    assert forall|i: int, j: int|
        0 <= i < j < rows.len() && #[trigger] month_labels(rows)[i] is Some
            && #[trigger] month_labels(rows)[j] is Some implies month_labels(rows)[i]->0
        < month_labels(rows)[j]->0 by {
        lemma_year_grid_month_seen(rows, year, j);
        lemma_year_grid_months_in_order(rows, year, i, j - 1);
        lemma_year_grid_months_in_order(rows, year, j - 1, j);
    }
}

/// Each month has a Sunday among its first seven days.
pub proof fn lemma_month_has_early_sunday(year: int, month: int) -> (k: int)
    requires
        MIN_YEAR <= year <= MAX_YEAR,
        1 <= month <= 12,
    ensures
        1 <= k <= 7,
        ymd(year, month, k).valid(),
        ymd(year, month, k).weekday() == 0,
        ymd(year, month, k).day_number() == ymd(year, month, 1).day_number() + k - 1,
{
    1 + (7 - ymd(year, month, 1).weekday()) % 7
}

/// In the grid of a year, a Sunday after the first row gives its row its
/// month.
pub proof fn lemma_year_grid_sunday_row(rows: Seq<WeekRow>, year: int, sunday: Date) -> (i: int)
    requires
        is_year_grid(rows, year),
        sunday.valid(),
        sunday.year == year,
        sunday.weekday() == 0,
        sunday.day_number() >= year_start(year) + 7,
    ensures
        i == (sunday.day_number() - week_start(year_start(year))) / 7,
        0 < i < rows.len(),
        rows[i].dominant_month == Some(sunday.month as u32),
{
    lemma_year_grid_whole_weeks(rows, year);
    lemma_year_grid_holds_day_once(rows, year, sunday);
    let i = (sunday.day_number() - week_start(year_start(year))) / 7;
    lemma_year_grid_row_month(rows, year, i);
    i
}

/// Every month of the year is labelled in the grid of the year: at the row
/// of the month's first Sunday, or at the first row for January.
pub proof fn lemma_year_grid_labels_month(rows: Seq<WeekRow>, year: int, month: int) -> (i: int)
    requires
        is_year_grid(rows, year),
        1 <= month <= 12,
    ensures
        0 <= i < rows.len(),
        month_labels(rows)[i] == Some(month as u32),
{
    lemma_year_grid_whole_weeks(rows, year);
    if month == 1 {
        lemma_year_grid_row_month(rows, year, 0);
        0
    } else {
        let first_of_month = ymd(year, month, 1);
        let k = lemma_month_has_early_sunday(year, month);
        let sunday = ymd(year, month, k);
        assert(sunday.day_number() >= year_start(year) + 7) by {
            lemma_days_before_month(year, month);
            lemma_days_before_month(year, 1);
        }
        let i = lemma_year_grid_sunday_row(rows, year, sunday);
        lemma_year_grid_month_seen(rows, year, i);
        assert(rows[i - 1].dominant_month != Some(month as u32)) by {
            lemma_year_grid_row_month(rows, year, i - 1);
            if i - 1 > 0 {
                lemma_year_grid_slot(rows, year, i - 1, 0);
                let before = rows[i - 1].slots@[0]->InYear_0@;
                lemma_order_by_day_number(before, first_of_month);
            }
        }
        i
    }
}

} // verus!
