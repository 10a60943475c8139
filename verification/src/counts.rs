//! Commit counts per day: how many of the given commit days fall on each day
//! of one year.

use crate::calendar::Date;
use crate::day::CalendarDay;
use std::collections::HashMap;
use vstd::multiset::Multiset;
use vstd::prelude::*;

verus! {

broadcast use {vstd::std_specs::hash::group_hash_axioms, vstd::multiset::group_multiset_axioms};

/// The dates of the given days, in their order.
pub open spec fn dates_of(days: Seq<CalendarDay>) -> Seq<Date> {
    days.map_values(|d: CalendarDay| d@)
}

/// The dates of those of the given days that lie in the year, in their order.
pub open spec fn dates_in_year(days: Seq<CalendarDay>, year: int) -> Seq<Date> {
    dates_of(days).filter(|d: Date| d.year == year)
}

/// The key under which a date's count is kept.
spec fn day_key(d: Date) -> int {
    d.year * 10000 + d.month * 100 + d.day
}

/// What a table of counts by key holds for a key: nothing stands for 0.
spec fn stored_count(by_day: Map<i64, u64>, key: int) -> nat {
    if i64::MIN <= key <= i64::MAX && by_day.contains_key(key as i64) {
        by_day[key as i64] as nat
    } else {
        0
    }
}

/// The table holds, for every date, how often the date occurs in the multiset.
spec fn table_matches(by_day: Map<i64, u64>, days: Multiset<Date>) -> bool {
    &&& forall|d: Date| #[trigger] days.count(d) > 0 ==> d.valid()
    &&& forall|d: Date| d.valid() ==> #[trigger] days.count(d) == stored_count(by_day, day_key(d))
}

/// The number of commits on each day. A day without commits counts 0.
///
/// The view is the multiset of the days counted: the `count` of a date in it
/// is that day's commit count, and its `len` is the sum of all the counts.
pub struct CommitCounts {
    by_day: HashMap<i64, u64>,
    days: Ghost<Multiset<Date>>,
}

impl View for CommitCounts {
    type V = Multiset<Date>;

    closed spec fn view(&self) -> Multiset<Date> {
        self.days@
    }
}

/// The key of a day in the table of counts.
fn key_of(day: &CalendarDay) -> (key: i64)
    ensures
        key == day_key(day@),
        day@.valid(),
{
    proof {
        use_type_invariant(day);
    }
    (day.year() as i64) * 10000 + (day.month() as i64) * 100 + (day.day() as i64)
}

/// Two dates that exist and differ have different keys.
proof fn lemma_key_tells_dates_apart(a: Date, b: Date)
    requires
        a.valid(),
        b.valid(),
        day_key(a) == day_key(b),
    ensures
        a == b,
{
    let ra = a.month * 100 + a.day;
    let rb = b.month * 100 + b.day;
    assert(0 <= ra < 10000 && 0 <= rb < 10000);
    assert(a.year * 10000 + ra == b.year * 10000 + rb);
    assert(a.year == b.year);
    assert(a.month == b.month);
}

/// Counting one more day: a day of the year joins the dates counted, any
/// other changes nothing.
proof fn lemma_dates_in_year_step(days: Seq<CalendarDay>, year: int, i: int)
    requires
        0 <= i < days.len(),
    ensures
        dates_in_year(days.take(i + 1), year) == if days[i]@.year == year {
            dates_in_year(days.take(i), year).push(days[i]@)
        } else {
            dates_in_year(days.take(i), year)
        },
{
    reveal(Seq::filter);
    let longer = dates_of(days.take(i + 1));
    assert(longer.drop_last() =~= dates_of(days.take(i)));
    assert(longer.last() == days[i]@);
}

impl CommitCounts {
    /// The table and the multiset of the days counted agree.
    #[verifier::type_invariant]
    closed spec fn well_formed(self) -> bool {
        table_matches(self.by_day@, self.days@)
    }

    /// The number of commits on a day.
    pub fn get(&self, day: &CalendarDay) -> (n: u64)
        ensures
            n == self@.count(day@),
    {
        proof {
            use_type_invariant(self);
        }
        let key = key_of(day);
        match self.by_day.get(&key) {
            Some(n) => *n,
            None => 0,
        }
    }
}

/// Counts the commits of one year by day: each of the given days that lies
/// in the year adds one to the count of its day, and the others are dropped.
/// The order of the days plays no part.
pub fn count(dates: &Vec<CalendarDay>, year: i32) -> (counts: CommitCounts)
    ensures
        counts@ == dates_in_year(dates@, year as int).to_multiset(),
{
    let mut by_day: HashMap<i64, u64> = HashMap::new();
    let ghost mut days: Multiset<Date> = Multiset::empty();
    let mut i: usize = 0;
    proof {
        reveal(Seq::filter);
        assert(dates_in_year(dates@.take(0), year as int) =~= Seq::<Date>::empty());
        broadcast use vstd::seq_lib::group_to_multiset_ensures;
        assert(Seq::<Date>::empty().to_multiset() =~= Multiset::<Date>::empty());
    }
    while i < dates.len()
        invariant
            i <= dates.len(),
            days == dates_in_year(dates@.take(i as int), year as int).to_multiset(),
            days.len() <= i,
            table_matches(by_day@, days),
        decreases dates.len() - i,
    {
        let day = dates[i];
        proof {
            lemma_dates_in_year_step(dates@, year as int, i as int);
        }
        if day.year() == year {
            let key = key_of(&day);
            let seen: u64 = match by_day.get(&key) {
                Some(n) => *n,
                None => 0,
            };
            proof {
                let before = dates_in_year(dates@.take(i as int), year as int);
                before.to_multiset_ensures();
                vstd::multiset::axiom_count_le_len(days, day@);
                assert(seen == days.count(day@));
                assert(seen <= days.len());
                assert forall|d: Date| d.valid() && d != day@ implies day_key(d) != key by {
                    if day_key(d) == key {
                        lemma_key_tells_dates_apart(d, day@);
                    }
                }
                days = days.insert(day@);
            }
            by_day.insert(key, seen + 1);
        }
        i += 1;
    }
    proof {
        assert(dates@.take(i as int) =~= dates@);
    }
    CommitCounts { by_day, days: Ghost(days) }
}

/// The counts of a year add up to the number of the given days that lie in
/// the year.
pub proof fn lemma_counts_add_up(days: Seq<CalendarDay>, year: int)
    ensures
        dates_in_year(days, year).to_multiset().len() == dates_in_year(days, year).len(),
{
    dates_in_year(days, year).to_multiset_ensures();
}

/// The count of a day of the year is the number of times the day occurs
/// among the given days, and a day of another year has no count.
pub proof fn lemma_count_per_day(days: Seq<CalendarDay>, year: int, d: Date)
    ensures
        dates_in_year(days, year).to_multiset().count(d) == (if d.year == year {
            dates_of(days).to_multiset().count(d)
        } else {
            0
        }),
    decreases days.len(),
{
    if days.len() == 0 {
        reveal(Seq::filter);
        assert(dates_of(days) =~= Seq::<Date>::empty());
        assert(dates_in_year(days, year) =~= Seq::<Date>::empty());
        Seq::<Date>::empty().to_multiset_ensures();
    } else {
        let n = days.len() - 1;
        let init = days.take(n);
        let last = days[n]@;
        assert(days.take(n + 1) =~= days);
        lemma_dates_in_year_step(days, year, n);
        lemma_count_per_day(init, year, d);
        assert(dates_of(days) =~= dates_of(init).push(last));
        dates_of(init).to_multiset_ensures();
        dates_in_year(init, year).to_multiset_ensures();
    }
}

/// The order of the days plays no part: the same days in another order
/// give the same counts.
pub proof fn lemma_count_in_any_order(a: Seq<CalendarDay>, b: Seq<CalendarDay>, year: int)
    requires
        dates_of(a).to_multiset() == dates_of(b).to_multiset(),
    ensures
        dates_in_year(a, year).to_multiset() == dates_in_year(b, year).to_multiset(),
{
    assert forall|d: Date|
        dates_in_year(a, year).to_multiset().count(d) == dates_in_year(b, year).to_multiset().count(
            d,
        ) by {
        lemma_count_per_day(a, year, d);
        lemma_count_per_day(b, year, d);
    }
    assert(dates_in_year(a, year).to_multiset() =~= dates_in_year(b, year).to_multiset());
}

} // verus!
