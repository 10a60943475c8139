use commit_heatmap::counts::count;
use commit_heatmap::day::CalendarDay;

fn day(year: i32, month: u32, day: u32) -> CalendarDay {
    CalendarDay::new(year, month, day).unwrap()
}

#[test]
fn count_of_nothing_is_zero_everywhere() {
    let counts = count(&Vec::new(), 2021);
    assert_eq!(counts.get(&day(2021, 1, 1)), 0);
    assert_eq!(counts.get(&day(2021, 12, 31)), 0);
}

#[test]
fn count_adds_up_the_commits_of_a_day() {
    let dates = vec![
        day(2021, 1, 1),
        day(2021, 1, 2),
        day(2021, 1, 1),
        day(2021, 6, 15),
        day(2021, 1, 1),
    ];
    let counts = count(&dates, 2021);
    assert_eq!(counts.get(&day(2021, 1, 1)), 3);
    assert_eq!(counts.get(&day(2021, 1, 2)), 1);
    assert_eq!(counts.get(&day(2021, 6, 15)), 1);
    assert_eq!(counts.get(&day(2021, 1, 3)), 0);
}

#[test]
fn count_drops_the_days_of_other_years() {
    let dates = vec![day(2020, 12, 31), day(2021, 1, 1), day(2022, 1, 1), day(2020, 1, 1)];
    let counts = count(&dates, 2021);
    assert_eq!(counts.get(&day(2021, 1, 1)), 1);
    assert_eq!(counts.get(&day(2020, 12, 31)), 0);
    assert_eq!(counts.get(&day(2022, 1, 1)), 0);
    assert_eq!(counts.get(&day(2020, 1, 1)), 0);
    let other = count(&dates, 2020);
    assert_eq!(other.get(&day(2020, 12, 31)), 1);
    assert_eq!(other.get(&day(2020, 1, 1)), 1);
    assert_eq!(other.get(&day(2021, 1, 1)), 0);
}

#[test]
fn counts_add_up_to_the_number_of_commits_in_the_year() {
    let mut dates = Vec::new();
    for d in 1..=28u32 {
        for _ in 0..(d % 5) {
            dates.push(day(2024, 2, d));
        }
        dates.push(day(2023, 2, d));
    }
    dates.push(day(2024, 2, 29));
    let in_year = dates.iter().filter(|d| d.year() == 2024).count() as u64;
    let counts = count(&dates, 2024);
    let mut sum = 0u64;
    for d in 1..=29u32 {
        sum += counts.get(&day(2024, 2, d));
    }
    assert_eq!(sum, in_year);
    assert_eq!(sum, 57);
}

#[test]
fn count_does_not_depend_on_the_order() {
    let dates = vec![day(2021, 5, 1), day(2021, 5, 2), day(2021, 5, 1), day(2019, 5, 1)];
    let mut reversed = dates.clone();
    reversed.reverse();
    let a = count(&dates, 2021);
    let b = count(&reversed, 2021);
    for d in [day(2021, 5, 1), day(2021, 5, 2), day(2019, 5, 1), day(2021, 5, 3)] {
        assert_eq!(a.get(&d), b.get(&d));
    }
    assert_eq!(a.get(&day(2021, 5, 1)), 2);
}

#[test]
fn days_that_differ_only_in_month_or_day_are_kept_apart() {
    let dates = vec![day(2021, 1, 11), day(2021, 11, 1), day(2021, 1, 11), day(2021, 10, 1)];
    let counts = count(&dates, 2021);
    assert_eq!(counts.get(&day(2021, 1, 11)), 2);
    assert_eq!(counts.get(&day(2021, 11, 1)), 1);
    assert_eq!(counts.get(&day(2021, 10, 1)), 1);
    assert_eq!(counts.get(&day(2021, 1, 1)), 0);
}

#[test]
fn count_works_for_years_before_year_one() {
    let dates = vec![day(-5, 3, 1), day(-5, 3, 1), day(-4, 3, 1)];
    let counts = count(&dates, -5);
    assert_eq!(counts.get(&day(-5, 3, 1)), 2);
    assert_eq!(counts.get(&day(-4, 3, 1)), 0);
}
