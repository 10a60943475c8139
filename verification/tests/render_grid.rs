use commit_heatmap::counts::count;
use commit_heatmap::day::CalendarDay;
use commit_heatmap::grid::{build_grid, Slot, WeekRow};
use commit_heatmap::intensity::IntensityBucket;
use commit_heatmap::labels::label_months;
use commit_heatmap::render::{assemble, heatmap, RenderCell};

fn day(year: i32, month: u32, day: u32) -> CalendarDay {
    CalendarDay::new(year, month, day).unwrap()
}

#[test]
fn cells_of_2021_carry_the_buckets_of_their_counts() {
    let dates = vec![day(2021, 1, 1), day(2021, 1, 1), day(2021, 1, 1)];
    let counts = count(&dates, 2021);
    assert_eq!(counts.get(&day(2021, 1, 1)), 3);
    assert_eq!(counts.get(&day(2021, 1, 2)), 0);
    let grid = build_grid(2021);
    let (labels, separators) = label_months(&grid);
    let out = assemble(&grid, &counts, labels, separators);
    assert_eq!(
        out.columns[0],
        vec![
            RenderCell::Blank,
            RenderCell::Blank,
            RenderCell::Blank,
            RenderCell::Blank,
            RenderCell::Blank,
            RenderCell::Cell(day(2021, 1, 1), IntensityBucket::Medium),
            RenderCell::Cell(day(2021, 1, 2), IntensityBucket::Zero),
        ]
    );
}

#[test]
fn every_bucket_shows_up_for_its_count() {
    let mut dates = Vec::new();
    for (d, commits) in [(3u32, 1usize), (4, 2), (5, 4), (6, 5), (7, 6), (8, 100)] {
        for _ in 0..commits {
            dates.push(day(2021, 1, d));
        }
    }
    let counts = count(&dates, 2021);
    let out = heatmap(&build_grid(2021), &counts);
    assert_eq!(
        out.columns[1],
        vec![
            RenderCell::Cell(day(2021, 1, 3), IntensityBucket::Low),
            RenderCell::Cell(day(2021, 1, 4), IntensityBucket::Medium),
            RenderCell::Cell(day(2021, 1, 5), IntensityBucket::High),
            RenderCell::Cell(day(2021, 1, 6), IntensityBucket::High),
            RenderCell::Cell(day(2021, 1, 7), IntensityBucket::VeryHigh),
            RenderCell::Cell(day(2021, 1, 8), IntensityBucket::VeryHigh),
            RenderCell::Cell(day(2021, 1, 9), IntensityBucket::Zero),
        ]
    );
}

#[test]
fn blanks_stay_blank_and_are_not_days_without_commits() {
    let counts = count(&Vec::new(), 2024);
    let grid = build_grid(2024);
    let out = heatmap(&grid, &counts);
    assert_eq!(out.columns.len(), grid.len());
    for (row, column) in grid.iter().zip(out.columns.iter()) {
        assert_eq!(column.len(), 7);
        for (slot, cell) in row.slots.iter().zip(column.iter()) {
            match slot {
                Slot::Blank => assert_eq!(*cell, RenderCell::Blank),
                Slot::InYear(d) => assert_eq!(*cell, RenderCell::Cell(*d, IntensityBucket::Zero)),
            }
        }
    }
    let last = out.columns.last().unwrap();
    assert_eq!(last[3], RenderCell::Blank);
    assert_eq!(last[2], RenderCell::Cell(day(2024, 12, 31), IntensityBucket::Zero));
}

#[test]
fn labels_and_separators_go_on_top_as_given() {
    let counts = count(&Vec::new(), 2021);
    let grid = build_grid(2021);
    let (labels, separators) = label_months(&grid);
    let out = assemble(&grid, &counts, labels.clone(), separators.clone());
    assert_eq!(out.labels, labels);
    assert_eq!(out.separators, separators);
    assert_eq!(out.labels.len(), out.columns.len());
    assert_eq!(out.separators.len(), out.columns.len() - 1);
}

#[test]
fn assembling_twice_gives_the_same_grid() {
    let dates = vec![day(2021, 7, 4), day(2021, 7, 4), day(2021, 12, 31), day(2020, 7, 4)];
    let counts = count(&dates, 2021);
    let grid = build_grid(2021);
    let (labels, separators) = label_months(&grid);
    let first = assemble(&grid, &counts, labels.clone(), separators.clone());
    let second = assemble(&grid, &counts, labels, separators);
    assert_eq!(first, second);
    assert_eq!(first, heatmap(&grid, &counts));
}

#[test]
fn a_month_without_commits_still_gets_its_one_label() {
    let dates = vec![day(2021, 1, 15), day(2021, 3, 1), day(2021, 3, 1)];
    let counts = count(&dates, 2021);
    let grid = build_grid(2021);
    let out = heatmap(&grid, &counts);
    let labelled: Vec<usize> =
        (0..out.labels.len()).filter(|i| out.labels[*i] == Some(2)).collect();
    assert_eq!(labelled, vec![6]);
    assert_eq!(grid[6].slots[0], Slot::InYear(day(2021, 2, 7)));
    let mut february_cells = 0;
    for column in &out.columns {
        for cell in column {
            if let RenderCell::Cell(d, bucket) = cell {
                if d.month() == 2 {
                    assert_eq!(*bucket, IntensityBucket::Zero);
                    february_cells += 1;
                }
            }
        }
    }
    assert_eq!(february_cells, 28);
}

#[test]
fn assemble_takes_rows_of_any_length() {
    let counts = count(&vec![day(2021, 5, 5)], 2021);
    let rows = vec![
        WeekRow { slots: vec![Slot::InYear(day(2021, 5, 5)), Slot::Blank], dominant_month: Some(5) },
        WeekRow { slots: Vec::new(), dominant_month: None },
    ];
    let out = assemble(&rows, &counts, vec![Some(5)], Vec::new());
    assert_eq!(
        out.columns,
        vec![
            vec![RenderCell::Cell(day(2021, 5, 5), IntensityBucket::Low), RenderCell::Blank],
            Vec::new(),
        ]
    );
    assert_eq!(out.labels, vec![Some(5)]);
    assert!(out.separators.is_empty());
}

#[test]
fn heatmap_of_no_rows_is_empty() {
    let counts = count(&Vec::new(), 2021);
    let out = heatmap(&Vec::new(), &counts);
    assert!(out.columns.is_empty());
    assert!(out.labels.is_empty());
    assert!(out.separators.is_empty());
}
