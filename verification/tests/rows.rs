use resource_chart::chartperiod::ChartPeriod;
use resource_chart::chartrow::{ChartRow, RowError, TransferResult};

fn period(first: u32, last: u32) -> ChartPeriod {
    ChartPeriod::new(first, last).unwrap()
}

fn row_with(width: u32, cells: &[u32]) -> ChartRow {
    let mut row = ChartRow::new(width);
    for c in cells {
        row.set(*c).unwrap();
    }
    row
}

fn set_cells(row: &ChartRow) -> Vec<u32> {
    (0..row.get_num_cells()).filter(|c| row.is_set(*c)).collect()
}

#[test]
fn row_new_row_has_no_cell_set() {
    let row = ChartRow::new(40);
    assert_eq!(row.count(), 0);
    assert_eq!(set_cells(&row), Vec::<u32>::new());
    assert_eq!(row.get_num_cells(), 40);
}

#[test]
fn row_set_and_unset_change_one_cell() {
    let mut row = ChartRow::new(40);
    assert_eq!(row.set(9), Ok(()));
    assert_eq!(row.set(17), Ok(()));
    assert_eq!(row.set(39), Ok(()));
    assert_eq!(set_cells(&row), vec![9, 17, 39]);
    assert_eq!(row.unset(17), Ok(()));
    assert_eq!(set_cells(&row), vec![9, 39]);
    assert_eq!(row.unset(3), Ok(()));
    assert_eq!(row.unset(30), Ok(()));
    assert_eq!(set_cells(&row), vec![9, 39]);
    assert_eq!(row.set(9), Ok(()));
    assert_eq!(row.count(), 2);
}

#[test]
fn row_cells_beyond_the_row_are_refused() {
    let mut row = ChartRow::new(40);
    assert_eq!(row.set(40), Err(RowError::CellOutOfRange { cell: 40, width: 40 }));
    assert_eq!(row.unset(41), Err(RowError::CellOutOfRange { cell: 41, width: 40 }));
    assert!(!row.is_set(40));
    assert!(!row.is_set(u32::MAX));
    assert_eq!(row.count(), 0);
    let mut empty = ChartRow::new(0);
    assert_eq!(empty.set(0), Err(RowError::CellOutOfRange { cell: 0, width: 0 }));
}

#[test]
fn row_set_range_sets_the_whole_period() {
    let mut row = ChartRow::new(40);
    assert_eq!(row.set_range(&period(5, 12)), Ok(()));
    assert_eq!(set_cells(&row), (5..=12).collect::<Vec<u32>>());
}

#[test]
fn row_set_range_beyond_the_row_sets_what_fits() {
    let mut row = ChartRow::new(10);
    assert_eq!(
        row.set_range(&period(7, 12)),
        Err(RowError::CellOutOfRange { cell: 10, width: 10 })
    );
    assert_eq!(set_cells(&row), vec![7, 8, 9]);
    assert_eq!(
        row.set_range(&period(20, 22)),
        Err(RowError::CellOutOfRange { cell: 20, width: 10 })
    );
    assert_eq!(set_cells(&row), vec![7, 8, 9]);
}

#[test]
fn row_count_range_counts_within_the_period() {
    let row = row_with(40, &[0, 1, 5, 19, 20, 39]);
    assert_eq!(row.count_range(&period(0, 19)), 4);
    assert_eq!(row.count_range(&period(20, 39)), 2);
    assert_eq!(row.count_range(&period(1, 5)), 2);
    assert_eq!(row.count_range(&period(6, 18)), 0);
    assert_eq!(row.count_range(&period(30, 1000)), 1);
    assert_eq!(row.count_range(&period(40, 1000)), 0);
    assert_eq!(row.count(), 6);
}

#[test]
fn row_weekly_numbers_count_each_week() {
    let row = row_with(45, &[0, 1, 19, 20, 25, 26, 27, 40, 44]);
    assert_eq!(row.get_weekly_numbers(), vec![3, 4, 2]);
    assert_eq!(ChartRow::new(40).get_weekly_numbers(), vec![0, 0]);
    assert_eq!(ChartRow::new(41).get_weekly_numbers(), vec![0, 0, 0]);
    assert_eq!(ChartRow::new(0).get_weekly_numbers(), Vec::<u32>::new());
}

#[test]
fn row_weekly_numbers_do_not_count_the_next_week() {
    let mut row = ChartRow::new(40);
    row.set_range(&period(0, 39)).unwrap();
    assert_eq!(row.get_weekly_numbers(), vec![20, 20]);
}

#[test]
fn row_weekly_summary_has_three_characters_a_week() {
    let mut row = ChartRow::new(60);
    row.set_range(&period(0, 19)).unwrap();
    row.set(45).unwrap();
    assert_eq!(row.get_weekly_summary(), " 20     1");
}

#[test]
fn row_to_string_draws_the_cells() {
    assert_eq!(row_with(6, &[1, 4]).to_string(), "[_o__o_]");
    assert_eq!(ChartRow::new(0).to_string(), "[]");
}

#[test]
fn row_transfer_result_records_moves() {
    let mut r = TransferResult::new(3);
    assert_eq!(r.to_transfer(), 3);
    assert_eq!(r.transfer(7), Ok(()));
    assert_eq!(r.transfer(2), Ok(()));
    assert_eq!(r.transfer(5), Ok(()));
    assert_eq!(
        r,
        TransferResult { earliest: Some(2), latest: Some(7), transferred: 3, failed: 0 }
    );
    assert_eq!(r.transfer(9), Err(RowError::TooManyTransfers));
    assert_eq!(
        r,
        TransferResult { earliest: Some(2), latest: Some(7), transferred: 3, failed: 0 }
    );
}

#[test]
fn row_fill_takes_the_lowest_cells() {
    let mut dev = row_with(40, &[2, 3, 4, 10, 11, 30]);
    let mut task = row_with(40, &[3, 20]);
    let r = dev.fill_transfer_to(&mut task, 3, &period(0, 39)).unwrap();
    assert_eq!(
        r,
        TransferResult { earliest: Some(2), latest: Some(10), transferred: 3, failed: 0 }
    );
    assert_eq!(set_cells(&dev), vec![3, 11, 30]);
    assert_eq!(set_cells(&task), vec![2, 3, 4, 10, 20]);
}

#[test]
fn row_fill_stays_inside_the_period() {
    let mut dev = row_with(40, &[2, 3, 4, 10, 11, 30]);
    let mut task = ChartRow::new(40);
    let r = dev.fill_transfer_to(&mut task, 5, &period(4, 11)).unwrap();
    assert_eq!(
        r,
        TransferResult { earliest: Some(4), latest: Some(11), transferred: 3, failed: 2 }
    );
    assert_eq!(set_cells(&dev), vec![2, 3, 30]);
    assert_eq!(set_cells(&task), vec![4, 10, 11]);
}

#[test]
fn row_fill_of_no_cells_moves_nothing() {
    let mut dev = row_with(40, &[2, 3]);
    let mut task = ChartRow::new(40);
    let r = dev.fill_transfer_to(&mut task, 0, &period(0, 39)).unwrap();
    assert_eq!(r, TransferResult { earliest: None, latest: None, transferred: 0, failed: 0 });
    assert_eq!(set_cells(&dev), vec![2, 3]);
    assert_eq!(task.count(), 0);
}

#[test]
fn row_fill_into_a_narrower_row_stops_at_its_end() {
    let mut dev = row_with(40, &[8, 9, 10, 11]);
    let mut task = ChartRow::new(10);
    assert_eq!(
        dev.fill_transfer_to(&mut task, 3, &period(0, 39)),
        Err(RowError::CellOutOfRange { cell: 10, width: 10 })
    );
    assert_eq!(set_cells(&dev), vec![10, 11]);
    assert_eq!(set_cells(&task), vec![8, 9]);
    let mut dev = row_with(40, &[8, 9, 10, 11]);
    let mut task = ChartRow::new(10);
    assert!(dev.fill_transfer_to(&mut task, 2, &period(0, 39)).is_ok());
}

#[test]
fn row_reverse_fill_takes_the_highest_cells() {
    let mut dev = row_with(40, &[2, 3, 4, 10, 11, 30, 39]);
    let mut task = row_with(40, &[30]);
    let r = dev.reverse_fill_transfer_to(&mut task, 3, &period(0, 39)).unwrap();
    assert_eq!(
        r,
        TransferResult { earliest: Some(10), latest: Some(39), transferred: 3, failed: 0 }
    );
    assert_eq!(set_cells(&dev), vec![2, 3, 4, 30]);
    assert_eq!(set_cells(&task), vec![10, 11, 30, 39]);
}

#[test]
fn row_reverse_fill_reaches_both_ends_of_the_period() {
    let mut dev = ChartRow::new(40);
    dev.set_range(&period(0, 39)).unwrap();
    let mut task = ChartRow::new(40);
    let r = dev.reverse_fill_transfer_to(&mut task, 100, &period(0, 39)).unwrap();
    assert_eq!(
        r,
        TransferResult { earliest: Some(0), latest: Some(39), transferred: 40, failed: 60 }
    );
    assert_eq!(dev.count(), 0);
    assert_eq!(task.count(), 40);
}

#[test]
fn row_reverse_fill_into_a_narrower_row_moves_nothing() {
    let mut dev = row_with(40, &[8, 9, 10, 11]);
    let mut task = ChartRow::new(10);
    assert_eq!(
        dev.reverse_fill_transfer_to(&mut task, 1, &period(0, 39)),
        Err(RowError::CellOutOfRange { cell: 11, width: 10 })
    );
    assert_eq!(set_cells(&dev), vec![8, 9, 10, 11]);
    assert_eq!(task.count(), 0);
    assert!(dev.reverse_fill_transfer_to(&mut task, 0, &period(0, 39)).is_ok());
    assert!(dev.reverse_fill_transfer_to(&mut task, 2, &period(0, 9)).is_ok());
    assert_eq!(set_cells(&task), vec![8, 9]);
}

#[test]
fn row_smear_spreads_evenly() {
    let mut dev = ChartRow::new(40);
    dev.set_range(&period(0, 39)).unwrap();
    let mut task = ChartRow::new(40);
    let r = dev.smear_transfer_to(&mut task, 4, period(0, 39)).unwrap();
    assert_eq!(
        r,
        TransferResult { earliest: Some(0), latest: Some(30), transferred: 4, failed: 0 }
    );
    assert_eq!(set_cells(&task), vec![0, 10, 20, 30]);
    assert_eq!(task.get_weekly_numbers(), vec![2, 2]);
    assert_eq!(dev.count(), 36);
}

#[test]
fn row_smear_runs_again_to_fill_gaps() {
    // Every other cell is free: the first pass misses the targets that fall
    // on taken cells, and later passes make up for it.
    let mut dev = row_with(8, &[1, 3, 5, 7]);
    let mut task = ChartRow::new(8);
    let r = dev.smear_transfer_to(&mut task, 4, period(0, 7)).unwrap();
    assert_eq!(r.transferred, 4);
    assert_eq!(r.failed, 0);
    assert_eq!(set_cells(&task), vec![1, 3, 5, 7]);
    assert_eq!(dev.count(), 0);
}

#[test]
fn row_smear_reports_what_it_cannot_place() {
    let mut dev = row_with(20, &[4, 5]);
    let mut task = row_with(20, &[5]);
    let r = dev.smear_transfer_to(&mut task, 3, period(0, 19)).unwrap();
    assert_eq!(
        r,
        TransferResult { earliest: Some(4), latest: Some(4), transferred: 1, failed: 2 }
    );
    assert_eq!(set_cells(&dev), vec![5]);
    assert_eq!(set_cells(&task), vec![4, 5]);
}

#[test]
fn row_smear_of_no_cells_moves_nothing() {
    let mut dev = row_with(20, &[4, 5]);
    let mut task = ChartRow::new(20);
    let r = dev.smear_transfer_to(&mut task, 0, period(0, 19)).unwrap();
    assert_eq!(r, TransferResult { earliest: None, latest: None, transferred: 0, failed: 0 });
    assert_eq!(set_cells(&dev), vec![4, 5]);
}

#[test]
fn row_smear_into_a_narrower_row_stops_at_its_end() {
    let mut dev = ChartRow::new(20);
    dev.set_range(&period(0, 19)).unwrap();
    let mut task = ChartRow::new(10);
    assert_eq!(
        dev.smear_transfer_to(&mut task, 4, period(0, 19)),
        Err(RowError::CellOutOfRange { cell: 10, width: 10 })
    );
    assert_eq!(set_cells(&task), vec![0, 5]);
    assert_eq!(dev.count(), 18);
}

#[test]
fn row_every_transfer_accounts_for_each_cell() {
    let free = [0u32, 1, 2, 7, 8, 13, 21, 22, 23, 24, 38, 39];
    let held = [1u32, 8, 9, 30];
    for policy in 0..3 {
        for count in [0u32, 1, 3, 9, 10, 50] {
            let mut dev = row_with(40, &free);
            let mut task = row_with(40, &held);
            let before_dev = dev.count();
            let before_task = task.count();
            let p = period(1, 38);
            let r = match policy {
                0 => dev.fill_transfer_to(&mut task, count, &p),
                1 => dev.reverse_fill_transfer_to(&mut task, count, &p),
                _ => dev.smear_transfer_to(&mut task, count, p),
            }
            .unwrap();
            assert_eq!(r.transferred + r.failed, count);
            assert_eq!(before_dev - dev.count(), r.transferred);
            assert_eq!(task.count() - before_task, r.transferred);
            assert!(dev.count() <= before_dev);
            let mut moved = 0;
            for c in 0..40u32 {
                let was_free = free.contains(&c);
                let was_held = held.contains(&c);
                if task.is_set(c) && !was_held {
                    moved += 1;
                    assert!(was_free && !dev.is_set(c));
                    assert!(p.get_first() <= c && c <= p.get_last());
                    assert!(r.earliest.unwrap() <= c && c <= r.latest.unwrap());
                } else {
                    assert_eq!(dev.is_set(c), was_free);
                    assert_eq!(task.is_set(c), was_held);
                }
            }
            assert_eq!(moved, r.transferred);
            assert_eq!(r.transferred, count.min(8));
        }
    }
}
