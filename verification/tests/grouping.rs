use daily_blocks::date::{timestamp_to_naive_date, CalendarDate};
use daily_blocks::group::{
    batch_date, create_group_blocks_by_day_closure, group_blocks_by_day, DayGrouper,
};
use daily_blocks::ledger::Block;

fn block(time: u32) -> Block {
    Block { time, txdata: vec![] }
}

fn times(batch: &[Block]) -> Vec<u32> {
    batch.iter().map(|b| b.time).collect()
}

const JAN_1_23H: u32 = 1_609_542_000;
const JAN_2_00H05: u32 = 1_609_545_900;
const JAN_2_10H: u32 = 1_609_581_600;

#[test]
fn epoch_is_first_of_january_1970() {
    assert_eq!(timestamp_to_naive_date(0), CalendarDate { year: 1970, month: 1, day: 1 });
}

#[test]
fn last_second_of_a_day_and_first_of_the_next() {
    assert_eq!(timestamp_to_naive_date(86_399), CalendarDate { year: 1970, month: 1, day: 1 });
    assert_eq!(timestamp_to_naive_date(86_400), CalendarDate { year: 1970, month: 1, day: 2 });
}

#[test]
fn largest_timestamp_has_a_date() {
    assert_eq!(timestamp_to_naive_date(u32::MAX), CalendarDate { year: 2106, month: 2, day: 7 });
}

#[test]
fn leap_day_is_a_date() {
    // 2020-02-29T12:00:00Z
    assert_eq!(
        timestamp_to_naive_date(1_582_977_600),
        CalendarDate { year: 2020, month: 2, day: 29 }
    );
}

#[test]
fn dates_are_ordered_by_year_month_day() {
    let a = CalendarDate { year: 2020, month: 12, day: 31 };
    let b = CalendarDate { year: 2021, month: 1, day: 1 };
    let c = CalendarDate { year: 2021, month: 1, day: 2 };
    let d = CalendarDate { year: 2021, month: 2, day: 1 };
    assert!(a.is_before(&b));
    assert!(b.is_before(&c));
    assert!(c.is_before(&d));
    assert!(!b.is_before(&a));
    assert!(!b.is_before(&b));
    assert!(!d.is_before(&c));
}

#[test]
fn three_blocks_over_midnight_make_two_batches() {
    let batches = group_blocks_by_day(vec![block(JAN_1_23H), block(JAN_2_00H05), block(JAN_2_10H)]);
    assert_eq!(batches.len(), 2);
    assert_eq!(times(&batches[0]), vec![JAN_1_23H]);
    assert_eq!(times(&batches[1]), vec![JAN_2_00H05, JAN_2_10H]);
    assert_eq!(
        timestamp_to_naive_date(batches[0][0].time),
        CalendarDate { year: 2021, month: 1, day: 1 }
    );
    assert_eq!(
        timestamp_to_naive_date(batches[1][0].time),
        CalendarDate { year: 2021, month: 1, day: 2 }
    );
}

#[test]
fn empty_stream_has_no_batch() {
    assert!(group_blocks_by_day(vec![]).is_empty());
    let mut grouper = DayGrouper::new();
    assert!(grouper.finish().is_none());
}

#[test]
fn single_block_is_one_batch() {
    let batches = group_blocks_by_day(vec![block(5)]);
    assert_eq!(batches.len(), 1);
    assert_eq!(times(&batches[0]), vec![5]);
}

#[test]
fn days_without_blocks_make_no_batch() {
    let day = 86_400;
    let batches = group_blocks_by_day(vec![block(10), block(20), block(5 * day), block(9 * day + 1)]);
    assert_eq!(batches.len(), 3);
    assert_eq!(times(&batches[0]), vec![10, 20]);
    assert_eq!(times(&batches[1]), vec![5 * day]);
    assert_eq!(times(&batches[2]), vec![9 * day + 1]);
}

#[test]
fn batches_joined_are_the_stream() {
    let day = 86_400;
    let stream: Vec<u32> =
        vec![0, 1, day - 1, day, day + 7, 2 * day, 2 * day, 3 * day + 5, 10 * day, 10 * day + 1];
    let batches = group_blocks_by_day(stream.iter().map(|t| block(*t)).collect());
    let mut joined: Vec<u32> = vec![];
    for batch in &batches {
        assert!(!batch.is_empty());
        let first = timestamp_to_naive_date(batch[0].time);
        for b in batch {
            assert_eq!(timestamp_to_naive_date(b.time), first);
            joined.push(b.time);
        }
    }
    assert_eq!(joined, stream);
    assert_eq!(batches.len(), 5);
}

#[test]
fn grouping_twice_gives_the_same_batches() {
    let day = 86_400;
    let stream: Vec<u32> = vec![3, 4, day, day + 1, 4 * day];
    let first = group_blocks_by_day(stream.iter().map(|t| block(*t)).collect());
    let second = group_blocks_by_day(stream.iter().map(|t| block(*t)).collect());
    assert_eq!(first, second);
}

#[test]
fn grouper_hands_out_a_batch_when_a_later_day_comes() {
    let mut grouper = create_group_blocks_by_day_closure();
    assert!(grouper.push(block(JAN_1_23H)).is_none());
    let first = grouper.push(block(JAN_2_00H05));
    assert_eq!(times(&first.unwrap()), vec![JAN_1_23H]);
    assert!(grouper.push(block(JAN_2_10H)).is_none());
    let second = grouper.finish();
    assert_eq!(times(&second.unwrap()), vec![JAN_2_00H05, JAN_2_10H]);
    assert!(grouper.finish().is_none());
}

#[test]
fn block_of_an_earlier_day_joins_the_group() {
    let day = 86_400;
    let batches = group_blocks_by_day(vec![block(2 * day), block(day), block(3 * day)]);
    assert_eq!(batches.len(), 2);
    assert_eq!(times(&batches[0]), vec![2 * day, day]);
    assert_eq!(times(&batches[1]), vec![3 * day]);
}

#[test]
fn date_of_a_batch_is_that_of_its_first_block() {
    let batch = vec![block(JAN_2_00H05), block(JAN_2_10H)];
    assert_eq!(batch_date(&batch), Some(CalendarDate { year: 2021, month: 1, day: 2 }));
    assert_eq!(batch_date(&vec![]), None);
}

#[test]
fn later_timestamps_never_fall_on_earlier_days() {
    let times: Vec<u32> = vec![
        0,
        86_399,
        86_400,
        951_782_399,
        951_782_400,
        951_868_800,
        1_609_459_199,
        1_609_459_200,
        4_102_444_800,
        u32::MAX,
    ];
    for pair in times.windows(2) {
        let earlier = timestamp_to_naive_date(pair[0]);
        let later = timestamp_to_naive_date(pair[1]);
        assert!(!later.is_before(&earlier));
    }
}
