use tidecalc::clock::{DateTime, TimeOfDay};
use tidecalc::tide::{anchor_given, anchor_times, render_table, sample_offsets};

fn hm(hour: u32, minute: u32) -> TimeOfDay {
    TimeOfDay { hour, minute, second: 0 }
}

#[test]
fn end_rolls_to_next_day() {
    let (start, end) = anchor_times(100, Some(hm(22, 0)), Some(hm(2, 0)));
    assert_eq!(start, DateTime { day: 100, ms: 79_200_000 });
    assert_eq!(end, DateTime { day: 101, ms: 7_200_000 });
    assert_eq!(start.millis_until(&end), 4 * 3_600_000);
}

#[test]
fn end_stays_on_same_day() {
    let (start, end) = anchor_times(100, Some(hm(0, 0)), Some(hm(12, 0)));
    assert_eq!(start, DateTime { day: 100, ms: 0 });
    assert_eq!(end, DateTime { day: 100, ms: 43_200_000 });
}

#[test]
fn equal_times_span_a_day() {
    let (start, end) = anchor_times(5, Some(hm(6, 0)), Some(hm(6, 0)));
    assert_eq!(end.day, start.day + 1);
    assert_eq!(start.millis_until(&end), 86_400_000);
}

#[test]
fn missing_times_read_as_midnight() {
    let (start, end) = anchor_times(5, None, None);
    assert_eq!(start, DateTime { day: 5, ms: 0 });
    assert_eq!(end, DateTime { day: 6, ms: 0 });
    let (start, end) = anchor_times(5, None, Some(hm(3, 0)));
    assert_eq!(start, DateTime { day: 5, ms: 0 });
    assert_eq!(end, DateTime { day: 5, ms: 10_800_000 });
}

#[test]
fn given_anchors_roll_against_end() {
    let (start, end) = anchor_given(9, Some(hm(22, 0)), Some(hm(2, 0)));
    assert_eq!(start, Some(DateTime { day: 9, ms: 79_200_000 }));
    assert_eq!(end, Some(DateTime { day: 10, ms: 7_200_000 }));
    let (start, end) = anchor_given(9, Some(hm(2, 0)), Some(hm(22, 0)));
    assert_eq!(start, Some(DateTime { day: 9, ms: 7_200_000 }));
    assert_eq!(end, Some(DateTime { day: 9, ms: 79_200_000 }));
}

#[test]
fn given_anchors_may_be_missing() {
    assert_eq!(anchor_given(9, None, None), (None, None));
    assert_eq!(anchor_given(9, None, Some(hm(2, 0))), (None, Some(DateTime { day: 9, ms: 7_200_000 })));
    assert_eq!(anchor_given(9, Some(hm(2, 0)), None), (Some(DateTime { day: 9, ms: 7_200_000 }), None));
}

#[test]
fn offsets_include_exact_end() {
    assert_eq!(sample_offsets(3_600_000, 1_800_000), vec![0, 1_800_000, 3_600_000]);
}

#[test]
fn offsets_stop_before_end() {
    assert_eq!(sample_offsets(3_600_000, 2_500_000), vec![0, 2_500_000]);
    assert_eq!(sample_offsets(0, 60_000), vec![0]);
}

#[test]
fn offsets_need_positive_step() {
    assert_eq!(sample_offsets(3_600_000, 0), Vec::<i64>::new());
    assert_eq!(sample_offsets(3_600_000, -60_000), Vec::<i64>::new());
}

#[test]
fn half_hour_table() {
    let (start, end) = anchor_times(0, Some(hm(0, 0)), Some(hm(1, 0)));
    let offsets = sample_offsets(start.millis_until(&end), 30 * 60_000);
    let values = vec!["0.00".to_string(), "5.00".to_string(), "10.00".to_string()];
    assert_eq!(
        render_table(&start, &end, &offsets, &values),
        "00:00:00 -- 0.00\n00:30:00 -- 5.00\n01:00:00 -- 10.00"
    );
}

#[test]
fn table_across_midnight() {
    let (start, end) = anchor_times(0, Some(hm(23, 0)), Some(hm(1, 0)));
    let offsets = sample_offsets(start.millis_until(&end), 60 * 60_000);
    let values = vec!["1.00".to_string(), "2.00".to_string(), "3.00".to_string()];
    assert_eq!(
        render_table(&start, &end, &offsets, &values),
        "23:00:00 -- 1.00\n00:00:00 -- 2.00\n01:00:00 -- 3.00"
    );
}

#[test]
fn empty_table() {
    let (start, end) = anchor_times(0, Some(hm(0, 0)), Some(hm(1, 0)));
    assert_eq!(render_table(&start, &end, &Vec::new(), &Vec::new()), "");
}
