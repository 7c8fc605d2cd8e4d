use vstat_pipe::sink::{Delivery, HttpFormat, HttpOut};

#[test]
fn failure_opens_a_ten_second_quiet_window() {
    let mut out = HttpOut::new("http://localhost/ingest".to_string(), HttpFormat::Json, 0, 1_000);
    assert_eq!(out.decide(1_000), Delivery::Send);
    out.record_outcome(false, 2_000);
    assert_eq!(out.decide(2_000), Delivery::Skip);
    assert_eq!(out.decide(11_999), Delivery::Skip);
    assert_eq!(out.decide(12_000), Delivery::Send);
}

#[test]
fn success_clears_the_failure() {
    let mut out = HttpOut::new("http://localhost/ingest".to_string(), HttpFormat::MsgPack, 0, 0);
    out.record_outcome(false, 100);
    out.record_outcome(true, 10_100);
    assert_eq!(out.last_fail_milliseconds, None);
    assert_eq!(out.last_sent_milliseconds, 10_100);
    assert_eq!(out.decide(10_101), Delivery::Send);
}

#[test]
fn debounce_window_holds_records_back() {
    let mut out = HttpOut::new("http://localhost/ingest".to_string(), HttpFormat::Json, 500, 1_000);
    assert_eq!(out.wait_msec, Some(500));
    assert_eq!(out.decide(1_499), Delivery::Skip);
    assert_eq!(out.decide(1_500), Delivery::Send);
    out.record_outcome(true, 1_500);
    assert_eq!(out.decide(1_600), Delivery::Skip);
    assert_eq!(out.decide(2_000), Delivery::Send);
}

#[test]
fn extreme_times_do_not_overflow() {
    let mut out = HttpOut::new("u".to_string(), HttpFormat::Json, 1, i64::MIN);
    assert_eq!(out.decide(i64::MAX), Delivery::Send);
    out.record_outcome(false, i64::MAX);
    assert_eq!(out.decide(i64::MIN), Delivery::Skip);
}
