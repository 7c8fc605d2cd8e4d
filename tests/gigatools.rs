use vstat_pipe::gigatools::parse_gigatools;
use vstat_pipe::records::GigaToolsInfo;

#[test]
fn alert_line_reads_counters() {
    let line = "2024-01-01 10:00:00 probe STAT ALERT-count x y z 5 -3 +7 1000 2";
    let info = parse_gigatools(line).unwrap();
    assert_eq!(
        info,
        GigaToolsInfo { delta_plus: 5, delta_zero: -3, pcr_delta: 7, pcr_freq: 1000, lost_sync: 2 }
    );
}

#[test]
fn short_alert_line_reads_zeros() {
    let info = parse_gigatools("STAT ALERT-count only few tokens").unwrap();
    assert_eq!(
        info,
        GigaToolsInfo { delta_plus: 0, delta_zero: 0, pcr_delta: 0, pcr_freq: 0, lost_sync: 0 }
    );
}

#[test]
fn bad_counters_default_to_zero() {
    let line = "a b c d STAT ALERT-count e f 12x 4 99999999999999999999 - 8";
    let info = parse_gigatools(line).unwrap();
    assert_eq!(
        info,
        GigaToolsInfo { delta_plus: 0, delta_zero: 4, pcr_delta: 0, pcr_freq: 0, lost_sync: 8 }
    );
}

#[test]
fn double_spaces_make_empty_tokens() {
    let line = "STAT ALERT-count  a b c d e 1 2 3 4 5";
    let info = parse_gigatools(line).unwrap();
    assert_eq!(info.delta_plus, 1);
    assert_eq!(info.lost_sync, 5);
}

#[test]
fn other_lines_give_nothing() {
    assert!(parse_gigatools("STAT ALERT count 1 2 3").is_none());
    assert!(parse_gigatools("").is_none());
}
