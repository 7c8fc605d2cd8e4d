use vstat_pipe::tsp::{parse_tsp_continuity, parse_tsp_history, TdtClock};

#[test]
fn continuity_line_parses() {
    let c = parse_tsp_continuity("* continuity: packet index: 1,234, PID: 0x0100, missing 5 packets").unwrap();
    assert_eq!(c.program_pid, "0x0100");
    assert_eq!(c.missing_count, 5);
}

#[test]
fn continuity_count_too_large_reads_zero() {
    let c = parse_tsp_continuity("continuity: x PID: 7, missing 99999999999999999999 packet").unwrap();
    assert_eq!(c.program_pid, "7");
    assert_eq!(c.missing_count, 0);
}

#[test]
fn continuity_needs_its_words() {
    assert!(parse_tsp_continuity("continuity: PID: 7, missing 3 packet").is_none());
    assert!(parse_tsp_continuity("continuity: x PID: 7, lost 3 packet").is_none());
    assert!(parse_tsp_continuity("").is_none());
}

#[test]
fn continuity_agrees_with_regex_engine() {
    let re = regex::Regex::new(r"continuity:.+ PID: (?<program_pid>.+), missing (?<missing_count>\d+) packet").unwrap();
    let lines = [
        "* continuity: packet index: 1,234, PID: 0x0100, missing 5 packets",
        "continuity: a PID: x PID: y, missing 3 packet, missing 4 packet",
        "continuity: a PID: b, missing 1 packet PID: c, missing 2 packet",
        "continuity:  PID: é, missing 12 packets",
        "continuity: a PID: b, missing 1 packets\ncontinuity: z PID: w, missing 9 packet",
        "no continuity: here PID: , missing 1 packet",
    ];
    for line in lines.iter() {
        let ours = parse_tsp_continuity(line);
        match re.captures(line) {
            None => assert!(ours.is_none(), "{}", line),
            Some(c) => {
                let got = ours.unwrap();
                assert_eq!(got.program_pid, &c["program_pid"], "{}", line);
                assert_eq!(got.missing_count, c["missing_count"].parse::<i64>().unwrap_or(0), "{}", line);
            }
        }
    }
}

#[test]
fn tdt_going_back_is_a_reset() {
    let mut clock = TdtClock::new();
    let first = parse_tsp_history(&mut clock, "* history: 100: TDT: 2024/01/01 00:00:10 UTC").unwrap();
    assert_eq!(first.tdt_datetime_ms, Some(1_704_067_210_000));
    assert!(!first.is_reset);
    assert_eq!(first.program_pid, None);
    let second = parse_tsp_history(&mut clock, "* history: 200: TDT: 2024/01/01 00:00:05 UTC").unwrap();
    assert_eq!(second.tdt_datetime_ms, Some(1_704_067_205_000));
    assert!(second.is_reset);
    assert_eq!(clock.latest_tdt_ms, Some(1_704_067_205_000));
}

#[test]
fn tdt_repeated_is_a_reset_and_forward_is_not() {
    let mut clock = TdtClock::new();
    assert!(!parse_tsp_history(&mut clock, "* history: 1: TDT: 1999/12/31 23:59:59").unwrap().is_reset);
    assert!(parse_tsp_history(&mut clock, "* history: 2: TDT: 1999/12/31 23:59:59").unwrap().is_reset);
    let later = parse_tsp_history(&mut clock, "* history: 3: TDT: 2000/01/01 00:00:00").unwrap();
    assert!(!later.is_reset);
    assert_eq!(later.tdt_datetime_ms, Some(946_684_800_000));
}

#[test]
fn tdt_before_epoch_and_leap_day() {
    let mut clock = TdtClock::new();
    let old = parse_tsp_history(&mut clock, "* history: 1: TDT: 1969/12/31 23:59:59").unwrap();
    assert_eq!(old.tdt_datetime_ms, Some(-1000));
    let leap = parse_tsp_history(&mut clock, "* history: 2: TDT: 2024/02/29 12:00:00").unwrap();
    assert_eq!(leap.tdt_datetime_ms, Some(1_709_208_000_000));
}

#[test]
fn impossible_tdt_gives_nothing_and_keeps_clock() {
    let mut clock = TdtClock::new();
    assert!(parse_tsp_history(&mut clock, "* history: 1: TDT: 2023/02/29 00:00:00").is_none());
    assert!(parse_tsp_history(&mut clock, "* history: 1: TDT: 2023/01/01 24:00:00").is_none());
    assert_eq!(clock.latest_tdt_ms, None);
}

#[test]
fn pid_action_parses() {
    let mut clock = TdtClock::new();
    let h = parse_tsp_history(&mut clock, "* history: 5000: PID 256 (0x0100) first packet, no PUSI").unwrap();
    assert_eq!(h.program_pid, Some("0x0100".to_string()));
    assert_eq!(h.action, Some("first packet".to_string()));
    assert_eq!(h.tdt_datetime_ms, None);
    assert!(!h.is_reset);
    assert_eq!(clock.latest_tdt_ms, None);
}

#[test]
fn unclassified_history_gives_nothing() {
    let mut clock = TdtClock::new();
    assert!(parse_tsp_history(&mut clock, "* history: 12: something else").is_none());
    assert!(parse_tsp_history(&mut clock, "history: 12: TDT: 2024/01/01 00:00:10").is_none());
    assert!(parse_tsp_history(&mut clock, "* history: x: TDT: 2024/01/01 00:00:10").is_none());
}

#[test]
fn history_agrees_with_regex_engine() {
    let hist = regex::Regex::new(r"\* history: (?<packet_number>\d+): (?<message>.+)").unwrap();
    let pid = regex::Regex::new(r"PID \d+ \((?<pid>0x\d+)\) (?<action>[^,]+)").unwrap();
    let lines = [
        "* history: 7: PID 33 (0x0021) scrambled, since 1",
        "junk * history: 7: x PID 33 (0x0021) ends here",
        "* history: 7: PID 33 (0x0021) caf\u{e9}",
    ];
    for line in lines.iter() {
        let mut clock = TdtClock::new();
        let ours = parse_tsp_history(&mut clock, line).unwrap();
        let message = hist.captures(line).unwrap()["message"].to_string();
        let c = pid.captures(&message).unwrap();
        assert_eq!(ours.program_pid, Some(c["pid"].to_string()));
        assert_eq!(ours.action, Some(c["action"].to_string()));
    }
}
