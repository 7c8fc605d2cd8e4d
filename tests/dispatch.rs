use vstat_pipe::dispatch::{process_line, ParserMode};
use vstat_pipe::records::ParseInfo;
use vstat_pipe::reassembly::LineReassembler;
use vstat_pipe::tsp::TdtClock;

#[test]
fn raw_mode_passes_every_line() {
    let mut clock = TdtClock::new();
    let info = process_line(ParserMode::Raw, &mut clock, "anything at all".to_string()).unwrap();
    assert_eq!(info.raw_line, "anything at all");
    assert!(info.parse_info.is_none());
}

#[test]
fn unmatched_lines_give_no_record_in_every_mode() {
    let modes = [
        ParserMode::FfmpegVstatV1,
        ParserMode::FfmpegVstatV2,
        ParserMode::GigaTools,
        ParserMode::TspContinuity,
        ParserMode::TspHistory,
    ];
    for mode in modes.iter() {
        let mut clock = TdtClock::new();
        for line in ["", "plain text", "frame= x", "* history: 1: nothing"].iter() {
            assert!(process_line(*mode, &mut clock, line.to_string()).is_none());
        }
        assert_eq!(clock.latest_tdt_ms, None);
    }
}

#[test]
fn each_mode_wraps_its_record() {
    let mut clock = TdtClock::new();
    let line = "out= 1 st= 0 frame= 10 q= 23.0 f_size= 1200 s_size= 340kB time= 12.340 br= 512.0kbits/s avg_br= 500.0kbits/s type= I";
    let info = process_line(ParserMode::FfmpegVstatV2, &mut clock, line.to_string()).unwrap();
    assert_eq!(info.raw_line, line);
    assert!(matches!(info.parse_info, Some(ParseInfo::Ffmpeg(_))));
    assert!(process_line(ParserMode::FfmpegVstatV1, &mut clock, line.to_string()).is_some());

    let info = process_line(ParserMode::GigaTools, &mut clock, "STAT ALERT-count".to_string()).unwrap();
    assert!(matches!(info.parse_info, Some(ParseInfo::GigaTools(_))));

    let info = process_line(ParserMode::TspContinuity, &mut clock, "continuity: a PID: 9, missing 2 packet".to_string()).unwrap();
    match info.parse_info {
        Some(ParseInfo::TspContinuity(c)) => assert_eq!(c.missing_count, 2),
        _ => panic!("expected a continuity record"),
    }

    let info = process_line(ParserMode::TspHistory, &mut clock, "* history: 1: TDT: 2024/01/01 00:00:10".to_string()).unwrap();
    assert!(matches!(info.parse_info, Some(ParseInfo::TspHistory(_))));
    assert_eq!(clock.latest_tdt_ms, Some(1_704_067_210_000));
}

fn replay(mode: ParserMode, chunks: &[&[u8]]) -> Vec<(String, String)> {
    let mut reassembler = LineReassembler::new();
    let mut clock = TdtClock::new();
    let mut out = Vec::new();
    for chunk in chunks {
        for line in reassembler.push_chunk(chunk).unwrap() {
            if let Some(info) = process_line(mode, &mut clock, line) {
                let summary = match info.parse_info {
                    Some(ParseInfo::TspHistory(h)) => format!("{:?} {}", h.tdt_datetime_ms, h.is_reset),
                    Some(_) => "record".to_string(),
                    None => "raw".to_string(),
                };
                out.push((info.raw_line, summary));
            }
        }
    }
    out
}

#[test]
fn replaying_the_same_bytes_gives_the_same_records() {
    let chunks: [&[u8]; 3] = [
        b"* history: 1: TDT: 2024/01/01 00:00:10\n* hist",
        b"ory: 2: TDT: 2024/01/01 00:00:05\nnoise\n",
        b"* history: 3: PID 1 (0x01) gone, x\n",
    ];
    let first = replay(ParserMode::TspHistory, &chunks);
    let second = replay(ParserMode::TspHistory, &chunks);
    assert_eq!(first, second);
    assert_eq!(first.len(), 3);
    assert_eq!(first[1].1, "Some(1704067205000) true");
}
