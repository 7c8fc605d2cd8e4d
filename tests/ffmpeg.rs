use vstat_pipe::ffmpeg::{parse_ffmpeg_vstat, NumberKind, VstatError, VstatField, VstatGrammar};
use vstat_pipe::number::Decimal;

fn as_f64(d: Decimal) -> f64 {
    format!("{}e-{}", d.units, d.scale).parse::<f64>().unwrap()
}

const V2_LINE: &str = "out= 1 st= 0 frame= 10 q= 23.0 f_size= 1200 s_size= 340kB time= 12.340 br= 512.0kbits/s avg_br= 500.0kbits/s type= I";

#[test]
fn v2_line_parses_all_fields() {
    let info = parse_ffmpeg_vstat(V2_LINE, VstatGrammar::V2).ok().unwrap();
    assert_eq!(info.frame_number, 10);
    assert_eq!(info.frame_quality, Decimal { units: 230, scale: 1 });
    assert_eq!(as_f64(info.frame_quality), 23.0);
    assert_eq!(info.packet_size_bytes, 1200);
    assert_eq!(info.stream_size_kbytes, 340);
    assert_eq!(info.timestamp, Decimal { units: 12340, scale: 3 });
    assert_eq!(as_f64(info.timestamp), 12.340);
    assert_eq!(info.picture_type, "I");
    assert_eq!(as_f64(info.bitrate_kbps), 512.0);
    assert_eq!(as_f64(info.avg_bitrate_kbps), 500.0);
    assert_eq!(info.index, Some("1:0".to_string()));
}

#[test]
fn v1_line_has_no_index() {
    let line = "frame=   250 q= 28.5 f_size=  4096 s_size=   1024kB time=  10.000 br=  800.5kbits/s avg_br=  790.25kbits/s type= P";
    let info = parse_ffmpeg_vstat(line, VstatGrammar::V1).ok().unwrap();
    assert_eq!(info.index, None);
    assert_eq!(info.frame_number, 250);
    assert_eq!(info.avg_bitrate_kbps, Decimal { units: 79025, scale: 2 });
    assert_eq!(info.picture_type, "P");
}

#[test]
fn v2_accepts_kibibytes() {
    let line = V2_LINE.replace("340kB", "340KiB");
    let info = parse_ffmpeg_vstat(&line, VstatGrammar::V2).ok().unwrap();
    assert_eq!(info.stream_size_kbytes, 340);
}

#[test]
fn v1_grammar_misses_v2_only_unit() {
    let line = "frame= 1 q= 1.0 f_size= 1 s_size= 1KiB time= 1.0 br= 1.0kbits/s avg_br= 1.0kbits/s type= B";
    assert_eq!(parse_ffmpeg_vstat(line, VstatGrammar::V1).err(), Some(VstatError::ParseMiss));
}

#[test]
fn garbage_is_a_miss() {
    assert_eq!(parse_ffmpeg_vstat("hello world", VstatGrammar::V2).err(), Some(VstatError::ParseMiss));
    assert_eq!(parse_ffmpeg_vstat("", VstatGrammar::V1).err(), Some(VstatError::ParseMiss));
}

#[test]
fn frame_too_large_rejects_record() {
    let line = V2_LINE.replace("frame= 10", "frame= 99999999999999999999");
    assert_eq!(
        parse_ffmpeg_vstat(&line, VstatGrammar::V2).err(),
        Some(VstatError::FieldConversion { field: VstatField::Frame, expected: NumberKind::Integer })
    );
}

#[test]
fn bitrate_too_long_rejects_record() {
    let line = V2_LINE.replace("br= 512.0", "br= 51234567890123456789.0");
    assert_eq!(
        parse_ffmpeg_vstat(&line, VstatGrammar::V2).err(),
        Some(VstatError::FieldConversion { field: VstatField::Bitrate, expected: NumberKind::Decimal })
    );
}

#[test]
fn match_found_after_prefix() {
    let line = format!("[vstats] {}", V2_LINE);
    let info = parse_ffmpeg_vstat(&line, VstatGrammar::V2).ok().unwrap();
    assert_eq!(info.frame_number, 10);
}

#[test]
fn agrees_with_regex_engine() {
    let re = regex::Regex::new(r"out=\s+(?<out>\d+)\s+st=\s+(?<st>\d+)\s+frame=\s+(?<frame>\d+)\s+q=\s+(?<q>\d+\.\d+)\s+f_size=\s+(?<f_size>\d+)\s+s_size=\s+(?<s_size>\d+)[kK]i?B\s+time=\s+(?<time>\d+\.\d+)\s+br=\s+(?<br>\d+\.\d+)kbits/s\s+avg_br=\s+(?<avg_br>\d+\.\d+)kbits/s\s+type=\s+(?<type>[a-zA-z]+)").unwrap();
    let lines = [
        V2_LINE.to_string(),
        format!("xx out= 9 {}", V2_LINE),
        V2_LINE.replace("type= I", "type= B_x"),
        V2_LINE.replace("  ", "\t"),
        "out= 1 st= 0 frame= 10".to_string(),
    ];
    for line in lines.iter() {
        let ours = parse_ffmpeg_vstat(line, VstatGrammar::V2);
        match re.captures(line) {
            None => assert_eq!(ours.err(), Some(VstatError::ParseMiss)),
            Some(c) => {
                let info = ours.ok().unwrap();
                assert_eq!(info.frame_number, c["frame"].parse::<i64>().unwrap());
                assert_eq!(info.picture_type, &c["type"]);
                assert_eq!(as_f64(info.timestamp), c["time"].parse::<f64>().unwrap());
                assert_eq!(info.index, Some(format!("{}:{}", &c["out"], &c["st"])));
            }
        }
    }
}
