//! Picks the grammar that the configuration names and wraps what it gives
//! with the line it came from.
use vstd::prelude::*;
use vstd::utf8::*;
use crate::scan::contains_lit;
use crate::pattern::{Word, word_bytes, find_spans};
use crate::ffmpeg::{VstatGrammar, vstat_pattern, first_bad_field, vstat_info_is, parse_ffmpeg_vstat};
use crate::gigatools::{gigatools_of, parse_gigatools};
use crate::tsp::{TdtClock, continuity_match, missing_count_at, parse_tsp_continuity, parse_tsp_history,
    history_outcome_is, history_pattern, tdt_pattern, pid_action_pattern};
use crate::records::{LineInfo, ParseInfo, TspHistory};

verus! {

/// Which grammar lines are read with.
#[derive(Clone, Copy, PartialEq, Eq, Structural, Debug)]
pub enum ParserMode {
    /// Lines pass through unparsed.
    Raw,
    FfmpegVstatV1,
    FfmpegVstatV2,
    GigaTools,
    TspContinuity,
    TspHistory,
}

/// The history record that a dispatched line carries, if any.
pub open spec fn history_payload(r: Option<LineInfo>) -> Option<TspHistory> {
    match r {
        Some(li) => match li.parse_info {
            Some(ParseInfo::TspHistory(h)) => Some(h),
            _ => None,
        },
        None => None,
    }
}

pub open spec fn vstat_dispatch_is(r: Option<LineInfo>, line: Seq<char>, g: VstatGrammar) -> bool {
    let b = encode_utf8(line);
    match find_spans(b, vstat_pattern(g)) {
        Some(sp) => if first_bad_field(b, sp, g) is None {
            r matches Some(li) && li.raw_line@ == line && (li.parse_info matches Some(ParseInfo::Ffmpeg(info))
                && vstat_info_is(info, b, sp, g))
        } else {
            r is None
        },
        None => r is None,
    }
}

/// What dispatching `line` in `mode` gives, with the TDT clock going from
/// `before` to `after`: the line with its record, or nothing where the
/// grammar does not match.
pub open spec fn dispatch_outcome_is(
    r: Option<LineInfo>,
    mode: ParserMode,
    before: Option<i64>,
    after: Option<i64>,
    line: Seq<char>,
) -> bool {
    let b = encode_utf8(line);
    &&& mode != ParserMode::TspHistory ==> after == before
    &&& match mode {
        ParserMode::Raw => r matches Some(li) && li.raw_line@ == line && li.parse_info is None,
        ParserMode::FfmpegVstatV1 => vstat_dispatch_is(r, line, VstatGrammar::V1),
        ParserMode::FfmpegVstatV2 => vstat_dispatch_is(r, line, VstatGrammar::V2),
        ParserMode::GigaTools => match gigatools_of(b) {
            Some(g) => r matches Some(li) && li.raw_line@ == line && li.parse_info == Some(ParseInfo::GigaTools(g)),
            None => r is None,
        },
        ParserMode::TspContinuity => match continuity_match(b) {
            Some((p, q)) => r matches Some(li) && li.raw_line@ == line && (li.parse_info matches Some(
                ParseInfo::TspContinuity(c),
            ) && c.program_pid@ == decode_utf8(b.subrange(p + 6, q)) && c.missing_count == missing_count_at(b, q)),
            None => r is None,
        },
        ParserMode::TspHistory => {
            &&& history_outcome_is(history_payload(r), before, after, b)
            &&& r matches Some(li) ==> li.raw_line@ == line && li.parse_info matches Some(ParseInfo::TspHistory(_))
        },
    }
}

/// Reads one complete line with the grammar of `mode`. A line that the
/// grammar does not match gives nothing; it is never an error.
pub fn process_line(mode: ParserMode, clock: &mut TdtClock, line: String) -> (r: Option<LineInfo>)
    ensures
        dispatch_outcome_is(r, mode, old(clock).latest_tdt_ms, final(clock).latest_tdt_ms, line@),
{
    match mode {
        ParserMode::Raw => Some(LineInfo { raw_line: line, parse_info: None }),
        ParserMode::FfmpegVstatV1 | ParserMode::FfmpegVstatV2 => {
            let g = if mode == ParserMode::FfmpegVstatV1 { VstatGrammar::V1 } else { VstatGrammar::V2 };
            match parse_ffmpeg_vstat(line.as_str(), g) {
                Ok(info) => Some(LineInfo { raw_line: line, parse_info: Some(ParseInfo::Ffmpeg(info)) }),
                Err(_) => None,
            }
        },
        ParserMode::GigaTools => match parse_gigatools(line.as_str()) {
            Some(info) => Some(LineInfo { raw_line: line, parse_info: Some(ParseInfo::GigaTools(info)) }),
            None => None,
        },
        ParserMode::TspContinuity => match parse_tsp_continuity(line.as_str()) {
            Some(info) => Some(LineInfo { raw_line: line, parse_info: Some(ParseInfo::TspContinuity(info)) }),
            None => None,
        },
        ParserMode::TspHistory => match parse_tsp_history(clock, line.as_str()) {
            Some(info) => Some(LineInfo { raw_line: line, parse_info: Some(ParseInfo::TspHistory(info)) }),
            None => None,
        },
    }
}

/// Whether the grammar of `mode` matches the line's bytes `b`.
pub open spec fn grammar_matches(mode: ParserMode, b: Seq<u8>) -> bool {
    match mode {
        ParserMode::Raw => true,
        ParserMode::FfmpegVstatV1 => find_spans(b, vstat_pattern(VstatGrammar::V1)) is Some,
        ParserMode::FfmpegVstatV2 => find_spans(b, vstat_pattern(VstatGrammar::V2)) is Some,
        ParserMode::GigaTools => contains_lit(b, word_bytes(Word::Alert)),
        ParserMode::TspContinuity => continuity_match(b) is Some,
        ParserMode::TspHistory => match find_spans(b, history_pattern()) {
            Some(hs) => {
                let m = b.subrange(hs[3].0, hs[3].1);
                find_spans(m, tdt_pattern()) is Some || find_spans(m, pid_action_pattern()) is Some
            },
            None => false,
        },
    }
}

/// A line that the configured grammar does not match gives no record, and
/// leaves the TDT clock as it was.
pub proof fn lemma_unmatched_line_gives_nothing(
    r: Option<LineInfo>,
    mode: ParserMode,
    before: Option<i64>,
    after: Option<i64>,
    line: Seq<char>,
)
    requires
        !grammar_matches(mode, encode_utf8(line)),
        dispatch_outcome_is(r, mode, before, after, line),
    ensures
        r is None,
        after == before,
{
}

} // verus!
