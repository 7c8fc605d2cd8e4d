//! The records that a parsed line yields.
use vstd::prelude::*;
use crate::number::Decimal;

verus! {

/// Frame and stream telemetry from an encoder's progress line.
pub struct FfmpegInfo {
    /// `out:st`, the output file and stream index, where the grammar has them.
    pub index: Option<String>,
    pub frame_number: i64,
    pub frame_quality: Decimal,
    pub packet_size_bytes: i64,
    pub stream_size_kbytes: i64,
    pub timestamp: Decimal,
    pub picture_type: String,
    pub bitrate_kbps: Decimal,
    pub avg_bitrate_kbps: Decimal,
}

/// The five counters of a transport analyser's alert line.
#[derive(Clone, Copy, PartialEq, Eq, Structural, Debug)]
pub struct GigaToolsInfo {
    pub delta_plus: i64,
    pub delta_zero: i64,
    pub pcr_delta: i64,
    pub pcr_freq: i64,
    pub lost_sync: i64,
}

/// Packets missing on a program PID.
pub struct TspContinuity {
    pub program_pid: String,
    pub missing_count: i64,
}

/// One observation of a transport stream's history: a TDT time, or an
/// action on a PID.
pub struct TspHistory {
    pub program_pid: Option<String>,
    pub tdt_datetime_ms: Option<i64>,
    /// The TDT time did not move forward from the one before.
    pub is_reset: bool,
    pub action: Option<String>,
}

/// What a line parsed into.
pub enum ParseInfo {
    Ffmpeg(FfmpegInfo),
    GigaTools(GigaToolsInfo),
    TspContinuity(TspContinuity),
    TspHistory(TspHistory),
}

/// A complete line with what it parsed into, if anything.
pub struct LineInfo {
    pub raw_line: String,
    pub parse_info: Option<ParseInfo>,
}

} // verus!
