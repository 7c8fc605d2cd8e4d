//! Reassembly followed by dispatch is a function of the bytes read: running
//! it twice, from fresh state each time, gives the same records.
use vstd::prelude::*;
use vstd::utf8::*;
use crate::records::{LineInfo, ParseInfo};
use crate::dispatch::{ParserMode, dispatch_outcome_is};
use crate::reassembly::reassemble;

verus! {

pub open spec fn same_text(a: Option<String>, b: Option<String>) -> bool {
    match (a, b) {
        (Some(x), Some(y)) => x@ == y@,
        (None, None) => true,
        _ => false,
    }
}

/// Two records hold the same values, text compared by its characters.
pub open spec fn same_parse(a: ParseInfo, b: ParseInfo) -> bool {
    match (a, b) {
        (ParseInfo::Ffmpeg(x), ParseInfo::Ffmpeg(y)) => {
            &&& same_text(x.index, y.index)
            &&& x.frame_number == y.frame_number
            &&& x.frame_quality == y.frame_quality
            &&& x.packet_size_bytes == y.packet_size_bytes
            &&& x.stream_size_kbytes == y.stream_size_kbytes
            &&& x.timestamp == y.timestamp
            &&& x.picture_type@ == y.picture_type@
            &&& x.bitrate_kbps == y.bitrate_kbps
            &&& x.avg_bitrate_kbps == y.avg_bitrate_kbps
        },
        (ParseInfo::GigaTools(x), ParseInfo::GigaTools(y)) => x == y,
        (ParseInfo::TspContinuity(x), ParseInfo::TspContinuity(y)) => x.program_pid@ == y.program_pid@
            && x.missing_count == y.missing_count,
        (ParseInfo::TspHistory(x), ParseInfo::TspHistory(y)) => {
            &&& same_text(x.program_pid, y.program_pid)
            &&& x.tdt_datetime_ms == y.tdt_datetime_ms
            &&& x.is_reset == y.is_reset
            &&& same_text(x.action, y.action)
        },
        _ => false,
    }
}

/// Two dispatch results are both nothing, or the same line with the same
/// record.
pub open spec fn same_record(a: Option<LineInfo>, b: Option<LineInfo>) -> bool {
    match (a, b) {
        (Some(x), Some(y)) => x.raw_line@ == y.raw_line@ && match (x.parse_info, y.parse_info) {
            (None, None) => true,
            (Some(p), Some(q)) => same_parse(p, q),
            _ => false,
        },
        (None, None) => true,
        _ => false,
    }
}

/// `outs[k]` is what dispatching `lines[k]` gave, the TDT clock going from
/// `clocks[k]` to `clocks[k + 1]`.
pub open spec fn dispatch_run_is(
    outs: Seq<Option<LineInfo>>,
    clocks: Seq<Option<i64>>,
    mode: ParserMode,
    lines: Seq<Seq<char>>,
) -> bool {
    &&& outs.len() == lines.len()
    &&& clocks.len() == lines.len() + 1
    &&& forall|k: int| 0 <= k < lines.len() ==> dispatch_outcome_is(
        #[trigger] outs[k],
        mode,
        clocks[k],
        clocks[k + 1],
        lines[k],
    )
}

/// The text of the lines that a fresh reassembler emits over `chunks`.
pub open spec fn reassembled_text(chunks: Seq<Seq<u8>>) -> Seq<Seq<char>> {
    reassemble(chunks).0.map_values(|l: Seq<u8>| decode_utf8(l))
}

/// One line dispatched twice from the same clock gives the same record and
/// the same clock.
pub proof fn lemma_dispatch_deterministic(
    r1: Option<LineInfo>,
    r2: Option<LineInfo>,
    mode: ParserMode,
    before: Option<i64>,
    after1: Option<i64>,
    after2: Option<i64>,
    line: Seq<char>,
)
    requires
        dispatch_outcome_is(r1, mode, before, after1, line),
        dispatch_outcome_is(r2, mode, before, after2, line),
    ensures
        same_record(r1, r2),
        after1 == after2,
{
}

/// Two runs over the same lines from the same clock agree on the first `k`
/// records and on the clock before line `k`.
pub proof fn lemma_runs_agree_upto(
    mode: ParserMode,
    lines: Seq<Seq<char>>,
    outs1: Seq<Option<LineInfo>>,
    clocks1: Seq<Option<i64>>,
    outs2: Seq<Option<LineInfo>>,
    clocks2: Seq<Option<i64>>,
    k: int,
)
    requires
        dispatch_run_is(outs1, clocks1, mode, lines),
        dispatch_run_is(outs2, clocks2, mode, lines),
        clocks1[0] == clocks2[0],
        0 <= k <= lines.len(),
    ensures
        clocks1[k] == clocks2[k],
        forall|j: int| 0 <= j < k ==> same_record(#[trigger] outs1[j], outs2[j]),
    decreases k,
{
    if k > 0 {
        lemma_runs_agree_upto(mode, lines, outs1, clocks1, outs2, clocks2, k - 1);
        let j = k - 1;
        assert(dispatch_outcome_is(outs1[j], mode, clocks1[j], clocks1[j + 1], lines[j]));
        assert(dispatch_outcome_is(outs2[j], mode, clocks2[j], clocks2[j + 1], lines[j]));
        lemma_dispatch_deterministic(outs1[j], outs2[j], mode, clocks1[j], clocks1[j + 1], clocks2[j + 1], lines[j]);
    }
}

/// Reassembling and dispatching the same chunks twice, from a fresh
/// reassembler and a fresh clock each time, gives the same records in the
/// same order.
pub proof fn lemma_replay_identical(
    mode: ParserMode,
    chunks: Seq<Seq<u8>>,
    outs1: Seq<Option<LineInfo>>,
    clocks1: Seq<Option<i64>>,
    outs2: Seq<Option<LineInfo>>,
    clocks2: Seq<Option<i64>>,
)
    requires
        dispatch_run_is(outs1, clocks1, mode, reassembled_text(chunks)),
        dispatch_run_is(outs2, clocks2, mode, reassembled_text(chunks)),
        clocks1[0] is None,
        clocks2[0] is None,
    ensures
        outs1.len() == outs2.len(),
        forall|k: int| 0 <= k < outs1.len() ==> same_record(#[trigger] outs1[k], outs2[k]),
{
    let lines = reassembled_text(chunks);
    lemma_runs_agree_upto(mode, lines, outs1, clocks1, outs2, clocks2, lines.len() as int);
}

} // verus!
