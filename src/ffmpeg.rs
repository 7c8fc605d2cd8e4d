//! Progress lines of an encoder's `-vstats` output.
use vstd::prelude::*;
use vstd::utf8::*;
use crate::scan::{ByteClass, in_class, run_end, scan_run, lemma_run_end};
use crate::pattern::{Piece, Word, find_spans, spans_view, search, piece_end, lemma_match_from_spans, first_match,
    spans_fit};
use crate::number::{Decimal, int_of_text, parse_int, digits_value, accumulate_digits,
    lemma_digits_value_nonneg};
use crate::records::FfmpegInfo;
use crate::text::{text_of, lemma_ascii_valid};

verus! {

broadcast use vstd::utf8::encode_utf8_valid_utf8;

/// The two shapes of progress line: without, or with, the output file and
/// stream index in front.
#[derive(Clone, Copy, PartialEq, Eq, Structural, Debug)]
pub enum VstatGrammar {
    V1,
    V2,
}

/// The numeric fields of a progress line, in the order they are read.
#[derive(Clone, Copy, PartialEq, Eq, Structural, Debug)]
pub enum VstatField {
    Frame,
    Quality,
    PacketSize,
    StreamSize,
    Timestamp,
    Bitrate,
    AvgBitrate,
}

/// The two kinds of number a field can hold.
#[derive(Clone, Copy, PartialEq, Eq, Structural, Debug)]
pub enum NumberKind {
    Integer,
    Decimal,
}

/// Why a line gave no record.
#[derive(Clone, Copy, PartialEq, Eq, Structural, Debug)]
pub enum VstatError {
    /// The line is not a progress line.
    ParseMiss,
    /// The line is one, but this field does not fit its type.
    FieldConversion { field: VstatField, expected: NumberKind },
}

pub open spec fn field_kind(f: VstatField) -> NumberKind {
    match f {
        VstatField::Frame | VstatField::PacketSize | VstatField::StreamSize => NumberKind::Integer,
        _ => NumberKind::Decimal,
    }
}

/// The pieces of a progress line:
/// `out= N st= N frame= N q= D f_size= N s_size= N(kB|KB|KiB|kiB) time= D br= Dkbits/s avg_br= Dkbits/s type= T`,
/// where V1 has no `out` and `st` and takes `kB` alone, `N` is digits, `D` is
/// digits, a dot and digits, `T` is bytes from `A` to `z`, and a space is one
/// or more ASCII white-space bytes.
pub open spec fn vstat_pattern(g: VstatGrammar) -> Seq<Piece> {
    let sp = Piece::Run(ByteClass::Space);
    let n = Piece::Run(ByteClass::Digit);
    let head = if g == VstatGrammar::V2 {
        seq![Piece::Lit(Word::Out), sp, n, sp, Piece::Lit(Word::St), sp, n, sp]
    } else {
        Seq::empty()
    };
    let unit = if g == VstatGrammar::V2 { Piece::SizeUnit } else { Piece::Lit(Word::Kilobytes) };
    head + seq![
        Piece::Lit(Word::Frame), sp, n, sp,
        Piece::Lit(Word::Quality), sp, Piece::Decimal, sp,
        Piece::Lit(Word::FrameSize), sp, n, sp,
        Piece::Lit(Word::StreamSize), sp, n, unit, sp,
        Piece::Lit(Word::Time), sp, Piece::Decimal, sp,
        Piece::Lit(Word::Bitrate), sp, Piece::Decimal, Piece::Lit(Word::Kbits), sp,
        Piece::Lit(Word::AvgBitrate), sp, Piece::Decimal, Piece::Lit(Word::Kbits), sp,
        Piece::Lit(Word::PictureType), sp, Piece::Run(ByteClass::AsciiAtoz)
    ]
}

/// Where the shared part of the pattern starts.
pub open spec fn head_len(g: VstatGrammar) -> int {
    if g == VstatGrammar::V2 { 8 } else { 0 }
}

/// Which piece of the shared part holds each field.
pub open spec fn field_piece(f: VstatField) -> int {
    match f {
        VstatField::Frame => 2,
        VstatField::Quality => 6,
        VstatField::PacketSize => 10,
        VstatField::StreamSize => 14,
        VstatField::Timestamp => 19,
        VstatField::Bitrate => 23,
        VstatField::AvgBitrate => 28,
    }
}

/// The piece of the shared part that holds the picture type.
pub open spec fn type_piece() -> int {
    33
}

pub open spec fn span_text(b: Seq<u8>, sp: Seq<(int, int)>, k: int) -> Seq<u8> {
    b.subrange(sp[k].0, sp[k].1)
}

/// The decimal written in `b[lo..hi]` as digits, a dot and digits, if its
/// digits fit an `i64`.
pub open spec fn decimal_at(b: Seq<u8>, lo: int, hi: int) -> Option<Decimal> {
    let d = run_end(b, lo, ByteClass::Digit);
    let u = digits_value(b.subrange(lo, d) + b.subrange(d + 1, hi));
    if u <= i64::MAX {
        Some(Decimal { units: u as i64, scale: (hi - d - 1) as usize })
    } else {
        None
    }
}

pub open spec fn int_field(b: Seq<u8>, sp: Seq<(int, int)>, g: VstatGrammar, f: VstatField) -> Option<i64> {
    int_of_text(span_text(b, sp, head_len(g) + field_piece(f)))
}

pub open spec fn decimal_field(b: Seq<u8>, sp: Seq<(int, int)>, g: VstatGrammar, f: VstatField) -> Option<Decimal> {
    let k = head_len(g) + field_piece(f);
    decimal_at(b, sp[k].0, sp[k].1)
}

pub open spec fn field_converts(b: Seq<u8>, sp: Seq<(int, int)>, g: VstatGrammar, f: VstatField) -> bool {
    if field_kind(f) == NumberKind::Integer {
        int_field(b, sp, g, f) is Some
    } else {
        decimal_field(b, sp, g, f) is Some
    }
}

/// The first field, in reading order, that does not fit its type.
pub open spec fn first_bad_field(b: Seq<u8>, sp: Seq<(int, int)>, g: VstatGrammar) -> Option<VstatField> {
    if !field_converts(b, sp, g, VstatField::Frame) {
        Some(VstatField::Frame)
    } else if !field_converts(b, sp, g, VstatField::Quality) {
        Some(VstatField::Quality)
    } else if !field_converts(b, sp, g, VstatField::PacketSize) {
        Some(VstatField::PacketSize)
    } else if !field_converts(b, sp, g, VstatField::StreamSize) {
        Some(VstatField::StreamSize)
    } else if !field_converts(b, sp, g, VstatField::Timestamp) {
        Some(VstatField::Timestamp)
    } else if !field_converts(b, sp, g, VstatField::Bitrate) {
        Some(VstatField::Bitrate)
    } else if !field_converts(b, sp, g, VstatField::AvgBitrate) {
        Some(VstatField::AvgBitrate)
    } else {
        None
    }
}

/// `info` holds the fields of the match `sp` of grammar `g` in `b`.
pub open spec fn vstat_info_is(info: FfmpegInfo, b: Seq<u8>, sp: Seq<(int, int)>, g: VstatGrammar) -> bool {
    &&& int_field(b, sp, g, VstatField::Frame) == Some(info.frame_number)
    &&& decimal_field(b, sp, g, VstatField::Quality) == Some(info.frame_quality)
    &&& int_field(b, sp, g, VstatField::PacketSize) == Some(info.packet_size_bytes)
    &&& int_field(b, sp, g, VstatField::StreamSize) == Some(info.stream_size_kbytes)
    &&& decimal_field(b, sp, g, VstatField::Timestamp) == Some(info.timestamp)
    &&& decimal_field(b, sp, g, VstatField::Bitrate) == Some(info.bitrate_kbps)
    &&& decimal_field(b, sp, g, VstatField::AvgBitrate) == Some(info.avg_bitrate_kbps)
    &&& info.picture_type@ == decode_utf8(span_text(b, sp, head_len(g) + type_piece()))
    &&& g == VstatGrammar::V1 ==> info.index is None
    &&& g == VstatGrammar::V2 ==> (info.index matches Some(ix) && ix@ == decode_utf8(
        span_text(b, sp, 2) + seq![0x3au8] + span_text(b, sp, 6),
    ))
}

/// What parsing `b` with grammar `g` gives.
pub open spec fn vstat_outcome_is(r: Result<FfmpegInfo, VstatError>, b: Seq<u8>, g: VstatGrammar) -> bool {
    match find_spans(b, vstat_pattern(g)) {
        None => r == Err::<FfmpegInfo, VstatError>(VstatError::ParseMiss),
        Some(sp) => match first_bad_field(b, sp, g) {
            Some(f) => r == Err::<FfmpegInfo, VstatError>(
                VstatError::FieldConversion { field: f, expected: field_kind(f) },
            ),
            None => r matches Ok(info) && vstat_info_is(info, b, sp, g),
        },
    }
}

fn vstat_pieces(g: VstatGrammar) -> (r: Vec<Piece>)
    ensures
        r@ == vstat_pattern(g),
{
    let sp = Piece::Run(ByteClass::Space);
    let n = Piece::Run(ByteClass::Digit);
    let mut v: Vec<Piece> = if g == VstatGrammar::V2 {
        vec![Piece::Lit(Word::Out), sp, n, sp, Piece::Lit(Word::St), sp, n, sp]
    } else {
        Vec::new()
    };
    let unit = if g == VstatGrammar::V2 { Piece::SizeUnit } else { Piece::Lit(Word::Kilobytes) };
    let mut rest: Vec<Piece> = vec![
        Piece::Lit(Word::Frame), sp, n, sp,
        Piece::Lit(Word::Quality), sp, Piece::Decimal, sp,
        Piece::Lit(Word::FrameSize), sp, n, sp,
        Piece::Lit(Word::StreamSize), sp, n, unit, sp,
        Piece::Lit(Word::Time), sp, Piece::Decimal, sp,
        Piece::Lit(Word::Bitrate), sp, Piece::Decimal, Piece::Lit(Word::Kbits), sp,
        Piece::Lit(Word::AvgBitrate), sp, Piece::Decimal, Piece::Lit(Word::Kbits), sp,
        Piece::Lit(Word::PictureType), sp, Piece::Run(ByteClass::AsciiAtoz)
    ];
    v.append(&mut rest);
    assert(v@ =~= vstat_pattern(g));
    v
}

/// The decimal in `b[lo..hi]`, which the grammar has shaped as digits, a dot
/// and digits.
pub fn decimal_in(b: &[u8], lo: usize, hi: usize) -> (r: Option<Decimal>)
    requires
        piece_end(b@, lo as int, Piece::Decimal) == Some(hi as int),
        hi <= b@.len(),
    ensures
        r == decimal_at(b@, lo as int, hi as int),
{
    proof {
        lemma_run_end(b@, lo as int, ByteClass::Digit);
    }
    let d = scan_run(b, lo, ByteClass::Digit);
    proof {
        lemma_run_end(b@, d + 1, ByteClass::Digit);
        assert(Seq::<u8>::empty() + b@.subrange(lo as int, d as int) =~= b@.subrange(lo as int, d as int));
        lemma_digits_value_nonneg(Seq::<u8>::empty());
        assert forall|j: int| 0 <= j < b@.subrange(lo as int, d as int).len() implies #[trigger] in_class(
            b@.subrange(lo as int, d as int)[j], ByteClass::Digit) by {
            assert(b@.subrange(lo as int, d as int)[j] == b@[lo + j]);
        }
    }
    let int_part = accumulate_digits(b, lo, d, 0, Ghost(Seq::empty()));
    let units = accumulate_digits(b, d + 1, hi, int_part, Ghost(b@.subrange(lo as int, d as int)));
    if units <= 9223372036854775807 {
        Some(Decimal { units: units as i64, scale: hi - d - 1 })
    } else {
        None
    }
}

fn int_at(b: &[u8], spans: &Vec<(usize, usize)>, k: usize, Ghost(pat): Ghost<Seq<Piece>>) -> (r: Option<i64>)
    requires
        k < spans@.len(),
        spans_fit(b@, spans_view(spans@), pat),
    ensures
        r == int_of_text(span_text(b@, spans_view(spans@), k as int)),
{
    let (lo, hi) = spans[k];
    assert(spans_view(spans@)[k as int] == (lo as int, hi as int));
    parse_int(&b[lo..hi])
}

fn decimal_at_span(b: &[u8], spans: &Vec<(usize, usize)>, k: usize, Ghost(pat): Ghost<Seq<Piece>>) -> (r: Option<Decimal>)
    requires
        k < spans@.len(),
        spans_fit(b@, spans_view(spans@), pat),
        pat[k as int] == Piece::Decimal,
    ensures
        r == decimal_at(b@, spans_view(spans@)[k as int].0, spans_view(spans@)[k as int].1),
{
    let (lo, hi) = spans[k];
    assert(spans_view(spans@)[k as int] == (lo as int, hi as int));
    decimal_in(b, lo, hi)
}

/// Text of a span whose bytes are ASCII.
fn ascii_text_at(b: &[u8], spans: &Vec<(usize, usize)>, k: usize, Ghost(pat): Ghost<Seq<Piece>>, Ghost(cls): Ghost<ByteClass>) -> (r: String)
    requires
        k < spans@.len(),
        spans_fit(b@, spans_view(spans@), pat),
        pat[k as int] == Piece::Run(cls),
        cls == ByteClass::Digit || cls == ByteClass::AsciiAtoz,
    ensures
        r@ == decode_utf8(span_text(b@, spans_view(spans@), k as int)),
{
    let (lo, hi) = spans[k];
    assert(spans_view(spans@)[k as int] == (lo as int, hi as int));
    let t = &b[lo..hi];
    proof {
        lemma_run_end(b@, lo as int, cls);
        assert forall|i: int| 0 <= i < t@.len() implies #[trigger] t@[i] < 0x80 by {
            assert(t@[i] == b@[lo + i]);
            assert(in_class(b@[lo + i], cls));
        }
        lemma_ascii_valid(t@);
    }
    text_of(t)
}

proof fn lemma_vstat_pattern_shape(g: VstatGrammar)
    ensures
        vstat_pattern(g).len() == head_len(g) + 34,
        g == VstatGrammar::V2 ==> vstat_pattern(g)[2] == Piece::Run(ByteClass::Digit)
            && vstat_pattern(g)[6] == Piece::Run(ByteClass::Digit),
        vstat_pattern(g)[head_len(g) + 6] == Piece::Decimal,
        vstat_pattern(g)[head_len(g) + 19] == Piece::Decimal,
        vstat_pattern(g)[head_len(g) + 23] == Piece::Decimal,
        vstat_pattern(g)[head_len(g) + 28] == Piece::Decimal,
        vstat_pattern(g)[head_len(g) + 33] == Piece::Run(ByteClass::AsciiAtoz),
{
}

/// Converts the fields of a match, or names the first that does not convert.
fn vstat_fields(b: &[u8], spans: &Vec<(usize, usize)>, grammar: VstatGrammar, Ghost(pv): Ghost<Seq<Piece>>) -> (r: Result<FfmpegInfo, VstatError>)
    requires
        pv == vstat_pattern(grammar),
        spans_fit(b@, spans_view(spans@), pv),
    ensures
        match first_bad_field(b@, spans_view(spans@), grammar) {
            Some(f) => r == Err::<FfmpegInfo, VstatError>(
                VstatError::FieldConversion { field: f, expected: field_kind(f) },
            ),
            None => r matches Ok(info) && vstat_info_is(info, b@, spans_view(spans@), grammar),
        },
{
    let ghost sp = spans_view(spans@);
    proof {
        lemma_vstat_pattern_shape(grammar);
    }
    let o: usize = if grammar == VstatGrammar::V2 { 8 } else { 0 };
    assert(o == head_len(grammar));
    let frame_number = match int_at(b, spans, o + 2, Ghost(pv)) {
        Some(v) => v,
        None => {
            return Err(VstatError::FieldConversion { field: VstatField::Frame, expected: NumberKind::Integer });
        },
    };
    let frame_quality = match decimal_at_span(b, spans, o + 6, Ghost(pv)) {
        Some(v) => v,
        None => {
            return Err(VstatError::FieldConversion { field: VstatField::Quality, expected: NumberKind::Decimal });
        },
    };
    let packet_size_bytes = match int_at(b, spans, o + 10, Ghost(pv)) {
        Some(v) => v,
        None => {
            return Err(VstatError::FieldConversion { field: VstatField::PacketSize, expected: NumberKind::Integer });
        },
    };
    let stream_size_kbytes = match int_at(b, spans, o + 14, Ghost(pv)) {
        Some(v) => v,
        None => {
            return Err(VstatError::FieldConversion { field: VstatField::StreamSize, expected: NumberKind::Integer });
        },
    };
    let timestamp = match decimal_at_span(b, spans, o + 19, Ghost(pv)) {
        Some(v) => v,
        None => {
            return Err(VstatError::FieldConversion { field: VstatField::Timestamp, expected: NumberKind::Decimal });
        },
    };
    let bitrate_kbps = match decimal_at_span(b, spans, o + 23, Ghost(pv)) {
        Some(v) => v,
        None => {
            return Err(VstatError::FieldConversion { field: VstatField::Bitrate, expected: NumberKind::Decimal });
        },
    };
    let avg_bitrate_kbps = match decimal_at_span(b, spans, o + 28, Ghost(pv)) {
        Some(v) => v,
        None => {
            return Err(VstatError::FieldConversion { field: VstatField::AvgBitrate, expected: NumberKind::Decimal });
        },
    };
    let picture_type = ascii_text_at(b, spans, o + 33, Ghost(pv), Ghost(ByteClass::AsciiAtoz));
    let index = if grammar == VstatGrammar::V2 {
        Some(output_index(b, spans, Ghost(pv)))
    } else {
        None
    };
    Ok(FfmpegInfo {
        index,
        frame_number,
        frame_quality,
        packet_size_bytes,
        stream_size_kbytes,
        timestamp,
        picture_type,
        bitrate_kbps,
        avg_bitrate_kbps,
    })
}

/// `out:st` of a V2 match.
fn output_index(b: &[u8], spans: &Vec<(usize, usize)>, Ghost(pv): Ghost<Seq<Piece>>) -> (r: String)
    requires
        pv == vstat_pattern(VstatGrammar::V2),
        spans_fit(b@, spans_view(spans@), pv),
    ensures
        r@ == decode_utf8(
            span_text(b@, spans_view(spans@), 2) + seq![0x3au8] + span_text(b@, spans_view(spans@), 6),
        ),
{
    let ghost sp = spans_view(spans@);
    proof {
        lemma_vstat_pattern_shape(VstatGrammar::V2);
    }
    let (a0, a1) = spans[2];
    let (c0, c1) = spans[6];
    assert(sp[2] == (a0 as int, a1 as int));
    assert(sp[6] == (c0 as int, c1 as int));
    let mut ix: Vec<u8> = Vec::new();
    ix.extend_from_slice(&b[a0..a1]);
    ix.push(0x3a);
    ix.extend_from_slice(&b[c0..c1]);
    proof {
        let whole = span_text(b@, sp, 2) + seq![0x3au8] + span_text(b@, sp, 6);
        assert(ix@ =~= whole);
        lemma_run_end(b@, a0 as int, ByteClass::Digit);
        lemma_run_end(b@, c0 as int, ByteClass::Digit);
        assert forall|i: int| 0 <= i < whole.len() implies #[trigger] whole[i] < 0x80 by {
            if i < a1 - a0 {
                assert(whole[i] == b@[a0 + i]);
                assert(in_class(b@[a0 + i], ByteClass::Digit));
            } else if i > a1 - a0 {
                assert(whole[i] == b@[c0 + i - (a1 - a0) - 1]);
                assert(in_class(b@[c0 + i - (a1 - a0) - 1], ByteClass::Digit));
            }
        }
        lemma_ascii_valid(whole);
    }
    text_of(ix.as_slice())
}

/// Parses an encoder progress line: the leftmost place where the grammar
/// matches gives the fields; a line where it matches nowhere is a miss, and a
/// match whose numeric field does not fit its type is rejected whole, naming
/// the first such field.
pub fn parse_ffmpeg_vstat(log_line: &str, grammar: VstatGrammar) -> (r: Result<FfmpegInfo, VstatError>)
    ensures
        vstat_outcome_is(r, encode_utf8(log_line@), grammar),
{
    let b = log_line.as_bytes();
    let pat = vstat_pieces(grammar);
    let spans = match search(b, pat.as_slice()) {
        Some(v) => v,
        None => {
            return Err(VstatError::ParseMiss);
        },
    };
    proof {
        let s = first_match(b@, pat@).unwrap();
        lemma_match_from_spans(b@, s, pat@);
    }
    vstat_fields(b, &spans, grammar, Ghost(pat@))
}

} // verus!
