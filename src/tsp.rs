//! Continuity and history lines of a transport stream processor.
use vstd::prelude::*;
use vstd::utf8::*;
use crate::scan::{ByteClass, in_class, run_end, scan_run, lemma_run_end, lit_at, has_lit_at, first_in, last_in,
    lemma_first_in, lemma_last_in, lemma_first_in_is, lemma_first_in_none, lemma_last_in_is, lemma_last_in_none};
use crate::pattern::{Word, Piece, word_bytes, word_vec, after_run, find_spans, first_match, search,
    spans_view, lemma_match_from_spans, spans_fit};
use crate::number::{int_of_text, parse_int, digits_value, pow10, lemma_digits_value_below};
use crate::records::{TspContinuity, TspHistory};
use crate::text::{text_of, lemma_range_near_ascii, lemma_ascii_valid};
use crate::civil::{civil_valid, unix_millis, chrono_unix_millis};

verus! {

broadcast use vstd::utf8::encode_utf8_valid_utf8;

/// `, missing N packet` starts at `q`.
pub open spec fn missing_tail_at(b: Seq<u8>, q: int) -> bool {
    &&& lit_at(b, q, word_bytes(Word::Missing))
    &&& after_run(b, q + 10, ByteClass::Digit) matches Some(d) && lit_at(b, d, word_bytes(Word::Packet))
}

pub open spec fn missing_tail_pred(b: Seq<u8>) -> spec_fn(int) -> bool {
    |q: int| missing_tail_at(b, q)
}

pub open spec fn pid_label_pred(b: Seq<u8>) -> spec_fn(int) -> bool {
    |p: int| lit_at(b, p, word_bytes(Word::PidLabel))
}

/// The match of `continuity:.+ PID: (.+), missing (\d+) packet` that starts
/// at `s`, as `(p, q)`: ` PID: ` at `p` and `, missing ` at `q`. Both `.+`
/// take as much as they can, the first before the second, and neither
/// crosses a line feed; so `q` is the last tail on the line and `p` the last
/// label that leaves the PID a byte.
pub open spec fn continuity_at(b: Seq<u8>, s: int) -> Option<(int, int)> {
    let lo = s + 11;
    if lit_at(b, s, word_bytes(Word::Continuity)) {
        let e = run_end(b, lo, ByteClass::NotNewline);
        match last_in(lo + 8, e, missing_tail_pred(b)) {
            Some(q) => match last_in(lo + 1, q - 6, pid_label_pred(b)) {
                Some(p) => Some((p, q)),
                None => None,
            },
            None => None,
        }
    } else {
        None
    }
}

pub open spec fn continuity_start_pred(b: Seq<u8>) -> spec_fn(int) -> bool {
    |s: int| continuity_at(b, s) is Some
}

/// The leftmost continuity match in `b`.
pub open spec fn continuity_match(b: Seq<u8>) -> Option<(int, int)> {
    match first_in(0, b.len() + 1 as int, continuity_start_pred(b)) {
        Some(s) => continuity_at(b, s),
        None => None,
    }
}

/// The count after `, missing ` at `q`, read as an `i64`, or 0 where it does
/// not fit.
pub open spec fn missing_count_at(b: Seq<u8>, q: int) -> i64 {
    match int_of_text(b.subrange(q + 10, run_end(b, q + 10, ByteClass::Digit))) {
        Some(v) => v,
        None => 0,
    }
}

fn missing_tail_exec(b: &[u8], q: usize) -> (r: bool)
    requires
        q <= b@.len(),
    ensures
        r == missing_tail_at(b@, q as int),
{
    let n: usize = b.len();
    let missing = word_vec(Word::Missing);
    if !has_lit_at(b, q, missing.as_slice()) {
        return false;
    }
    assert(q + 10 <= n);
    let start = q + 10;
    let d = scan_run(b, start, ByteClass::Digit);
    if d == start {
        return false;
    }
    let packet = word_vec(Word::Packet);
    has_lit_at(b, d, packet.as_slice())
}

/// The last `q` in `[lo, hi)` where a missing-count tail starts.
fn last_missing_tail(b: &[u8], lo: usize, hi: usize) -> (r: Option<usize>)
    requires
        hi <= b@.len(),
    ensures
        r matches Some(q) ==> last_in(lo as int, hi as int, missing_tail_pred(b@)) == Some(q as int),
        r is None ==> last_in(lo as int, hi as int, missing_tail_pred(b@)) is None,
{
    let ghost f = missing_tail_pred(b@);
    let mut j: usize = hi;
    while j > lo
        invariant
            j <= hi <= b@.len(),
            f == missing_tail_pred(b@),
            forall|t: int| j <= t < hi ==> !#[trigger] f(t),
        decreases j,
    {
        if missing_tail_exec(b, j - 1) {
            proof {
                lemma_last_in_is(lo as int, hi as int, f, j - 1);
            }
            return Some(j - 1);
        }
        j = j - 1;
    }
    proof {
        lemma_last_in_none(lo as int, hi as int, f);
    }
    None
}

/// The last `p` in `[lo, hi)` where ` PID: ` starts.
fn last_pid_label(b: &[u8], lo: usize, hi: usize) -> (r: Option<usize>)
    requires
        hi <= b@.len(),
    ensures
        r matches Some(p) ==> last_in(lo as int, hi as int, pid_label_pred(b@)) == Some(p as int),
        r is None ==> last_in(lo as int, hi as int, pid_label_pred(b@)) is None,
{
    let ghost f = pid_label_pred(b@);
    let label = word_vec(Word::PidLabel);
    let mut j: usize = hi;
    while j > lo
        invariant
            j <= hi <= b@.len(),
            f == pid_label_pred(b@),
            label@ == word_bytes(Word::PidLabel),
            forall|t: int| j <= t < hi ==> !#[trigger] f(t),
        decreases j,
    {
        if has_lit_at(b, j - 1, label.as_slice()) {
            proof {
                lemma_last_in_is(lo as int, hi as int, f, j - 1);
            }
            return Some(j - 1);
        }
        j = j - 1;
    }
    proof {
        lemma_last_in_none(lo as int, hi as int, f);
    }
    None
}

fn continuity_at_exec(b: &[u8], s: usize) -> (r: Option<(usize, usize)>)
    requires
        s <= b@.len(),
    ensures
        r matches Some(pq) ==> continuity_at(b@, s as int) == Some((pq.0 as int, pq.1 as int)),
        r is None ==> continuity_at(b@, s as int) is None,
{
    let n: usize = b.len();
    let word = word_vec(Word::Continuity);
    if !has_lit_at(b, s, word.as_slice()) {
        return None;
    }
    assert(s + 11 <= n);
    let lo = s + 11;
    let e = scan_run(b, lo, ByteClass::NotNewline);
    if e - lo <= 8 {
        proof {
            lemma_last_in_none(lo + 8, e as int, missing_tail_pred(b@));
        }
        return None;
    }
    let q = match last_missing_tail(b, lo + 8, e) {
        Some(q) => q,
        None => {
            return None;
        },
    };
    proof {
        lemma_last_in(lo + 8, e as int, missing_tail_pred(b@));
    }
    match last_pid_label(b, lo + 1, q - 6) {
        Some(p) => Some((p, q)),
        None => None,
    }
}

/// Finds the leftmost continuity match.
fn find_continuity(b: &[u8]) -> (r: Option<(usize, usize)>)
    ensures
        r matches Some(pq) ==> continuity_match(b@) == Some((pq.0 as int, pq.1 as int)),
        r is None ==> continuity_match(b@) is None,
{
    let ghost f = continuity_start_pred(b@);
    let n: usize = b.len();
    let mut s: usize = 0;
    loop
        invariant
            n == b@.len(),
            s <= n,
            f == continuity_start_pred(b@),
            forall|j: int| 0 <= j < s ==> !#[trigger] f(j),
        decreases n - s,
    {
        match continuity_at_exec(b, s) {
            Some(pq) => {
                proof {
                    lemma_first_in_is(0, b@.len() + 1 as int, f, s as int);
                }
                return Some(pq);
            },
            None => {},
        }
        if s == n {
            proof {
                lemma_first_in_none(0, b@.len() + 1 as int, f);
            }
            return None;
        }
        s = s + 1;
    }
}

/// What a continuity line gives: the PID between ` PID: ` and `, missing `,
/// and the count, 0 where it does not fit an `i64`.
pub open spec fn continuity_outcome_is(r: Option<TspContinuity>, b: Seq<u8>) -> bool {
    match continuity_match(b) {
        Some((p, q)) => r matches Some(c) && c.program_pid@ == decode_utf8(b.subrange(p + 6, q))
            && c.missing_count == missing_count_at(b, q),
        None => r is None,
    }
}

/// Parses a continuity line; other lines give nothing.
pub fn parse_tsp_continuity(log_line: &str) -> (r: Option<TspContinuity>)
    ensures
        continuity_outcome_is(r, encode_utf8(log_line@)),
{
    let b = log_line.as_bytes();
    let n: usize = b.len();
    let (p, q) = match find_continuity(b) {
        Some(pq) => pq,
        None => {
            return None;
        },
    };
    proof {
        let f = continuity_start_pred(b@);
        lemma_first_in(0, b@.len() + 1 as int, f);
        let s = first_in(0, b@.len() + 1 as int, f).unwrap();
        let lo = s + 11;
        let e = run_end(b@, lo, ByteClass::NotNewline);
        lemma_last_in(lo + 8, e, missing_tail_pred(b@));
        lemma_last_in(lo + 1, q - 6, pid_label_pred(b@));
        assert(lit_at(b@, p as int, word_bytes(Word::PidLabel)));
        assert(b@.subrange(p as int, p + 6)[5] == b@[p + 5]);
        assert(b@.subrange(q as int, q + 10)[0] == b@[q as int]);
        lemma_range_near_ascii(b@, p + 6, q as int);
    }
    let program_pid = text_of(&b[p + 6..q]);
    proof {
        assert(missing_tail_at(b@, q as int));
    }
    let start = q + 10;
    let d = scan_run(b, start, ByteClass::Digit);
    let missing_count = match parse_int(&b[start..d]) {
        Some(v) => v,
        None => 0,
    };
    Some(TspContinuity { program_pid, missing_count })
}

/// `* history: N: message`, the message running to the end of the line.
pub open spec fn history_pattern() -> Seq<Piece> {
    seq![
        Piece::Lit(Word::History),
        Piece::Run(ByteClass::Digit),
        Piece::Lit(Word::ColonSpace),
        Piece::Run(ByteClass::NotNewline)
    ]
}

/// `TDT: YYYY/MM/DD HH:MM:SS`
pub open spec fn tdt_pattern() -> Seq<Piece> {
    let d2 = Piece::Exactly(ByteClass::Digit, 2);
    seq![
        Piece::Lit(Word::Tdt), Piece::Exactly(ByteClass::Digit, 4), Piece::Lit(Word::Slash), d2,
        Piece::Lit(Word::Slash), d2, Piece::Lit(Word::Space), d2, Piece::Lit(Word::Colon), d2,
        Piece::Lit(Word::Colon), d2
    ]
}

/// `PID N (0xN) action`, the action running to the next comma.
pub open spec fn pid_action_pattern() -> Seq<Piece> {
    seq![
        Piece::Lit(Word::Pid), Piece::Run(ByteClass::Digit), Piece::Lit(Word::OpenParen),
        Piece::Lit(Word::HexPrefix), Piece::Run(ByteClass::Digit), Piece::Lit(Word::CloseParen),
        Piece::Run(ByteClass::NotComma)
    ]
}

fn history_pieces() -> (r: Vec<Piece>)
    ensures
        r@ == history_pattern(),
{
    let v = vec![
        Piece::Lit(Word::History),
        Piece::Run(ByteClass::Digit),
        Piece::Lit(Word::ColonSpace),
        Piece::Run(ByteClass::NotNewline)
    ];
    assert(v@ =~= history_pattern());
    v
}

fn tdt_pieces() -> (r: Vec<Piece>)
    ensures
        r@ == tdt_pattern(),
{
    let d2 = Piece::Exactly(ByteClass::Digit, 2);
    let v = vec![
        Piece::Lit(Word::Tdt), Piece::Exactly(ByteClass::Digit, 4), Piece::Lit(Word::Slash), d2,
        Piece::Lit(Word::Slash), d2, Piece::Lit(Word::Space), d2, Piece::Lit(Word::Colon), d2,
        Piece::Lit(Word::Colon), d2
    ];
    assert(v@ =~= tdt_pattern());
    v
}

fn pid_action_pieces() -> (r: Vec<Piece>)
    ensures
        r@ == pid_action_pattern(),
{
    let v = vec![
        Piece::Lit(Word::Pid), Piece::Run(ByteClass::Digit), Piece::Lit(Word::OpenParen),
        Piece::Lit(Word::HexPrefix), Piece::Run(ByteClass::Digit), Piece::Lit(Word::CloseParen),
        Piece::Run(ByteClass::NotComma)
    ];
    assert(v@ =~= pid_action_pattern());
    v
}

/// The number in span `k` of a TDT match.
pub open spec fn tdt_part(m: Seq<u8>, ts: Seq<(int, int)>, k: int) -> int {
    digits_value(m.subrange(ts[k].0, ts[k].1))
}

/// The Unix time in milliseconds of a TDT match, if its date and time exist.
pub open spec fn tdt_millis(m: Seq<u8>, ts: Seq<(int, int)>) -> Option<i64> {
    let y = tdt_part(m, ts, 1);
    let mo = tdt_part(m, ts, 3);
    let d = tdt_part(m, ts, 5);
    let h = tdt_part(m, ts, 7);
    let mi = tdt_part(m, ts, 9);
    let s = tdt_part(m, ts, 11);
    if civil_valid(y, mo, d, h, mi, s) {
        Some(unix_millis(y, mo, d, h, mi, s) as i64)
    } else {
        None
    }
}

/// The last TDT time seen; it lives as long as the parser that owns it.
pub struct TdtClock {
    pub latest_tdt_ms: Option<i64>,
}

/// A TDT time is a reset when one was seen before and it is not later.
pub open spec fn is_reset_after(latest: Option<i64>, t: i64) -> bool {
    latest matches Some(l) && t <= l
}

impl TdtClock {
    pub fn new() -> (r: Self)
        ensures
            r.latest_tdt_ms is None,
    {
        TdtClock { latest_tdt_ms: None }
    }

    /// Records a TDT time, the last one winning even on a reset, and says
    /// whether it was a reset.
    pub fn observe(&mut self, t: i64) -> (reset: bool)
        ensures
            reset == is_reset_after(old(self).latest_tdt_ms, t),
            final(self).latest_tdt_ms == Some(t),
    {
        let reset = match self.latest_tdt_ms {
            Some(l) => t <= l,
            None => false,
        };
        self.latest_tdt_ms = Some(t);
        reset
    }
}

fn part_value(m: &[u8], spans: &Vec<(usize, usize)>, k: usize, width: usize) -> (r: u32)
    requires
        k < spans@.len(),
        spans_fit(m@, spans_view(spans@), tdt_pattern()),
        tdt_pattern()[k as int] == Piece::Exactly(ByteClass::Digit, width),
        width <= 4,
    ensures
        r as int == tdt_part(m@, spans_view(spans@), k as int),
        r <= 9999,
{
    let (lo, hi) = spans[k];
    assert(spans_view(spans@)[k as int] == (lo as int, hi as int));
    let t = &m[lo..hi];
    proof {
        assert forall|i: int| 0 <= i < t@.len() implies #[trigger] in_class(t@[i], ByteClass::Digit) by {
            assert(t@[i] == m@[lo + i]);
        }
        lemma_digits_value_below(t@);
        reveal_with_fuel(pow10, 5);
        assert(pow10(2) == 100 && pow10(4) == 10000);
        assert(Seq::<u8>::empty() + t@ =~= t@);
    }
    let v = crate::number::accumulate_digits(t, 0, t.len(), 0, Ghost(Seq::empty()));
    proof {
        assert(t@.subrange(0, t@.len() as int) =~= t@);
    }
    v as u32
}

/// The Unix time of the leftmost TDT match in a message.
fn tdt_time(m: &[u8], spans: &Vec<(usize, usize)>) -> (r: Option<i64>)
    requires
        spans_fit(m@, spans_view(spans@), tdt_pattern()),
    ensures
        r == tdt_millis(m@, spans_view(spans@)),
{
    let y = part_value(m, spans, 1, 4);
    let mo = part_value(m, spans, 3, 2);
    let d = part_value(m, spans, 5, 2);
    let h = part_value(m, spans, 7, 2);
    let mi = part_value(m, spans, 9, 2);
    let s = part_value(m, spans, 11, 2);
    chrono_unix_millis(y as i32, mo, d, h, mi, s)
}

/// The PID and action of a PID-action match, as text.
fn pid_action_texts(m: &[u8], spans: &Vec<(usize, usize)>) -> (r: (String, String))
    requires
        valid_utf8(m@),
        spans_fit(m@, spans_view(spans@), pid_action_pattern()),
    ensures
        r.0@ == decode_utf8(m@.subrange(spans_view(spans@)[3].0, spans_view(spans@)[4].1)),
        r.1@ == decode_utf8(m@.subrange(spans_view(spans@)[6].0, spans_view(spans@)[6].1)),
{
    let ghost sp = spans_view(spans@);
    let (h0, _h1) = spans[3];
    let (q0, q1) = spans[4];
    let (a0, a1) = spans[6];
    assert(sp[3].0 == h0 as int && sp[4] == (q0 as int, q1 as int) && sp[6] == (a0 as int, a1 as int));
    proof {
        let hp = word_bytes(Word::HexPrefix);
        assert(lit_at(m@, h0 as int, hp));
        assert(sp[4].0 == sp[3].1);
        lemma_run_end(m@, q0 as int, ByteClass::Digit);
        let t = m@.subrange(h0 as int, q1 as int);
        assert forall|i: int| 0 <= i < t.len() implies #[trigger] t[i] < 0x80 by {
            assert(t[i] == m@[h0 + i]);
            if i < 2 {
                assert(m@.subrange(h0 as int, h0 + 2)[i] == m@[h0 + i]);
            } else {
                assert(in_class(m@[h0 + i], ByteClass::Digit));
            }
        }
        lemma_ascii_valid(t);
        lemma_run_end(m@, a0 as int, ByteClass::NotComma);
        let cp = word_bytes(Word::CloseParen);
        assert(lit_at(m@, sp[5].0, cp));
        assert(sp[6].0 == sp[5].1);
        assert(m@.subrange(sp[5].0, sp[5].0 + 2)[1] == m@[a0 - 1]);
        lemma_range_near_ascii(m@, a0 as int, a1 as int);
    }
    let pid = text_of(&m[h0..q1]);
    let action = text_of(&m[a0..a1]);
    (pid, action)
}

/// What a history line gives, and how the clock moves, from `before` to
/// `after`: a TDT time moves it and reports whether it was a reset; a
/// PID action, or a message of neither kind, leaves it alone.
pub open spec fn history_outcome_is(r: Option<TspHistory>, before: Option<i64>, after: Option<i64>, b: Seq<u8>) -> bool {
    match find_spans(b, history_pattern()) {
        None => r is None && after == before,
        Some(hs) => {
            let m = b.subrange(hs[3].0, hs[3].1);
            match find_spans(m, tdt_pattern()) {
                Some(ts) => match tdt_millis(m, ts) {
                    Some(t) => after == Some(t) && (r matches Some(h) && h.program_pid is None
                        && h.tdt_datetime_ms == Some(t) && h.is_reset == is_reset_after(before, t)
                        && h.action is None),
                    None => r is None && after == before,
                },
                None => after == before && match find_spans(m, pid_action_pattern()) {
                    Some(ps) => r matches Some(h) && h.tdt_datetime_ms is None && !h.is_reset
                        && (h.program_pid matches Some(pid) && pid@ == decode_utf8(m.subrange(ps[3].0, ps[4].1)))
                        && (h.action matches Some(a) && a@ == decode_utf8(m.subrange(ps[6].0, ps[6].1))),
                    None => r is None,
                },
            }
        },
    }
}

/// Parses a history line: its message is either a TDT time, checked
/// against the clock, or an action on a PID; anything else gives nothing.
pub fn parse_tsp_history(clock: &mut TdtClock, log_line: &str) -> (r: Option<TspHistory>)
    ensures
        history_outcome_is(r, old(clock).latest_tdt_ms, final(clock).latest_tdt_ms, encode_utf8(log_line@)),
{
    let b = log_line.as_bytes();
    let hpat = history_pieces();
    let hs = match search(b, hpat.as_slice()) {
        Some(v) => v,
        None => {
            return None;
        },
    };
    let ghost hsv = spans_view(hs@);
    proof {
        lemma_match_from_spans(b@, first_match(b@, hpat@).unwrap(), hpat@);
    }
    let (m0, m1) = hs[3];
    assert(hsv[3] == (m0 as int, m1 as int));
    let m = &b[m0..m1];
    proof {
        assert(lit_at(b@, hsv[2].0, word_bytes(Word::ColonSpace)));
        assert(hsv[3].0 == hsv[2].1);
        assert(b@.subrange(hsv[2].0, hsv[2].0 + 2)[1] == b@[m0 - 1]);
        lemma_run_end(b@, m0 as int, ByteClass::NotNewline);
        lemma_range_near_ascii(b@, m0 as int, m1 as int);
    }
    let tpat = tdt_pieces();
    match search(m, tpat.as_slice()) {
        Some(ts) => {
            proof {
                lemma_match_from_spans(m@, first_match(m@, tpat@).unwrap(), tpat@);
            }
            match tdt_time(m, &ts) {
                Some(t) => {
                    let is_reset = clock.observe(t);
                    Some(TspHistory { program_pid: None, tdt_datetime_ms: Some(t), is_reset, action: None })
                },
                None => None,
            }
        },
        None => {
            let ppat = pid_action_pieces();
            match search(m, ppat.as_slice()) {
                Some(ps) => {
                    proof {
                        lemma_match_from_spans(m@, first_match(m@, ppat@).unwrap(), ppat@);
                    }
                    let (pid, action) = pid_action_texts(m, &ps);
                    Some(TspHistory { program_pid: Some(pid), tdt_datetime_ms: None, is_reset: false, action: Some(action) })
                },
                None => None,
            }
        },
    }
}

} // verus!
