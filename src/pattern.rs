//! Sequential line patterns: a pattern is a list of pieces, each matched
//! where the previous one ended, and a line matches where the whole list
//! does, at the leftmost such place.
use vstd::prelude::*;
use crate::scan::{ByteClass, in_class, run_end, lit_at, scan_run, has_lit_at, byte_in_class,
    lemma_run_end, first_in, lemma_first_in_is, lemma_first_in_none, all_in_class};

verus! {

/// The fixed words that the line grammars spell out.
#[derive(Clone, Copy, PartialEq, Eq, Structural, Debug)]
pub enum Word {
    /// `out=`
    Out,
    /// `st=`
    St,
    /// `frame=`
    Frame,
    /// `q=`
    Quality,
    /// `f_size=`
    FrameSize,
    /// `s_size=`
    StreamSize,
    /// `kB`
    Kilobytes,
    /// `time=`
    Time,
    /// `br=`
    Bitrate,
    /// `kbits/s`
    Kbits,
    /// `avg_br=`
    AvgBitrate,
    /// `type=`
    PictureType,
    /// `* history: `
    History,
    /// `: `
    ColonSpace,
    /// `TDT: `
    Tdt,
    /// `/`
    Slash,
    /// ` `
    Space,
    /// `:`
    Colon,
    /// `PID `
    Pid,
    /// ` (`
    OpenParen,
    /// `0x`
    HexPrefix,
    /// `) `
    CloseParen,
    /// `continuity:`
    Continuity,
    /// ` PID: `
    PidLabel,
    /// `, missing `
    Missing,
    /// ` packet`
    Packet,
    /// `STAT ALERT-count`
    Alert,
}

/// The bytes of each word.
pub open spec fn word_bytes(w: Word) -> Seq<u8> {
    match w {
        Word::Out => seq![111u8, 117, 116, 61],
        Word::St => seq![115u8, 116, 61],
        Word::Frame => seq![102u8, 114, 97, 109, 101, 61],
        Word::Quality => seq![113u8, 61],
        Word::FrameSize => seq![102u8, 95, 115, 105, 122, 101, 61],
        Word::StreamSize => seq![115u8, 95, 115, 105, 122, 101, 61],
        Word::Kilobytes => seq![107u8, 66],
        Word::Time => seq![116u8, 105, 109, 101, 61],
        Word::Bitrate => seq![98u8, 114, 61],
        Word::Kbits => seq![107u8, 98, 105, 116, 115, 47, 115],
        Word::AvgBitrate => seq![97u8, 118, 103, 95, 98, 114, 61],
        Word::PictureType => seq![116u8, 121, 112, 101, 61],
        Word::History => seq![42u8, 32, 104, 105, 115, 116, 111, 114, 121, 58, 32],
        Word::ColonSpace => seq![58u8, 32],
        Word::Tdt => seq![84u8, 68, 84, 58, 32],
        Word::Slash => seq![47u8],
        Word::Space => seq![32u8],
        Word::Colon => seq![58u8],
        Word::Pid => seq![80u8, 73, 68, 32],
        Word::OpenParen => seq![32u8, 40],
        Word::HexPrefix => seq![48u8, 120],
        Word::CloseParen => seq![41u8, 32],
        Word::Continuity => seq![99u8, 111, 110, 116, 105, 110, 117, 105, 116, 121, 58],
        Word::PidLabel => seq![32u8, 80, 73, 68, 58, 32],
        Word::Missing => seq![44u8, 32, 109, 105, 115, 115, 105, 110, 103, 32],
        Word::Packet => seq![32u8, 112, 97, 99, 107, 101, 116],
        Word::Alert => seq![83u8, 84, 65, 84, 32, 65, 76, 69, 82, 84, 45, 99, 111, 117, 110, 116],
    }
}

pub fn word_vec(w: Word) -> (r: Vec<u8>)
    ensures
        r@ == word_bytes(w),
{
    let v: Vec<u8> = match w {
        Word::Out => vec![111u8, 117, 116, 61],
        Word::St => vec![115u8, 116, 61],
        Word::Frame => vec![102u8, 114, 97, 109, 101, 61],
        Word::Quality => vec![113u8, 61],
        Word::FrameSize => vec![102u8, 95, 115, 105, 122, 101, 61],
        Word::StreamSize => vec![115u8, 95, 115, 105, 122, 101, 61],
        Word::Kilobytes => vec![107u8, 66],
        Word::Time => vec![116u8, 105, 109, 101, 61],
        Word::Bitrate => vec![98u8, 114, 61],
        Word::Kbits => vec![107u8, 98, 105, 116, 115, 47, 115],
        Word::AvgBitrate => vec![97u8, 118, 103, 95, 98, 114, 61],
        Word::PictureType => vec![116u8, 121, 112, 101, 61],
        Word::History => vec![42u8, 32, 104, 105, 115, 116, 111, 114, 121, 58, 32],
        Word::ColonSpace => vec![58u8, 32],
        Word::Tdt => vec![84u8, 68, 84, 58, 32],
        Word::Slash => vec![47u8],
        Word::Space => vec![32u8],
        Word::Colon => vec![58u8],
        Word::Pid => vec![80u8, 73, 68, 32],
        Word::OpenParen => vec![32u8, 40],
        Word::HexPrefix => vec![48u8, 120],
        Word::CloseParen => vec![41u8, 32],
        Word::Continuity => vec![99u8, 111, 110, 116, 105, 110, 117, 105, 116, 121, 58],
        Word::PidLabel => vec![32u8, 80, 73, 68, 58, 32],
        Word::Missing => vec![44u8, 32, 109, 105, 115, 115, 105, 110, 103, 32],
        Word::Packet => vec![32u8, 112, 97, 99, 107, 101, 116],
        Word::Alert => vec![83u8, 84, 65, 84, 32, 65, 76, 69, 82, 84, 45, 99, 111, 117, 110, 116],
    };
    assert(v@ =~= word_bytes(w));
    v
}

/// One piece of a pattern.
#[derive(Clone, Copy, PartialEq, Eq, Structural, Debug)]
pub enum Piece {
    /// The word itself.
    Lit(Word),
    /// One or more bytes of the class, as many as there are.
    Run(ByteClass),
    /// Exactly this many bytes of the class.
    Exactly(ByteClass, usize),
    /// Digits, a dot, digits.
    Decimal,
    /// `k` or `K`, an optional `i`, then `B`.
    SizeUnit,
}

/// Where a maximal, non-empty run of class `k` from `i` ends.
pub open spec fn after_run(b: Seq<u8>, i: int, k: ByteClass) -> Option<int> {
    if 0 <= i && run_end(b, i, k) > i {
        Some(run_end(b, i, k))
    } else {
        None
    }
}

/// Where piece `p` ends when it starts at `i`, if it matches there.
pub open spec fn piece_end(b: Seq<u8>, i: int, p: Piece) -> Option<int> {
    match p {
        Piece::Lit(w) => if lit_at(b, i, word_bytes(w)) { Some(i + word_bytes(w).len()) } else { None },
        Piece::Run(k) => after_run(b, i, k),
        Piece::Exactly(k, n) => if 0 <= i && i + n <= b.len() && all_in_class(b, i, i + n, k) {
            Some(i + n)
        } else {
            None
        },
        Piece::Decimal => match after_run(b, i, ByteClass::Digit) {
            Some(d) => if d < b.len() && b[d] == 0x2e {
                after_run(b, d + 1, ByteClass::Digit)
            } else {
                None
            },
            None => None,
        },
        Piece::SizeUnit => if 0 <= i && i < b.len() && (b[i] == 0x6b || b[i] == 0x4b) {
            if i + 1 < b.len() && b[i + 1] == 0x42 {
                Some(i + 2)
            } else if i + 2 < b.len() && b[i + 1] == 0x69 && b[i + 2] == 0x42 {
                Some(i + 3)
            } else {
                None
            }
        } else {
            None
        },
    }
}

/// The spans `(start, end)` that the pieces of `pat` take when the pattern is
/// matched from `i`, if it matches there.
pub open spec fn match_from(b: Seq<u8>, i: int, pat: Seq<Piece>) -> Option<Seq<(int, int)>>
    decreases pat.len(),
{
    if pat.len() == 0 {
        Some(Seq::empty())
    } else {
        match piece_end(b, i, pat[0]) {
            Some(e) => match match_from(b, e, pat.drop_first()) {
                Some(rest) => Some(seq![(i, e)] + rest),
                None => None,
            },
            None => None,
        }
    }
}

/// The leftmost place where `pat` matches.
pub open spec fn first_match(b: Seq<u8>, pat: Seq<Piece>) -> Option<int> {
    first_in(0, b.len() + 1 as int, |s: int| match_from(b, s, pat) is Some)
}

/// The spans of the leftmost match of `pat` in `b`.
pub open spec fn find_spans(b: Seq<u8>, pat: Seq<Piece>) -> Option<Seq<(int, int)>> {
    match first_match(b, pat) {
        Some(s) => match_from(b, s, pat),
        None => None,
    }
}

pub proof fn lemma_piece_end_bounds(b: Seq<u8>, i: int, p: Piece)
    ensures
        piece_end(b, i, p) matches Some(e) ==> 0 <= i <= e <= b.len(),
{
    if 0 <= i <= b.len() {
        lemma_run_end(b, i, ByteClass::Digit);
        match p {
            Piece::Run(k) => lemma_run_end(b, i, k),
            Piece::Decimal => {
                let d = run_end(b, i, ByteClass::Digit);
                if d < b.len() {
                    lemma_run_end(b, d + 1, ByteClass::Digit);
                }
            },
            _ => {},
        }
    }
}

/// Each span of a match is where its piece matched, inside the line.
pub proof fn lemma_match_from_spans(b: Seq<u8>, i: int, pat: Seq<Piece>)
    ensures
        match_from(b, i, pat) matches Some(sp) ==> {
            &&& sp.len() == pat.len()
            &&& forall|k: int| 0 <= k < sp.len() ==> 0 <= (#[trigger] sp[k]).0 <= sp[k].1 <= b.len()
                && piece_end(b, sp[k].0, pat[k]) == Some(sp[k].1)
            &&& forall|k: int| 0 < k < sp.len() ==> (#[trigger] sp[k]).0 == sp[k - 1].1
            &&& sp.len() > 0 ==> sp[0].0 == i
        },
    decreases pat.len(),
{
    if pat.len() > 0 {
        lemma_piece_end_bounds(b, i, pat[0]);
        if let Some(e) = piece_end(b, i, pat[0]) {
            lemma_match_from_spans(b, e, pat.drop_first());
            if let Some(rest) = match_from(b, e, pat.drop_first()) {
                let sp = seq![(i, e)] + rest;
                assert forall|k: int| 0 <= k < sp.len() implies 0 <= (#[trigger] sp[k]).0 <= sp[k].1 <= b.len()
                    && piece_end(b, sp[k].0, pat[k]) == Some(sp[k].1) by {
                    if k > 0 {
                        assert(sp[k] == rest[k - 1]);
                        assert(pat[k] == pat.drop_first()[k - 1]);
                    }
                }
                assert forall|k: int| 0 < k < sp.len() implies (#[trigger] sp[k]).0 == sp[k - 1].1 by {
                    assert(sp[k] == rest[k - 1]);
                    if k > 1 {
                        assert(sp[k - 1] == rest[k - 2]);
                    }
                }
            }
        }
    }
}

/// The spans of a match hold their pieces' shapes, inside the line.
pub open spec fn spans_fit(b: Seq<u8>, sp: Seq<(int, int)>, pat: Seq<Piece>) -> bool {
    &&& sp.len() == pat.len()
    &&& forall|k: int| 0 <= k < sp.len() ==> 0 <= (#[trigger] sp[k]).0 <= sp[k].1 <= b.len()
        && piece_end(b, sp[k].0, pat[k]) == Some(sp[k].1)
    &&& forall|k: int| 0 < k < sp.len() ==> (#[trigger] sp[k]).0 == sp[k - 1].1
}

pub open spec fn spans_view(v: Seq<(usize, usize)>) -> Seq<(int, int)> {
    v.map_values(|p: (usize, usize)| (p.0 as int, p.1 as int))
}

fn run_from(b: &[u8], i: usize, k: ByteClass) -> (r: Option<usize>)
    requires
        i <= b@.len(),
    ensures
        r matches Some(e) ==> after_run(b@, i as int, k) == Some(e as int) && e <= b@.len(),
        r is None ==> after_run(b@, i as int, k) is None,
{
    let e = scan_run(b, i, k);
    if e > i {
        Some(e)
    } else {
        None
    }
}

/// Where piece `p` ends when it starts at `i`.
pub fn match_piece(b: &[u8], i: usize, p: Piece) -> (r: Option<usize>)
    requires
        i <= b@.len(),
    ensures
        r matches Some(e) ==> piece_end(b@, i as int, p) == Some(e as int) && e <= b@.len(),
        r is None ==> piece_end(b@, i as int, p) is None,
{
    let n: usize = b.len();
    match p {
        Piece::Lit(w) => {
            let lit = word_vec(w);
            if has_lit_at(b, i, lit.as_slice()) {
                assert(lit@.len() == word_bytes(w).len());
                assert(i + lit@.len() <= b@.len());
                Some(i + lit.len())
            } else {
                None
            }
        },
        Piece::Run(k) => run_from(b, i, k),
        Piece::Exactly(k, count) => {
            if count > n - i {
                return None;
            }
            let mut j: usize = 0;
            while j < count
                invariant
                    n == b@.len(),
                    p == Piece::Exactly(k, count),
                    i + count <= n,
                    j <= count,
                    all_in_class(b@, i as int, i + j, k),
                decreases count - j,
            {
                if !byte_in_class(b[i + j], k) {
                    assert(!in_class(b@[i + j], k));
                    return None;
                }
                j = j + 1;
            }
            Some(i + count)
        },
        Piece::Decimal => {
            match run_from(b, i, ByteClass::Digit) {
                Some(d) => {
                    proof {
                        lemma_run_end(b@, i as int, ByteClass::Digit);
                    }
                    if d < n && b[d] == 0x2e {
                        run_from(b, d + 1, ByteClass::Digit)
                    } else {
                        None
                    }
                },
                None => None,
            }
        },
        Piece::SizeUnit => {
            if i < n && (b[i] == 0x6b || b[i] == 0x4b) {
                if i + 1 < n && b[i + 1] == 0x42 {
                    Some(i + 2)
                } else if n - i > 2 && b[i + 1] == 0x69 && b[i + 2] == 0x42 {
                    Some(i + 3)
                } else {
                    None
                }
            } else {
                None
            }
        },
    }
}

/// The spans of `pat` matched from `s`.
pub fn match_at(b: &[u8], s: usize, pat: &[Piece]) -> (r: Option<Vec<(usize, usize)>>)
    requires
        s <= b@.len(),
    ensures
        r matches Some(v) ==> match_from(b@, s as int, pat@) == Some(spans_view(v@)),
        r is None ==> match_from(b@, s as int, pat@) is None,
{
    let mut spans: Vec<(usize, usize)> = Vec::new();
    let mut cur: usize = s;
    let mut j: usize = 0;
    proof {
        assert(pat@.subrange(0, pat@.len() as int) =~= pat@);
        assert(spans_view(spans@) =~= Seq::<(int, int)>::empty());
        if let Some(rest) = match_from(b@, s as int, pat@) {
            assert(spans_view(spans@) + rest =~= rest);
        }
    }
    while j < pat.len()
        invariant
            cur <= b@.len(),
            j <= pat@.len(),
            match_from(b@, s as int, pat@) == match match_from(b@, cur as int, pat@.subrange(j as int, pat@.len() as int)) {
                Some(rest) => Some(spans_view(spans@) + rest),
                None => None::<Seq<(int, int)>>,
            },
        decreases pat@.len() - j,
    {
        let ghost tail = pat@.subrange(j as int, pat@.len() as int);
        proof {
            assert(tail[0] == pat@[j as int]);
            assert(tail.drop_first() =~= pat@.subrange(j + 1, pat@.len() as int));
        }
        match match_piece(b, cur, pat[j]) {
            Some(e) => {
                let ghost before = spans@;
                spans.push((cur, e));
                proof {
                    assert(spans_view(spans@) =~= spans_view(before) + seq![(cur as int, e as int)]);
                    let m = match_from(b@, e as int, pat@.subrange(j + 1, pat@.len() as int));
                    if let Some(rest) = m {
                        assert(spans_view(before) + (seq![(cur as int, e as int)] + rest) =~= spans_view(spans@) + rest);
                    }
                }
                cur = e;
            },
            None => {
                return None;
            },
        }
        j = j + 1;
    }
    proof {
        assert(pat@.subrange(j as int, pat@.len() as int) =~= Seq::<Piece>::empty());
        assert(spans_view(spans@) + Seq::<(int, int)>::empty() =~= spans_view(spans@));
    }
    Some(spans)
}

/// The spans of the leftmost match of `pat` in `b`.
pub fn search(b: &[u8], pat: &[Piece]) -> (r: Option<Vec<(usize, usize)>>)
    ensures
        r matches Some(v) ==> find_spans(b@, pat@) == Some(spans_view(v@)),
        r is None ==> find_spans(b@, pat@) is None,
{
    let ghost f = |s: int| match_from(b@, s, pat@) is Some;
    let n: usize = b.len();
    let mut s: usize = 0;
    loop
        invariant
            n == b@.len(),
            s <= n,
            f == (|x: int| match_from(b@, x, pat@) is Some),
            forall|j: int| 0 <= j < s ==> !#[trigger] f(j),
        decreases n - s,
    {
        match match_at(b, s, pat) {
            Some(v) => {
                proof {
                    lemma_first_in_is(0, b@.len() + 1 as int, f, s as int);
                }
                return Some(v);
            },
            None => {},
        }
        if s == n {
            proof {
                lemma_first_in_none(0, b@.len() + 1 as int, f);
            }
            return None;
        }
        s = s + 1;
    }
}

} // verus!
