//! Alert lines of a transport stream analyser.
use vstd::prelude::*;
use vstd::utf8::*;
use crate::scan::{contains_lit, find_lit, split_on, split_bytes};
use crate::pattern::{Word, word_bytes, word_vec};
use crate::number::{int_of_text, parse_int};
use crate::records::GigaToolsInfo;

verus! {

/// The byte that separates the tokens of an alert line.
pub const TOKEN_SEPARATOR: u8 = 0x20;

/// Token `k` read as an integer; 0 where there is no such token or it is not
/// one.
pub open spec fn counter_at(tokens: Seq<Seq<u8>>, k: int) -> i64 {
    if 0 <= k < tokens.len() {
        match int_of_text(tokens[k]) {
            Some(v) => v,
            None => 0,
        }
    } else {
        0
    }
}

/// A line holding `STAT ALERT-count` is an alert, whose counters are its
/// space-separated tokens 8 to 12; no other line gives a record.
pub open spec fn gigatools_of(b: Seq<u8>) -> Option<GigaToolsInfo> {
    if contains_lit(b, word_bytes(Word::Alert)) {
        let t = split_on(b, TOKEN_SEPARATOR);
        Some(
            GigaToolsInfo {
                delta_plus: counter_at(t, 8),
                delta_zero: counter_at(t, 9),
                pcr_delta: counter_at(t, 10),
                pcr_freq: counter_at(t, 11),
                lost_sync: counter_at(t, 12),
            },
        )
    } else {
        None
    }
}

fn counter(tokens: &Vec<Vec<u8>>, k: usize) -> (r: i64)
    ensures
        r == counter_at(tokens@.map_values(|t: Vec<u8>| t@), k as int),
{
    if k < tokens.len() {
        match parse_int(tokens[k].as_slice()) {
            Some(v) => v,
            None => 0,
        }
    } else {
        0
    }
}

/// Parses an alert line; every counter that is missing or not an integer
/// reads 0, and a line that is not an alert gives nothing.
pub fn parse_gigatools(log_line: &str) -> (r: Option<GigaToolsInfo>)
    ensures
        r == gigatools_of(encode_utf8(log_line@)),
{
    let b = log_line.as_bytes();
    let marker = word_vec(Word::Alert);
    if !find_lit(b, marker.as_slice()) {
        return None;
    }
    let tokens = split_bytes(b, TOKEN_SEPARATOR);
    proof {
        assert(tokens@.map_values(|t: Vec<u8>| t@) =~= split_on(b@, TOKEN_SEPARATOR));
    }
    Some(
        GigaToolsInfo {
            delta_plus: counter(&tokens, 8),
            delta_zero: counter(&tokens, 9),
            pcr_delta: counter(&tokens, 10),
            pcr_freq: counter(&tokens, 11),
            lost_sync: counter(&tokens, 12),
        },
    )
}

/// An alert line is never rejected, and one with fewer than 13 tokens has
/// all five counters at 0, unless one of its tokens from the ninth on reads
/// as an integer other than 0.
pub proof fn lemma_short_alert_counts_zero(b: Seq<u8>)
    requires
        contains_lit(b, word_bytes(Word::Alert)),
        split_on(b, TOKEN_SEPARATOR).len() < 13,
        forall|k: int| 8 <= k < split_on(b, TOKEN_SEPARATOR).len() ==> (#[trigger] int_of_text(
            split_on(b, TOKEN_SEPARATOR)[k],
        ) is None || int_of_text(split_on(b, TOKEN_SEPARATOR)[k]) == Some(0i64)),
    ensures
        gigatools_of(b) == Some(
            GigaToolsInfo { delta_plus: 0, delta_zero: 0, pcr_delta: 0, pcr_freq: 0, lost_sync: 0 },
        ),
{
    let t = split_on(b, TOKEN_SEPARATOR);
    assert(counter_at(t, 8) == 0 && counter_at(t, 9) == 0 && counter_at(t, 10) == 0);
    assert(counter_at(t, 11) == 0 && counter_at(t, 12) == 0);
}

} // verus!
