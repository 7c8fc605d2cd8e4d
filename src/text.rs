//! UTF-8 text held as bytes: the check that a byte sequence is text, and the
//! places where a well-formed sequence can be cut into well-formed pieces.
use vstd::prelude::*;
use vstd::utf8::*;

verus! {

broadcast use vstd::seq_lib::group_seq_properties;

/// Relies on `std::str::from_utf8`: `Ok` exactly when the bytes are
/// well-formed UTF-8, and then a `str` whose bytes are these.
#[verifier::external_body]
pub(crate) fn utf8_str(b: &[u8]) -> (r: Option<&str>)
    ensures
        r is Some <==> valid_utf8(b@),
        r matches Some(s) ==> s@ == decode_utf8(b@),
{
    std::str::from_utf8(b).ok()
}

/// The text that well-formed bytes encode, as an owned `String`.
pub fn text_of(b: &[u8]) -> (r: String)
    requires
        valid_utf8(b@),
    ensures
        r@ == decode_utf8(b@),
{
    match utf8_str(b) {
        Some(s) => s.to_owned(),
        None => String::new(),
    }
}

/// A single ASCII byte is well-formed UTF-8.
pub proof fn lemma_ascii_byte_valid(c: u8)
    requires
        c < 0x80,
    ensures
        valid_utf8(seq![c]),
{
    reveal_with_fuel(valid_utf8, 2);
    let s = seq![c];
    assert(pop_first_scalar(s) =~= Seq::<u8>::empty());
}

/// Bytes that are all ASCII are well-formed UTF-8.
pub proof fn lemma_ascii_valid(s: Seq<u8>)
    requires
        forall|i: int| 0 <= i < s.len() ==> #[trigger] s[i] < 0x80,
    ensures
        valid_utf8(s),
    decreases s.len(),
{
    if s.len() > 0 {
        let init = s.drop_last();
        assert forall|i: int| 0 <= i < init.len() implies #[trigger] init[i] < 0x80 by {
            assert(init[i] == s[i]);
        }
        lemma_ascii_valid(init);
        assert(s[s.len() - 1] < 0x80);
        lemma_ascii_byte_valid(s.last());
        valid_utf8_concat(init, seq![s.last()]);
        assert(init + seq![s.last()] =~= s);
    }
}

/// A cut of well-formed UTF-8 at the end, before an ASCII byte, or after an
/// ASCII byte leaves two well-formed pieces.
pub proof fn lemma_cut_near_ascii(b: Seq<u8>, i: int)
    requires
        valid_utf8(b),
        0 <= i <= b.len(),
        i == 0 || i == b.len() || b[i] < 0x80 || b[i - 1] < 0x80,
    ensures
        valid_utf8(b.subrange(0, i)),
        valid_utf8(b.subrange(i, b.len() as int)),
{
    broadcast use is_char_boundary_start_end_of_seq;

    if i == 0 || i == b.len() {
        valid_utf8_split(b, i);
    } else if b[i] < 0x80 {
        is_char_boundary_iff_not_is_continuation_byte(b, i);
        valid_utf8_split(b, i);
    } else {
        let j = i - 1;
        is_char_boundary_iff_not_is_continuation_byte(b, j);
        valid_utf8_split(b, j);
        let t = b.subrange(j, b.len() as int);
        assert(valid_first_scalar(t) && valid_utf8(pop_first_scalar(t)));
        assert(pop_first_scalar(t) =~= b.subrange(i, b.len() as int));
        lemma_ascii_byte_valid(b[j]);
        valid_utf8_concat(b.subrange(0, j), seq![b[j]]);
        assert(b.subrange(0, j) + seq![b[j]] =~= b.subrange(0, i));
    }
}

/// A range of well-formed UTF-8 whose two ends each lie at the end, before an
/// ASCII byte or after one is well-formed.
pub proof fn lemma_range_near_ascii(b: Seq<u8>, lo: int, hi: int)
    requires
        valid_utf8(b),
        0 <= lo <= hi <= b.len(),
        lo == 0 || lo == b.len() || b[lo] < 0x80 || b[lo - 1] < 0x80,
        hi == lo || hi == b.len() || b[hi] < 0x80 || b[hi - 1] < 0x80,
    ensures
        valid_utf8(b.subrange(lo, hi)),
{
    lemma_cut_near_ascii(b, lo);
    let t = b.subrange(lo, b.len() as int);
    let k = hi - lo;
    if k == 0 {
        assert(valid_utf8(Seq::<u8>::empty()));
        assert(b.subrange(lo, hi) =~= Seq::<u8>::empty());
    } else {
        lemma_cut_near_ascii(t, k);
        assert(t.subrange(0, k) =~= b.subrange(lo, hi));
    }
}

} // verus!
