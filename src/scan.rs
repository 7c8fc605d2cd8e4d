//! Byte-level building blocks for the line grammars: classes of bytes, maximal
//! runs, literals at a position, and the first or last position in a range
//! that satisfies a predicate.
use vstd::prelude::*;

verus! {

/// The classes of bytes that the grammars repeat.
#[derive(Clone, Copy, PartialEq, Eq, Structural, Debug)]
pub enum ByteClass {
    /// `0`..=`9`
    Digit,
    /// space, tab, line feed, vertical tab, form feed, carriage return
    Space,
    /// the bytes from `A` to `z`, which takes in the six punctuation bytes between `Z` and `a`
    AsciiAtoz,
    /// anything but `,`
    NotComma,
    /// anything but a line feed
    NotNewline,
}

pub open spec fn in_class(c: u8, k: ByteClass) -> bool {
    match k {
        ByteClass::Digit => 0x30 <= c <= 0x39,
        ByteClass::Space => c == 0x20 || (0x09 <= c <= 0x0d),
        ByteClass::AsciiAtoz => 0x41 <= c <= 0x7a,
        ByteClass::NotComma => c != 0x2c,
        ByteClass::NotNewline => c != 0x0a,
    }
}

pub fn byte_in_class(c: u8, k: ByteClass) -> (r: bool)
    ensures
        r == in_class(c, k),
{
    match k {
        ByteClass::Digit => 0x30 <= c && c <= 0x39,
        ByteClass::Space => c == 0x20 || (0x09 <= c && c <= 0x0d),
        ByteClass::AsciiAtoz => 0x41 <= c && c <= 0x7a,
        ByteClass::NotComma => c != 0x2c,
        ByteClass::NotNewline => c != 0x0a,
    }
}

/// End of the longest run of bytes of class `k` that starts at `i`.
pub open spec fn run_end(b: Seq<u8>, i: int, k: ByteClass) -> int
    decreases b.len() - i,
{
    if 0 <= i < b.len() && in_class(b[i], k) {
        run_end(b, i + 1, k)
    } else {
        i
    }
}

/// Every byte in `[lo, hi)` is of class `k`.
pub open spec fn all_in_class(b: Seq<u8>, lo: int, hi: int, k: ByteClass) -> bool {
    forall|j: int| lo <= j < hi ==> #[trigger] in_class(b[j], k)
}

pub proof fn lemma_run_end(b: Seq<u8>, i: int, k: ByteClass)
    requires
        0 <= i <= b.len(),
    ensures
        i <= run_end(b, i, k) <= b.len(),
        all_in_class(b, i, run_end(b, i, k), k),
        run_end(b, i, k) < b.len() ==> !in_class(b[run_end(b, i, k)], k),
    decreases b.len() - i,
{
    if i < b.len() && in_class(b[i], k) {
        lemma_run_end(b, i + 1, k);
    }
}

pub fn scan_run(b: &[u8], i: usize, k: ByteClass) -> (r: usize)
    requires
        i <= b@.len(),
    ensures
        r as int == run_end(b@, i as int, k),
        i <= r <= b@.len(),
{
    let mut j: usize = i;
    while j < b.len() && byte_in_class(b[j], k)
        invariant
            i <= j <= b@.len(),
            run_end(b@, j as int, k) == run_end(b@, i as int, k),
        decreases b@.len() - j,
    {
        j = j + 1;
    }
    proof {
        lemma_run_end(b@, i as int, k);
    }
    j
}

/// `lit` occurs in `b` at position `i`.
pub open spec fn lit_at(b: Seq<u8>, i: int, lit: Seq<u8>) -> bool {
    0 <= i && i + lit.len() <= b.len() && b.subrange(i, i + lit.len()) == lit
}

pub fn has_lit_at(b: &[u8], i: usize, lit: &[u8]) -> (r: bool)
    ensures
        r == lit_at(b@, i as int, lit@),
{
    if i > b.len() || lit.len() > b.len() - i {
        return false;
    }
    let n: usize = b.len();
    let mut j: usize = 0;
    while j < lit.len()
        invariant
            n == b@.len(),
            i <= b@.len(),
            i + lit@.len() <= b@.len(),
            j <= lit@.len(),
            forall|t: int| 0 <= t < j ==> b@[i + t] == lit@[t],
        decreases lit@.len() - j,
    {
        if b[i + j] != lit[j] {
            assert(b@.subrange(i as int, i + lit@.len())[j as int] != lit@[j as int]);
            return false;
        }
        j = j + 1;
    }
    assert(b@.subrange(i as int, i + lit@.len()) =~= lit@);
    true
}

/// The least `i` in `[lo, hi)` with `f(i)`.
pub open spec fn first_in(lo: int, hi: int, f: spec_fn(int) -> bool) -> Option<int>
    decreases hi - lo,
{
    if lo >= hi {
        None
    } else if f(lo) {
        Some(lo)
    } else {
        first_in(lo + 1, hi, f)
    }
}

/// The greatest `i` in `[lo, hi)` with `f(i)`.
pub open spec fn last_in(lo: int, hi: int, f: spec_fn(int) -> bool) -> Option<int>
    decreases hi - lo,
{
    if lo >= hi {
        None
    } else if f(hi - 1) {
        Some(hi - 1)
    } else {
        last_in(lo, hi - 1, f)
    }
}

pub proof fn lemma_first_in(lo: int, hi: int, f: spec_fn(int) -> bool)
    ensures
        first_in(lo, hi, f) matches Some(i) ==> lo <= i < hi && f(i) && forall|j: int|
            lo <= j < i ==> !#[trigger] f(j),
        first_in(lo, hi, f) is None ==> forall|j: int| lo <= j < hi ==> !#[trigger] f(j),
    decreases hi - lo,
{
    if lo < hi && !f(lo) {
        lemma_first_in(lo + 1, hi, f);
    }
}

pub proof fn lemma_last_in(lo: int, hi: int, f: spec_fn(int) -> bool)
    ensures
        last_in(lo, hi, f) matches Some(i) ==> lo <= i < hi && f(i) && forall|j: int|
            i < j < hi ==> !#[trigger] f(j),
        last_in(lo, hi, f) is None ==> forall|j: int| lo <= j < hi ==> !#[trigger] f(j),
    decreases hi - lo,
{
    if lo < hi && !f(hi - 1) {
        lemma_last_in(lo, hi - 1, f);
    }
}

/// `first_in` is pinned down by a witness with nothing before it.
pub proof fn lemma_first_in_is(lo: int, hi: int, f: spec_fn(int) -> bool, i: int)
    requires
        lo <= i < hi,
        f(i),
        forall|j: int| lo <= j < i ==> !#[trigger] f(j),
    ensures
        first_in(lo, hi, f) == Some(i),
    decreases i - lo,
{
    if lo < i {
        lemma_first_in_is(lo + 1, hi, f, i);
    }
}

pub proof fn lemma_first_in_none(lo: int, hi: int, f: spec_fn(int) -> bool)
    requires
        forall|j: int| lo <= j < hi ==> !#[trigger] f(j),
    ensures
        first_in(lo, hi, f) is None,
    decreases hi - lo,
{
    if lo < hi {
        lemma_first_in_none(lo + 1, hi, f);
    }
}

/// `last_in` is pinned down by a witness with nothing after it.
pub proof fn lemma_last_in_is(lo: int, hi: int, f: spec_fn(int) -> bool, i: int)
    requires
        lo <= i < hi,
        f(i),
        forall|j: int| i < j < hi ==> !#[trigger] f(j),
    ensures
        last_in(lo, hi, f) == Some(i),
    decreases hi - i,
{
    if i < hi - 1 {
        lemma_last_in_is(lo, hi - 1, f, i);
    }
}

pub proof fn lemma_last_in_none(lo: int, hi: int, f: spec_fn(int) -> bool)
    requires
        forall|j: int| lo <= j < hi ==> !#[trigger] f(j),
    ensures
        last_in(lo, hi, f) is None,
    decreases hi - lo,
{
    if lo < hi {
        lemma_last_in_none(lo, hi - 1, f);
    }
}

/// The pieces of `s` between the separator bytes `sep`, in order: one more
/// piece than there are separators.
pub open spec fn split_on(s: Seq<u8>, sep: u8) -> Seq<Seq<u8>>
    decreases s.len(),
{
    if s.len() == 0 {
        seq![Seq::empty()]
    } else {
        let p = split_on(s.drop_last(), sep);
        if s.last() == sep {
            p.push(Seq::empty())
        } else {
            p.update(p.len() - 1, p.last().push(s.last()))
        }
    }
}

pub proof fn lemma_split_on_len(s: Seq<u8>, sep: u8)
    ensures
        split_on(s, sep).len() >= 1,
    decreases s.len(),
{
    if s.len() > 0 {
        lemma_split_on_len(s.drop_last(), sep);
    }
}

/// The pieces of `b` between separators, each as its own vector.
pub fn split_bytes(b: &[u8], sep: u8) -> (r: Vec<Vec<u8>>)
    ensures
        r@.len() == split_on(b@, sep).len(),
        forall|k: int| 0 <= k < r@.len() ==> #[trigger] r@[k]@ == split_on(b@, sep)[k],
{
    let mut pieces: Vec<Vec<u8>> = Vec::new();
    let mut current: Vec<u8> = Vec::new();
    let n: usize = b.len();
    let mut i: usize = 0;
    proof {
        assert(b@.subrange(0, 0) =~= Seq::<u8>::empty());
    }
    while i < n
        invariant
            n == b@.len(),
            i <= n,
            pieces@.len() + 1 == split_on(b@.subrange(0, i as int), sep).len(),
            forall|k: int| 0 <= k < pieces@.len() ==> #[trigger] pieces@[k]@ == split_on(b@.subrange(0, i as int), sep)[k],
            current@ == split_on(b@.subrange(0, i as int), sep).last(),
        decreases n - i,
    {
        let ghost pre = b@.subrange(0, i as int);
        let ghost post = b@.subrange(0, i + 1);
        proof {
            assert(post.drop_last() =~= pre);
            assert(post.last() == b@[i as int]);
            lemma_split_on_len(pre, sep);
        }
        if b[i] == sep {
            let mut done: Vec<u8> = Vec::new();
            std::mem::swap(&mut done, &mut current);
            pieces.push(done);
            proof {
                assert forall|k: int| 0 <= k < pieces@.len() implies #[trigger] pieces@[k]@ == split_on(post, sep)[k] by {
                    if k < pieces@.len() - 1 {
                        assert(split_on(post, sep)[k] == split_on(pre, sep)[k]);
                    }
                }
            }
        } else {
            current.push(b[i]);
            proof {
                assert forall|k: int| 0 <= k < pieces@.len() implies #[trigger] pieces@[k]@ == split_on(post, sep)[k] by {
                    assert(split_on(post, sep)[k] == split_on(pre, sep)[k]);
                }
            }
        }
        i = i + 1;
    }
    proof {
        assert(b@.subrange(0, n as int) =~= b@);
        lemma_split_on_len(b@, sep);
    }
    pieces.push(current);
    proof {
        let ls = split_on(b@, sep);
        assert forall|k: int| 0 <= k < pieces@.len() implies #[trigger] pieces@[k]@ == ls[k] by {
        }
    }
    pieces
}

/// Whether `lit` occurs anywhere in `b`.
pub open spec fn contains_lit(b: Seq<u8>, lit: Seq<u8>) -> bool {
    exists|i: int| lit_at(b, i, lit)
}

pub fn find_lit(b: &[u8], lit: &[u8]) -> (r: bool)
    ensures
        r == contains_lit(b@, lit@),
{
    let mut i: usize = 0;
    while i < b.len()
        invariant
            i <= b@.len(),
            forall|j: int| 0 <= j < i ==> !lit_at(b@, j, lit@),
        decreases b@.len() - i,
    {
        if has_lit_at(b, i, lit) {
            return true;
        }
        i = i + 1;
    }
    if has_lit_at(b, i, lit) {
        return true;
    }
    assert forall|j: int| !lit_at(b@, j, lit@) by {
        if 0 <= j <= i {
        }
    }
    false
}

} // verus!
