//! Turns byte chunks, cut anywhere, into complete newline-terminated lines.
use vstd::prelude::*;
use vstd::utf8::*;
use crate::scan::split_on;
use crate::text::{utf8_str, text_of, lemma_range_near_ascii};

verus! {

broadcast use vstd::seq_lib::group_seq_properties;

/// The line feed byte.
pub const NEWLINE: u8 = 0x0a;

/// The pieces of `s` between line feeds, in order: one more piece than there
/// are line feeds, the last one being what follows the last line feed.
pub open spec fn split_lines(s: Seq<u8>) -> Seq<Seq<u8>> {
    split_on(s, NEWLINE)
}

/// How many line feeds `s` holds.
pub open spec fn count_newlines(s: Seq<u8>) -> nat
    decreases s.len(),
{
    if s.len() == 0 {
        0
    } else {
        count_newlines(s.drop_last()) + if s.last() == NEWLINE { 1nat } else { 0nat }
    }
}

/// The complete lines that a chunk finishes, given the pending fragment.
pub open spec fn lines_after(fragment: Seq<u8>, chunk: Seq<u8>) -> Seq<Seq<u8>> {
    split_lines(fragment + chunk).drop_last()
}

/// The fragment left pending after a chunk.
pub open spec fn fragment_after(fragment: Seq<u8>, chunk: Seq<u8>) -> Seq<u8> {
    split_lines(fragment + chunk).last()
}

/// `s` holds no line feed.
pub open spec fn no_newline(s: Seq<u8>) -> bool {
    forall|i: int| 0 <= i < s.len() ==> s[i] != NEWLINE
}

pub proof fn lemma_split_lines_basics(s: Seq<u8>)
    ensures
        split_lines(s).len() == count_newlines(s) + 1,
        forall|k: int| 0 <= k < split_lines(s).len() ==> no_newline(#[trigger] split_lines(s)[k]),
    decreases s.len(),
{
    if s.len() > 0 {
        lemma_split_lines_basics(s.drop_last());
        let p = split_lines(s.drop_last());
        if s.last() != NEWLINE {
            assert forall|k: int| 0 <= k < split_lines(s).len() implies no_newline(#[trigger] split_lines(s)[k]) by {
                if k == p.len() - 1 {
                    assert(no_newline(p[k]));
                    let q = p[k].push(s.last());
                    assert forall|i: int| 0 <= i < q.len() implies q[i] != NEWLINE by {
                        if i < p[k].len() {
                            assert(q[i] == p[k][i]);
                        }
                    }
                } else {
                    assert(split_lines(s)[k] == p[k]);
                }
            }
        } else {
            assert forall|k: int| 0 <= k < split_lines(s).len() implies no_newline(#[trigger] split_lines(s)[k]) by {
                if k < p.len() {
                    assert(split_lines(s)[k] == p[k]);
                }
            }
        }
    }
}

/// A piece without line feeds splits into itself.
pub proof fn lemma_split_lines_single(s: Seq<u8>)
    requires
        no_newline(s),
    ensures
        split_lines(s) == seq![s],
    decreases s.len(),
{
    if s.len() > 0 {
        lemma_split_lines_single(s.drop_last());
        assert(s.drop_last().push(s.last()) =~= s);
        assert(split_lines(s) =~= seq![s]);
    }
}

/// Splitting a concatenation: the complete pieces of `a`, then the pieces of
/// `a`'s last piece followed by `b`.
pub proof fn lemma_split_lines_append(a: Seq<u8>, b: Seq<u8>)
    ensures
        split_lines(a + b) == split_lines(a).drop_last() + split_lines(split_lines(a).last() + b),
    decreases b.len(),
{
    lemma_split_lines_basics(a);
    let pa = split_lines(a);
    if b.len() == 0 {
        assert(a + b =~= a);
        assert(pa.last() + b =~= pa.last());
        lemma_split_lines_single(pa.last());
        assert(pa.drop_last() + seq![pa.last()] =~= pa);
    } else {
        let b0 = b.drop_last();
        lemma_split_lines_append(a, b0);
        assert((a + b).drop_last() =~= a + b0);
        assert((pa.last() + b).drop_last() =~= pa.last() + b0);
        assert((a + b).last() == b.last());
        assert((pa.last() + b).last() == b.last());
        let y = split_lines(pa.last() + b0);
        lemma_split_lines_basics(pa.last() + b0);
        let x = pa.drop_last();
        if b.last() == NEWLINE {
            assert((x + y).push(seq![]) =~= x + y.push(seq![]));
        } else {
            assert((x + y).update((x + y).len() - 1, (x + y).last().push(b.last())) =~= x + y.update(
                y.len() - 1,
                y.last().push(b.last()),
            ));
        }
    }
}

/// The bytes of the chunks, one after the other.
pub open spec fn concat_chunks(chunks: Seq<Seq<u8>>) -> Seq<u8>
    decreases chunks.len(),
{
    if chunks.len() == 0 {
        Seq::empty()
    } else {
        concat_chunks(chunks.drop_last()) + chunks.last()
    }
}

/// What a fresh reassembler emits over a run of chunks, and the fragment it
/// is left with; a chunk that is not UTF-8 is dropped whole.
pub open spec fn reassemble(chunks: Seq<Seq<u8>>) -> (Seq<Seq<u8>>, Seq<u8>)
    decreases chunks.len(),
{
    if chunks.len() == 0 {
        (Seq::empty(), Seq::empty())
    } else {
        let (lines, fragment) = reassemble(chunks.drop_last());
        let c = chunks.last();
        if valid_utf8(c) {
            (lines + lines_after(fragment, c), fragment_after(fragment, c))
        } else {
            (lines, fragment)
        }
    }
}

/// Chunking does not matter: over chunks that are each UTF-8, a fresh
/// reassembler emits exactly the line-feed-terminated pieces of their
/// concatenation, as many as it holds line feeds, and keeps what follows the
/// last line feed pending.
pub proof fn lemma_chunking_invariance(chunks: Seq<Seq<u8>>)
    requires
        forall|k: int| 0 <= k < chunks.len() ==> valid_utf8(#[trigger] chunks[k]),
    ensures
        reassemble(chunks).0 == split_lines(concat_chunks(chunks)).drop_last(),
        reassemble(chunks).1 == split_lines(concat_chunks(chunks)).last(),
        reassemble(chunks).0.len() == count_newlines(concat_chunks(chunks)),
    decreases chunks.len(),
{
    let s = concat_chunks(chunks);
    lemma_split_lines_basics(s);
    if chunks.len() == 0 {
        assert(split_lines(s).drop_last() =~= Seq::<Seq<u8>>::empty());
    } else {
        let init = chunks.drop_last();
        assert forall|k: int| 0 <= k < init.len() implies valid_utf8(#[trigger] init[k]) by {
            assert(init[k] == chunks[k]);
        }
        lemma_chunking_invariance(init);
        let a = concat_chunks(init);
        let c = chunks.last();
        assert(valid_utf8(chunks[chunks.len() - 1]));
        lemma_split_lines_append(a, c);
        lemma_split_lines_basics(a);
        let pa = split_lines(a);
        let y = split_lines(pa.last() + c);
        lemma_split_lines_basics(pa.last() + c);
        assert(pa.drop_last() + y.drop_last() =~= (pa.drop_last() + y).drop_last());
    }
}

/// A chunk that is not well-formed UTF-8; its bytes were dropped.
#[derive(Clone, Copy, PartialEq, Eq, Structural, Debug)]
pub struct Utf8DecodeError;

/// Holds the incomplete tail of the stream between chunks.
pub struct LineReassembler {
    fragment: Vec<u8>,
}

impl View for LineReassembler {
    type V = Seq<u8>;

    /// The pending fragment.
    closed spec fn view(&self) -> Seq<u8> {
        self.fragment@
    }
}

impl LineReassembler {
    /// The fragment is text and holds no line feed.
    pub closed spec fn well_formed(&self) -> bool {
        valid_utf8(self.fragment@) && no_newline(self.fragment@)
    }

    pub fn new() -> (r: Self)
        ensures
            r@ == Seq::<u8>::empty(),
            r.well_formed(),
    {
        let r = LineReassembler { fragment: Vec::new() };
        proof {
            assert(valid_utf8(Seq::<u8>::empty()));
        }
        r
    }

    /// Takes one chunk. A chunk that is UTF-8 completes the lines that its
    /// line feeds end, which come back in order, and leaves what follows its
    /// last line feed pending; any other chunk is an error, dropped whole,
    /// and the pending fragment stays as it was.
    pub fn push_chunk(&mut self, chunk: &[u8]) -> (r: Result<Vec<String>, Utf8DecodeError>)
        requires
            old(self).well_formed(),
        ensures
            final(self).well_formed(),
            r is Ok <==> valid_utf8(chunk@),
            r matches Ok(lines) ==> {
                &&& lines@.len() == lines_after(old(self)@, chunk@).len()
                &&& forall|k: int| 0 <= k < lines@.len() ==> #[trigger] lines@[k]@ == decode_utf8(
                    lines_after(old(self)@, chunk@)[k],
                )
                &&& final(self)@ == fragment_after(old(self)@, chunk@)
            },
            r is Err ==> final(self)@ == old(self)@,
    {
        let mut lines: Vec<String> = Vec::new();
        if utf8_str(chunk).is_none() {
            return Err(Utf8DecodeError);
        }
        let ghost frag0 = self.fragment@;
        let ghost total = frag0 + chunk@;
        let mut current: Vec<u8> = Vec::new();
        std::mem::swap(&mut current, &mut self.fragment);
        let n: usize = chunk.len();
        let mut start: usize = 0;
        let mut i: usize = 0;
        proof {
            assert(total.subrange(0, frag0.len() as int) =~= frag0);
            lemma_split_lines_single(frag0);
            assert(current@ =~= frag0 + chunk@.subrange(0, 0));
        }
        while i < n
            invariant
                n == chunk@.len(),
                valid_utf8(chunk@),
                valid_utf8(frag0),
                no_newline(frag0),
                total == frag0 + chunk@,
                start <= i <= n,
                start == 0 || chunk@[start - 1] == NEWLINE,
                current@ == (if start == 0 { frag0 } else { Seq::empty() }) + chunk@.subrange(start as int, i as int),
                lines@.len() + 1 == split_lines(total.subrange(0, frag0.len() + i)).len(),
                forall|k: int| 0 <= k < lines@.len() ==> #[trigger] lines@[k]@ == decode_utf8(
                    split_lines(total.subrange(0, frag0.len() + i))[k],
                ),
                current@ == split_lines(total.subrange(0, frag0.len() + i)).last(),
            decreases n - i,
        {
            let ghost pre = total.subrange(0, frag0.len() + i);
            let ghost post = total.subrange(0, frag0.len() + i + 1);
            proof {
                assert(post.drop_last() =~= pre);
                assert(post.last() == chunk@[i as int]);
            }
            if chunk[i] == NEWLINE {
                proof {
                    lemma_range_near_ascii(chunk@, start as int, i as int);
                    vstd::utf8::valid_utf8_concat(frag0, chunk@.subrange(start as int, i as int));
                    if start > 0 {
                        assert(Seq::<u8>::empty() + chunk@.subrange(start as int, i as int) =~= chunk@.subrange(start as int, i as int));
                    }
                }
                let line = text_of(current.as_slice());
                lines.push(line);
                current = Vec::new();
                start = i + 1;
                proof {
                    assert(current@ =~= Seq::<u8>::empty() + chunk@.subrange(start as int, (i + 1) as int));
                    assert forall|k: int| 0 <= k < lines@.len() implies #[trigger] lines@[k]@ == decode_utf8(split_lines(post)[k]) by {
                        if k < lines@.len() - 1 {
                            assert(split_lines(post)[k] == split_lines(pre)[k]);
                        }
                    }
                }
            } else {
                current.push(chunk[i]);
                proof {
                    assert(current@ =~= (if start == 0 { frag0 } else { Seq::empty() }) + chunk@.subrange(start as int, (i + 1) as int));
                    assert forall|k: int| 0 <= k < lines@.len() implies #[trigger] lines@[k]@ == decode_utf8(split_lines(post)[k]) by {
                        assert(split_lines(post)[k] == split_lines(pre)[k]);
                    }
                }
            }
            i = i + 1;
        }
        proof {
            assert(total.subrange(0, frag0.len() + n) =~= total);
            let ls = split_lines(total);
            assert forall|k: int| 0 <= k < lines@.len() implies #[trigger] lines@[k]@ == decode_utf8(lines_after(frag0, chunk@)[k]) by {
                assert(lines_after(frag0, chunk@)[k] == ls[k]);
            }
            lemma_split_lines_basics(total);
            assert(no_newline(ls[ls.len() - 1]));
            lemma_range_near_ascii(chunk@, start as int, n as int);
            vstd::utf8::valid_utf8_concat(frag0, chunk@.subrange(start as int, n as int));
            if start > 0 {
                assert(Seq::<u8>::empty() + chunk@.subrange(start as int, n as int) =~= chunk@.subrange(start as int, n as int));
            }
        }
        self.fragment = current;
        Ok(lines)
    }
}

} // verus!
