//! The line reader: reconstructs logical records from a byte source that
//! delivers its bytes in arbitrary chunks, reassembling records that span
//! chunk boundaries. The chunking never shows in the records handed out:
//! the reader yields exactly the lines of the chunks' concatenation.

use vstd::prelude::*;

use crate::bytes::{
    find_first, first_occ, lemma_first_occ_absent, lemma_first_occ_exact, lemma_first_occ_props,
    push_range,
};
use crate::tokenize::views_of;

verus! {

/// The bytes of `cs` from position `cur` of chunk `ci` on.
spec fn flatten_from(cs: Seq<Seq<u8>>, ci: int, cur: int) -> Seq<u8>
    decreases cs.len() - ci,
{
    if ci < 0 || ci >= cs.len() {
        Seq::empty()
    } else {
        cs[ci].skip(cur) + flatten_from(cs, ci + 1, 0)
    }
}

proof fn lemma_flatten_from_zero(cs: Seq<Seq<u8>>, ci: int)
    requires
        0 <= ci <= cs.len(),
    ensures
        flatten_from(cs, ci, 0) == cs.skip(ci).flatten(),
    decreases cs.len() - ci,
{
    if ci == cs.len() {
        assert(cs.skip(ci) =~= Seq::<Seq<u8>>::empty());
        assert(Seq::<Seq<u8>>::empty().flatten() =~= Seq::<u8>::empty());
    } else {
        lemma_flatten_from_zero(cs, ci + 1);
        assert(cs.skip(ci).drop_first() =~= cs.skip(ci + 1));
        assert(cs.skip(ci)[0] == cs[ci]);
        assert(cs.skip(ci).flatten() == cs.skip(ci).first() + cs.skip(ci).drop_first().flatten());
        assert(cs[ci].skip(0) =~= cs[ci]);
    }
}

/// A buffered reader over a chunked byte source. Yields one logical line
/// per call; a line that spans several chunks is reassembled in a pending
/// accumulator before it is handed out.
pub struct LineReader {
    chunks: Vec<Vec<u8>>,
    chunk_idx: usize,
    cur: usize,
}

impl LineReader {
    /// The bytes of the source not yet handed out.
    pub closed spec fn remaining(self) -> Seq<u8> {
        flatten_from(views_of(self.chunks@), self.chunk_idx as int, self.cur as int)
    }

    /// The reader's cursor lies inside its chunks.
    pub closed spec fn wf(self) -> bool {
        &&& self.chunk_idx <= self.chunks@.len()
        &&& self.chunk_idx < self.chunks@.len() ==> self.cur
            <= self.chunks@[self.chunk_idx as int]@.len()
        &&& self.chunk_idx == self.chunks@.len() ==> self.cur == 0
    }

    /// A reader over the given chunks, positioned at their first byte.
    pub fn new(chunks: Vec<Vec<u8>>) -> (r: LineReader)
        ensures
            r.wf(),
            r.remaining() == views_of(chunks@).flatten(),
    {
        let r = LineReader { chunks, chunk_idx: 0, cur: 0 };
        proof {
            let cs = views_of(r.chunks@);
            lemma_flatten_from_zero(cs, 0);
            assert(cs.skip(0) =~= cs);
        }
        r
    }

    /// The next logical record: the bytes up to the next newline, or the
    /// trailing bytes as a final record; `None` exactly once, at true end
    /// of input, after all buffered bytes are exhausted.
    pub fn next_line(&mut self) -> (r: Option<Vec<u8>>)
        requires
            old(self).wf(),
        ensures
            final(self).wf(),
            ({
                let rem = old(self).remaining();
                let j = first_occ(rem, 10u8);
                if rem.len() == 0 {
                    r is None && final(self).remaining() == rem
                } else {
                    r matches Some(l) && l@ == rem.take(j) && final(self).remaining() == (if j
                        < rem.len() {
                        rem.skip(j + 1)
                    } else {
                        Seq::<u8>::empty()
                    })
                }
            }),
    {
        let ghost rem0 = self.remaining();
        let mut acc: Vec<u8> = Vec::new();
        proof {
            assert(acc@ + self.remaining() =~= rem0);
        }
        loop
            invariant
                rem0 == old(self).remaining(),
                self.wf(),
                acc@ + self.remaining() == rem0,
                forall|k: int| 0 <= k < acc@.len() ==> acc@[k] != 10u8,
            decreases self.chunks@.len() - self.chunk_idx,
        {
            let ghost cs = views_of(self.chunks@);
            let ghost ci = self.chunk_idx as int;
            let ghost cu = self.cur as int;
            let ghost acc0 = acc@;
            if self.chunk_idx >= self.chunks.len() {
                proof {
                    assert(self.remaining() =~= Seq::<u8>::empty());
                    assert(rem0 =~= acc0);
                }
                if acc.len() == 0 {
                    proof {
                        assert(acc0 =~= Seq::<u8>::empty());
                    }
                    return None;
                } else {
                    proof {
                        lemma_first_occ_absent(rem0, 10u8);
                        assert(rem0.take(rem0.len() as int) =~= rem0);
                    }
                    return Some(acc);
                }
            }
            let clen = self.chunks[self.chunk_idx].len();
            proof {
                assert(self.remaining() == cs[ci].skip(cu) + flatten_from(cs, ci + 1, 0));
            }
            let chunk = &self.chunks[self.chunk_idx];
            let rest = vstd::slice::slice_subrange(chunk.as_slice(), self.cur, clen);
            proof {
                assert(rest@ =~= cs[ci].skip(cu));
            }
            match find_first(10u8, rest) {
                Some(j) => {
                    proof {
                        lemma_first_occ_props(rest@, 10u8);
                    }
                    push_range(&mut acc, chunk.as_slice(), self.cur, self.cur + j);
                    self.cur = self.cur + j + 1;
                    proof {
                        let nl_at = acc0.len() + j;
                        assert(rem0[nl_at] == 10u8) by {
                            assert(rest@[j as int] == 10u8);
                            assert(rem0 == acc0 + (cs[ci].skip(cu) + flatten_from(cs, ci + 1, 0)));
                        }
                        assert forall|k: int| 0 <= k < nl_at implies rem0[k] != 10u8 by {
                            if k >= acc0.len() {
                                assert(rest@[k - acc0.len()] != 10u8);
                            }
                        }
                        assert(nl_at < rem0.len());
                        lemma_first_occ_exact(rem0, 10u8, nl_at);
                        assert(acc@ =~= rem0.take(nl_at));
                        assert(self.remaining() == cs[ci].skip(cu + j + 1) + flatten_from(
                            cs,
                            ci + 1,
                            0,
                        ));
                        assert(self.remaining() =~= rem0.skip(nl_at + 1));
                    }
                    return Some(acc);
                },
                None => {
                    proof {
                        lemma_first_occ_props(rest@, 10u8);
                    }
                    push_range(&mut acc, chunk.as_slice(), self.cur, clen);
                    self.chunk_idx = self.chunk_idx + 1;
                    self.cur = 0;
                    proof {
                        assert(acc@ + self.remaining() =~= rem0) by {
                            assert(self.remaining() == flatten_from(cs, ci + 1, 0));
                            assert(acc@ =~= acc0 + cs[ci].skip(cu));
                        }
                        assert forall|k: int| 0 <= k < acc@.len() implies acc@[k] != 10u8 by {
                            if k >= acc0.len() {
                                assert(rest@[k - acc0.len()] != 10u8);
                            }
                        }
                    }
                },
            }
        }
    }
}

} // verus!
