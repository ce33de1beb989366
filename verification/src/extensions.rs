//! Whole-file byte operations on the in-memory image of the output file:
//! zero-filling a range and an overlap-tolerant copy between two ranges.

use vstd::prelude::*;

use crate::bytes::{splice, zeros};

verus! {

/// Byte-range operations of the patcher on a file image.
pub trait InsertDylibFileExt {
    /// The bytes of the file image.
    spec fn bytes(&self) -> Seq<u8>;

    /// Overwrites `len` zero bytes starting at `offset`.
    fn fbzero(&mut self, offset: u64, len: u64)
        requires
            offset + len <= old(self).bytes().len(),
        ensures
            final(self).bytes() == splice(old(self).bytes(), offset as int, zeros(len as nat)),
    ;

    /// Copies the `len` bytes starting at `src` onto the range starting at
    /// `dst`, as they stood before the call; overlap does no harm.
    fn fmemmove(&mut self, dst: u64, src: u64, len: u64)
        requires
            dst + len <= old(self).bytes().len(),
            src + len <= old(self).bytes().len(),
        ensures
            final(self).bytes() == splice(
                old(self).bytes(),
                dst as int,
                old(self).bytes().subrange(src as int, src + len),
            ),
    ;
}

impl InsertDylibFileExt for Vec<u8> {
    open spec fn bytes(&self) -> Seq<u8> {
        self@
    }

    fn fbzero(&mut self, offset: u64, len: u64) {
        proof {
            assert(offset + len <= old(self)@.len());
            assert(self@.len() == self.len());
        }
        let off: usize = offset as usize;
        let n: usize = len as usize;
        let mut i: usize = 0;
        while i < n
            invariant
                i <= n,
                off + n <= self.len(),
                self@.len() == old(self)@.len(),
                forall|k: int| off <= k < off + i ==> self@[k] == 0u8,
                forall|k: int|
                    0 <= k < self@.len() && !(off <= k < off + i) ==> self@[k] == old(self)@[k],
            decreases n - i,
        {
            self[off + i] = 0;
            i = i + 1;
        }
        proof {
            crate::bytes::lemma_splice(old(self)@, off as int, zeros(n as nat));
            assert(self@ =~= splice(old(self)@, offset as int, zeros(len as nat)));
        }
    }

    fn fmemmove(&mut self, dst: u64, src: u64, len: u64) {
        proof {
            assert(self@.len() == self.len());
        }
        let d: usize = dst as usize;
        let s: usize = src as usize;
        let n: usize = len as usize;
        let mut moved: Vec<u8> = Vec::new();
        let mut i: usize = 0;
        while i < n
            invariant
                s + n <= self.len(),
                i <= n,
                self@ == old(self)@,
                moved@.len() == i as int,
                forall|k: int| 0 <= k < i ==> moved@[k] == self@[s + k],
            decreases n - i,
        {
            let b = self[s + i];
            moved.push(b);
            i = i + 1;
        }
        let mut j: usize = 0;
        while j < n
            invariant
                d + n <= self.len(),
                j <= n,
                moved@.len() == n as int,
                self@.len() == old(self)@.len(),
                forall|k: int| 0 <= k < n ==> moved@[k] == old(self)@[s + k],
                forall|k: int| d <= k < d + j ==> self@[k] == moved@[k - d],
                forall|k: int|
                    0 <= k < self@.len() && !(d <= k < d + j) ==> self@[k] == old(self)@[k],
            decreases n - j,
        {
            self[d + j] = moved[j];
            j = j + 1;
        }
        proof {
            assert(d == dst && s == src && n == len);
            crate::bytes::lemma_splice(
                old(self)@,
                d as int,
                old(self)@.subrange(s as int, s + n),
            );
            assert(self@ =~= splice(
                old(self)@,
                d as int,
                old(self)@.subrange(s as int, s + n),
            ));
            assert(old(self)@.subrange(s as int, s + n) =~= old(self)@.subrange(
                src as int,
                src + len,
            ));
        }
    }
}

} // verus!
