//! A borrowing, position-tracked cursor over the input byte buffer: one-step
//! advance, one-step reconsume, bounded-lookahead literal matching, and
//! nothing else. The tokenizer drives this cursor byte by byte.

use vstd::prelude::*;

use crate::ascii::{UPPER_A, UPPER_Z};

verus! {

/// Lower-cases one ASCII byte; every other byte passes through unchanged.
pub open spec fn ascii_to_lower(b: u8) -> u8 {
    if UPPER_A <= b && b <= UPPER_Z {
        (b + 0x20) as u8
    } else {
        b
    }
}

/// A cursor over the whole input buffer. The position is a byte offset and
/// never exceeds the buffer length; "at end of input" means the position
/// equals the length.
pub struct Stream<'stream> {
    pub data: &'stream Vec<u8>,
    idx: usize,
}

impl<'stream> Stream<'stream> {
    /// The cursor position: a byte offset into the buffer.
    pub closed spec fn pos(&self) -> int {
        self.idx as int
    }

    /// The bytes of the borrowed buffer.
    pub closed spec fn bytes(&self) -> Seq<u8> {
        self.data@
    }

    /// The position stays within the buffer.
    pub open spec fn wf(&self) -> bool {
        0 <= self.pos() <= self.bytes().len()
    }

    /// Whether `lit` occurs byte for byte at the cursor position.
    pub open spec fn matches_at(&self, lit: Seq<u8>) -> bool {
        &&& self.pos() + lit.len() <= self.bytes().len()
        &&& self.bytes().subrange(self.pos(), self.pos() + lit.len()) == lit
    }

    /// Whether `lit` occurs at the cursor position up to ASCII case.
    pub open spec fn matches_at_insensitive(&self, lit: Seq<u8>) -> bool {
        &&& self.pos() + lit.len() <= self.bytes().len()
        &&& forall|k: int|
            0 <= k < lit.len() ==> ascii_to_lower(#[trigger] self.bytes()[self.pos() + k])
                == ascii_to_lower(lit[k])
    }

    /// A cursor at the start of `data`.
    pub fn new(data: &'stream Vec<u8>) -> (r: Self)
        ensures
            r.wf(),
            r.pos() == 0,
            r.bytes() == data@,
    {
        Stream { data, idx: 0 }
    }

    /// Moves one byte forward. The caller guards against the end of input.
    pub fn advance(&mut self)
        requires
            old(self).wf(),
            old(self).pos() < old(self).bytes().len(),
        ensures
            final(self).wf(),
            final(self).pos() == old(self).pos() + 1,
            final(self).bytes() == old(self).bytes(),
    {
        let limit = self.data.len();
        proof {
            assert(self.idx < limit);
        }
        self.idx += 1;
    }

    /// Moves one byte backward, so the byte just consumed is dispatched again
    /// under a new state. Only valid directly after an `advance`.
    pub fn reconsume(&mut self)
        requires
            old(self).wf(),
            old(self).pos() >= 1,
        ensures
            final(self).wf(),
            final(self).pos() == old(self).pos() - 1,
            final(self).bytes() == old(self).bytes(),
    {
        self.idx -= 1;
    }

    /// Whether the cursor sits at the end of input: true exactly when the
    /// position equals the buffer length.
    pub fn is_eof(&self) -> (r: bool)
        requires
            self.wf(),
        ensures
            r <==> self.pos() == self.bytes().len(),
    {
        self.idx >= self.data.len()
    }

    /// The byte at the cursor position. The caller guards against the end of
    /// input.
    pub fn current(&self) -> (r: &'stream u8)
        requires
            self.wf(),
            self.pos() < self.bytes().len(),
        ensures
            *r == self.bytes()[self.pos()],
    {
        &self.data[self.idx]
    }

    /// Whether `chars` occurs byte for byte at the cursor position, without
    /// consuming anything.
    pub fn expect(&self, chars: &[u8]) -> (r: bool)
        requires
            self.wf(),
        ensures
            r == self.matches_at(chars@),
    {
        if self.data.len() - self.idx < chars.len() {
            return false;
        }
        let n = chars.len();
        for offset in 0..n
            invariant
                self.wf(),
                n == chars@.len(),
                self.pos() + n <= self.bytes().len(),
                self.bytes().len() <= usize::MAX,
                forall|k: int| 0 <= k < offset ==> self.bytes()[self.pos() + k] == chars@[k],
        {
            if self.data[self.idx + offset] != chars[offset] {
                proof {
                    assert(self.bytes().subrange(self.pos(), self.pos() + n)[offset as int]
                        == self.bytes()[self.pos() + offset]);
                }
                return false;
            }
        }
        proof {
            assert(self.bytes().subrange(self.pos(), self.pos() + n) =~= chars@);
        }
        true
    }

    /// Whether `chars` occurs at the cursor position up to ASCII case,
    /// without consuming anything.
    pub fn expect_insensitive(&self, chars: &[u8]) -> (r: bool)
        requires
            self.wf(),
        ensures
            r == self.matches_at_insensitive(chars@),
    {
        if self.data.len() - self.idx < chars.len() {
            return false;
        }
        let n = chars.len();
        for offset in 0..n
            invariant
                self.wf(),
                n == chars@.len(),
                self.pos() + n <= self.bytes().len(),
                self.bytes().len() <= usize::MAX,
                forall|k: int|
                    0 <= k < offset ==> ascii_to_lower(#[trigger] self.bytes()[self.pos() + k])
                        == ascii_to_lower(chars@[k]),
        {
            let mut a = self.data[self.idx + offset];
            let mut b = chars[offset];
            if UPPER_A <= a && a <= UPPER_Z {
                a = a + 0x20;
            }
            if UPPER_A <= b && b <= UPPER_Z {
                b = b + 0x20;
            }
            if a != b {
                return false;
            }
        }
        true
    }

    /// Skips the remainder of a literal whose first byte the calling state
    /// has already consumed through `advance`: moves the cursor forward by
    /// one less than the literal's length.
    pub fn consume(&mut self, chars: &[u8])
        requires
            old(self).wf(),
            chars@.len() >= 1,
            old(self).pos() + chars@.len() - 1 <= old(self).bytes().len(),
        ensures
            final(self).wf(),
            final(self).pos() == old(self).pos() + chars@.len() - 1,
            final(self).bytes() == old(self).bytes(),
    {
        let n = chars.len();
        let limit = self.data.len();
        proof {
            assert(self.idx + n - 1 <= limit);
        }
        self.idx += n - 1;
    }
}

} // verus!
