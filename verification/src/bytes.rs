use vstd::prelude::*;
use vstd::slice::{slice_index_get, slice_subrange, slice_to_vec};

use crate::name::Name;

verus! {

// ---------------------------------------------------------------------------
// Big-endian integers
// ---------------------------------------------------------------------------

/// The value of two big-endian bytes.
pub open spec fn u16_of(hi: u8, lo: u8) -> u16 {
    ((hi as int) * 256 + (lo as int)) as u16
}

/// The value of four big-endian bytes.
pub open spec fn u32_of(b0: u8, b1: u8, b2: u8, b3: u8) -> u32 {
    ((((b0 as int) * 256 + (b1 as int)) * 256 + (b2 as int)) * 256 + (b3 as int)) as u32
}

/// The two big-endian bytes of a value.
pub open spec fn be16(v: u16) -> Seq<u8> {
    seq![(v / 256) as u8, (v % 256) as u8]
}

/// The four big-endian bytes of a value.
pub open spec fn be32(v: u32) -> Seq<u8> {
    seq![
        (v / 0x1000000) as u8,
        ((v / 0x10000) % 256) as u8,
        ((v / 256) % 256) as u8,
        (v % 256) as u8,
    ]
}

/// Writing a value big-endian and reading it back is the identity.
pub proof fn lemma_be16_of(v: u16)
    ensures
        u16_of(be16(v)[0], be16(v)[1]) == v,
{
    assert(u16_of((v / 256) as u8, (v % 256) as u8) == v) by (nonlinear_arith);
}

/// Writing a value big-endian and reading it back is the identity.
pub proof fn lemma_be32_of(v: u32)
    ensures
        u32_of(be32(v)[0], be32(v)[1], be32(v)[2], be32(v)[3]) == v,
{
    assert(u32_of(
        (v / 0x1000000) as u8,
        ((v / 0x10000) % 256) as u8,
        ((v / 256) % 256) as u8,
        (v % 256) as u8,
    ) == v) by (nonlinear_arith);
}

// ---------------------------------------------------------------------------
// The name-to-offset table used for compression
// ---------------------------------------------------------------------------

/// The view of the first-occurrence table: each entry a name (as its
/// labels) and the offset at which its encoding starts.
pub open spec fn occs_view(os: Seq<(Name, usize)>) -> Seq<(Seq<Seq<u8>>, int)> {
    Seq::new(os.len(), |i: int| (os[i].0@, os[i].1 as int))
}

/// Looks a name up in the first-occurrence table; the earliest entry
/// wins.
pub open spec fn spec_find_occ(os: Seq<(Seq<Seq<u8>>, int)>, n: Seq<Seq<u8>>) -> Option<int>
    decreases os.len(),
{
    if os.len() == 0 {
        None
    } else if os[0].0 == n {
        Some(os[0].1)
    } else {
        spec_find_occ(os.skip(1), n)
    }
}

// ---------------------------------------------------------------------------
// The byte cursor
// ---------------------------------------------------------------------------

/// A byte stream: a positioned read/write cursor over an octet buffer.
///
/// During encoding the cursor appends at its position and records the
/// offset of the first occurrence of each name so that later names can be
/// written as back-pointers. During decoding it is borrowed from a
/// received buffer and only read and repositioned.
pub struct Bytes {
    pub buf: Vec<u8>,
    pub pos: usize,
    /// Map of names to the offset of their first occurrence in the
    /// buffer, consulted while writing to compress names using pointers.
    pub occs: Vec<(Name, usize)>,
}

impl Bytes {
    /// The cursor lies within the buffer.
    pub open spec fn wf(&self) -> bool {
        self.pos <= self.buf@.len()
    }

    /// The cursor is in the append state used while encoding: positioned
    /// at the end of the buffer.
    pub open spec fn at_end(&self) -> bool {
        self.pos == self.buf@.len()
    }

    pub open spec fn occs(&self) -> Seq<(Seq<Seq<u8>>, int)> {
        occs_view(self.occs@)
    }

    /// Creates a new cursor with an empty buffer, for encoding.
    pub fn new() -> (r: Bytes)
        ensures
            r.buf@ == Seq::<u8>::empty(),
            r.pos == 0,
            r.occs() == Seq::<(Seq<Seq<u8>>, int)>::empty(),
    {
        let r = Bytes { buf: Vec::new(), pos: 0, occs: Vec::new() };
        proof {
            assert(r.occs() =~= Seq::<(Seq<Seq<u8>>, int)>::empty());
        }
        r
    }

    /// Creates a cursor over a received buffer, for decoding.
    pub fn from_buf(buf: &[u8]) -> (r: Bytes)
        ensures
            r.buf@ == buf@,
            r.pos == 0,
            r.occs() == Seq::<(Seq<Seq<u8>>, int)>::empty(),
    {
        let r = Bytes { buf: slice_to_vec(buf), pos: 0, occs: Vec::new() };
        proof {
            assert(r.occs() =~= Seq::<(Seq<Seq<u8>>, int)>::empty());
        }
        r
    }

    /// Returns the current position in the buffer.
    pub fn pos(&self) -> (r: usize)
        ensures
            r == self.pos,
    {
        self.pos
    }

    /// Returns the read (or written) prefix of the buffer.
    pub fn used(&self) -> (r: &[u8])
        requires
            self.wf(),
        ensures
            r@ == self.buf@.take(self.pos as int),
    {
        slice_subrange(self.buf.as_slice(), 0, self.pos)
    }

    /// Returns the unread part of the buffer.
    pub fn remainder(&self) -> (r: &[u8])
        requires
            self.wf(),
        ensures
            r@ == self.buf@.skip(self.pos as int),
    {
        slice_subrange(self.buf.as_slice(), self.pos, self.buf.len())
    }

    /// Moves the cursor to a position in the buffer.
    pub fn seek(&mut self, pos: usize)
        requires
            pos <= old(self).buf@.len(),
        ensures
            final(self).buf@ == old(self).buf@,
            final(self).pos == pos,
            final(self).occs() == old(self).occs(),
    {
        self.pos = pos;
    }

    /// Reads the next byte from the buffer.
    ///
    /// Returns None if the end of the buffer has been reached.
    pub fn read(&mut self) -> (r: Option<u8>)
        requires
            old(self).wf(),
        ensures
            final(self).buf@ == old(self).buf@,
            final(self).occs() == old(self).occs(),
            if old(self).pos < old(self).buf@.len() {
                r == Some(old(self).buf@[old(self).pos as int]) && final(self).pos == old(
                    self,
                ).pos + 1
            } else {
                r is None && final(self).pos == old(self).pos
            },
    {
        if self.pos >= self.buf.len() {
            return None;
        }
        let byte = self.buf[self.pos];
        self.pos = self.pos + 1;
        Some(byte)
    }

    /// Reads the next byte without advancing the position.
    ///
    /// Returns None if the end of the buffer has been reached.
    pub fn peek(&self) -> (r: Option<u8>)
        requires
            self.wf(),
        ensures
            if self.pos < self.buf@.len() {
                r == Some(self.buf@[self.pos as int])
            } else {
                r is None
            },
    {
        if self.pos >= self.buf.len() {
            return None;
        }
        Some(self.buf[self.pos])
    }

    /// Reads the next `n` bytes from the buffer.
    ///
    /// Returns None if fewer than `n` bytes remain.
    pub fn read_exact(&mut self, n: usize) -> (r: Option<Vec<u8>>)
        requires
            old(self).wf(),
        ensures
            final(self).buf@ == old(self).buf@,
            final(self).occs() == old(self).occs(),
            if old(self).pos + n <= old(self).buf@.len() {
                &&& r matches Some(v) && v@ == old(self).buf@.subrange(
                    old(self).pos as int,
                    old(self).pos + n,
                )
                &&& final(self).pos == old(self).pos + n
            } else {
                r is None && final(self).pos == old(self).pos
            },
    {
        if self.buf.len() - self.pos < n {
            return None;
        }
        let bytes = slice_to_vec(slice_subrange(self.buf.as_slice(), self.pos, self.pos + n));
        self.pos = self.pos + n;
        Some(bytes)
    }

    /// Reads a big-endian u16 from the buffer.
    ///
    /// Returns None if fewer than two bytes remain.
    pub fn read_u16(&mut self) -> (r: Option<u16>)
        requires
            old(self).wf(),
        ensures
            final(self).buf@ == old(self).buf@,
            final(self).occs() == old(self).occs(),
            if old(self).pos + 2 <= old(self).buf@.len() {
                r == Some(
                    u16_of(
                        old(self).buf@[old(self).pos as int],
                        old(self).buf@[old(self).pos + 1],
                    ),
                ) && final(self).pos == old(self).pos + 2
            } else {
                r is None && final(self).pos == old(self).pos
            },
    {
        if self.buf.len() - self.pos < 2 {
            return None;
        }
        let hi = self.buf[self.pos];
        let lo = self.buf[self.pos + 1];
        self.pos = self.pos + 2;
        Some((hi as u16) * 256 + (lo as u16))
    }

    /// Reads a big-endian u32 from the buffer.
    ///
    /// Returns None if fewer than four bytes remain.
    pub fn read_u32(&mut self) -> (r: Option<u32>)
        requires
            old(self).wf(),
        ensures
            final(self).buf@ == old(self).buf@,
            final(self).occs() == old(self).occs(),
            if old(self).pos + 4 <= old(self).buf@.len() {
                r == Some(
                    u32_of(
                        old(self).buf@[old(self).pos as int],
                        old(self).buf@[old(self).pos + 1],
                        old(self).buf@[old(self).pos + 2],
                        old(self).buf@[old(self).pos + 3],
                    ),
                ) && final(self).pos == old(self).pos + 4
            } else {
                r is None && final(self).pos == old(self).pos
            },
    {
        if self.buf.len() - self.pos < 4 {
            return None;
        }
        let b0 = self.buf[self.pos];
        let b1 = self.buf[self.pos + 1];
        let b2 = self.buf[self.pos + 2];
        let b3 = self.buf[self.pos + 3];
        self.pos = self.pos + 4;
        Some((((b0 as u32) * 256 + (b1 as u32)) * 256 + (b2 as u32)) * 256 + (b3 as u32))
    }

    /// Appends a byte to the buffer.
    pub fn write(&mut self, byte: u8)
        requires
            old(self).at_end(),
        ensures
            final(self).buf@ == old(self).buf@.push(byte),
            final(self).pos == old(self).pos + 1,
            final(self).occs() == old(self).occs(),
            final(self).at_end(),
    {
        self.buf.push(byte);
        self.pos = self.buf.len();
    }

    /// Appends multiple bytes to the buffer.
    pub fn write_all(&mut self, bytes: &[u8])
        requires
            old(self).at_end(),
        ensures
            final(self).buf@ == old(self).buf@ + bytes@,
            final(self).pos == old(self).pos + bytes@.len(),
            final(self).occs() == old(self).occs(),
            final(self).at_end(),
    {
        let n = bytes.len();
        for i in 0..n
            invariant
                n == bytes@.len(),
                self.buf@ == old(self).buf@ + bytes@.take(i as int),
                self.pos == old(self).pos + i,
                self.occs() == old(self).occs(),
                self.at_end(),
        {
            proof {
                assert(old(self).buf@ + bytes@.take(i + 1) =~= (old(self).buf@ + bytes@.take(
                    i as int,
                )).push(bytes@[i as int]));
            }
            self.write(*slice_index_get(bytes, i));
        }
        proof {
            assert(bytes@.take(n as int) =~= bytes@);
        }
    }

    /// Appends a big-endian u16 to the buffer.
    pub fn write_u16(&mut self, num: u16)
        requires
            old(self).at_end(),
        ensures
            final(self).buf@ == old(self).buf@ + be16(num),
            final(self).pos == old(self).pos + 2,
            final(self).occs() == old(self).occs(),
            final(self).at_end(),
    {
        self.write((num / 256) as u8);
        self.write((num % 256) as u8);
        proof {
            assert(self.buf@ =~= old(self).buf@ + be16(num));
        }
    }

    /// Appends a big-endian u32 to the buffer.
    pub fn write_u32(&mut self, num: u32)
        requires
            old(self).at_end(),
        ensures
            final(self).buf@ == old(self).buf@ + be32(num),
            final(self).pos == old(self).pos + 4,
            final(self).occs() == old(self).occs(),
            final(self).at_end(),
    {
        self.write((num / 0x1000000) as u8);
        self.write(((num / 0x10000) % 256) as u8);
        self.write(((num / 256) % 256) as u8);
        self.write((num % 256) as u8);
        proof {
            assert(self.buf@ =~= old(self).buf@ + be32(num));
        }
    }

    /// Overwrites a byte at a position in the buffer.
    pub fn set(&mut self, pos: usize, byte: u8)
        requires
            pos < old(self).buf@.len(),
        ensures
            final(self).buf@ == old(self).buf@.update(pos as int, byte),
            final(self).pos == old(self).pos,
            final(self).occs() == old(self).occs(),
    {
        self.buf.set(pos, byte);
    }

    /// Overwrites multiple bytes starting at a position in the buffer.
    pub fn set_all(&mut self, pos: usize, bytes: &[u8])
        requires
            pos + bytes@.len() <= old(self).buf@.len(),
        ensures
            final(self).buf@ == old(self).buf@.take(pos as int) + bytes@ + old(self).buf@.skip(
                pos + bytes@.len(),
            ),
            final(self).pos == old(self).pos,
            final(self).occs() == old(self).occs(),
    {
        let n = bytes.len();
        let total = self.buf.len();
        for i in 0..n
            invariant
                n == bytes@.len(),
                pos + n <= total,
                total == self.buf@.len(),
                self.buf@.len() == old(self).buf@.len(),
                self.pos == old(self).pos,
                self.occs() == old(self).occs(),
                forall|j: int|
                    0 <= j < self.buf@.len() && !(pos <= j < pos + i) ==> #[trigger] self.buf@[j]
                        == old(self).buf@[j],
                forall|j: int|
                    pos <= j < pos + i ==> #[trigger] self.buf@[j] == bytes@[j - pos],
        {
            self.set(pos + i, *slice_index_get(bytes, i));
        }
        proof {
            assert(self.buf@ =~= old(self).buf@.take(pos as int) + bytes@ + old(self).buf@.skip(
                pos + bytes@.len(),
            ));
        }
    }

    /// Overwrites a previously reserved two-byte slot with a big-endian
    /// u16.
    pub fn set_u16(&mut self, pos: usize, num: u16)
        requires
            pos + 2 <= old(self).buf@.len(),
        ensures
            final(self).buf@ == old(self).buf@.take(pos as int) + be16(num) + old(
                self,
            ).buf@.skip(pos + 2),
            final(self).pos == old(self).pos,
            final(self).occs() == old(self).occs(),
    {
        let total = self.buf.len();
        self.set(pos, (num / 256) as u8);
        self.set(pos + 1, (num % 256) as u8);
        proof {
            assert(self.buf@ =~= old(self).buf@.take(pos as int) + be16(num) + old(
                self,
            ).buf@.skip(pos + 2));
        }
    }

    /// Overwrites a previously reserved four-byte slot with a big-endian
    /// u32.
    pub fn set_u32(&mut self, pos: usize, num: u32)
        requires
            pos + 4 <= old(self).buf@.len(),
        ensures
            final(self).buf@ == old(self).buf@.take(pos as int) + be32(num) + old(
                self,
            ).buf@.skip(pos + 4),
            final(self).pos == old(self).pos,
            final(self).occs() == old(self).occs(),
    {
        let total = self.buf.len();
        self.set(pos, (num / 0x1000000) as u8);
        self.set(pos + 1, ((num / 0x10000) % 256) as u8);
        self.set(pos + 2, ((num / 256) % 256) as u8);
        self.set(pos + 3, (num % 256) as u8);
        proof {
            assert(self.buf@ =~= old(self).buf@.take(pos as int) + be32(num) + old(
                self,
            ).buf@.skip(pos + 4));
        }
    }

    /// Finds the offset of the first occurrence of a name in the buffer.
    ///
    /// Returns None if the name has not occurred.
    pub fn find_first_occ(&self, name: &Name) -> (r: Option<usize>)
        ensures
            match r {
                Some(p) => spec_find_occ(self.occs(), name@) == Some(p as int),
                None => spec_find_occ(self.occs(), name@) is None,
            },
    {
        let n = self.occs.len();
        proof {
            assert(self.occs().skip(0) =~= self.occs());
        }
        for i in 0..n
            invariant
                n == self.occs@.len(),
                spec_find_occ(self.occs(), name@) == spec_find_occ(
                    self.occs().skip(i as int),
                    name@,
                ),
        {
            proof {
                let ghost e = self.occs@[i as int];
                assert(self.occs().skip(i as int)[0] == (e.0@, e.1 as int));
                assert(self.occs().skip(i as int).skip(1) =~= self.occs().skip(i + 1));
            }
            if &self.occs[i].0 == name {
                return Some(self.occs[i].1);
            }
        }
        proof {
            assert(self.occs().skip(n as int) =~= Seq::<(Seq<Seq<u8>>, int)>::empty());
        }
        None
    }

    /// Records the offset of the first occurrence of a name in the
    /// buffer.
    pub fn set_first_occ(&mut self, name: &Name, pos: usize)
        ensures
            final(self).buf@ == old(self).buf@,
            final(self).pos == old(self).pos,
            final(self).occs() == old(self).occs().push((name@, pos as int)),
    {
        self.occs.push((name.clone(), pos));
        proof {
            assert(self.occs() =~= old(self).occs().push((name@, pos as int)));
        }
    }
}

} // verus!
