//! A positional reader over an immutable byte buffer, with out-of-range
//! detection on every primitive read.

use vstd::prelude::*;

verus! {

/// The byte at `pos`, read as a big-endian 16-bit value together with the
/// byte after it.
pub open spec fn be16_at(bytes: Seq<u8>, pos: int) -> int {
    bytes[pos] as int * 256 + bytes[pos + 1] as int
}

/// Four bytes starting at `pos`, read as a big-endian 32-bit value.
pub open spec fn be32_at(bytes: Seq<u8>, pos: int) -> int {
    bytes[pos] as int * 0x1000000 + bytes[pos + 1] as int * 0x10000 + bytes[pos + 2] as int * 0x100
        + bytes[pos + 3] as int
}

/// A cursor over a byte buffer. Reads advance `byte_index` and fail (with
/// `None`) when the required bytes are not available; a failed multi-byte
/// read leaves the cursor where the first missing byte was detected.
pub struct ByteReader {
    pub bytes: Vec<u8>,
    pub byte_index: usize,
}

impl ByteReader {
    /// The byte at the current offset, without advancing.
    pub fn peak_byte(&mut self) -> (r: Option<u8>)
        ensures
            *final(self) == *old(self),
            r == (if old(self).byte_index < old(self).bytes@.len() {
                Some(old(self).bytes@[old(self).byte_index as int])
            } else {
                None::<u8>
            }),
    {
        if self.byte_index < self.bytes.len() {
            Some(self.bytes[self.byte_index])
        } else {
            None
        }
    }

    /// The byte at the current offset, advancing by one on success.
    pub fn read_byte(&mut self) -> (r: Option<u8>)
        ensures
            final(self).bytes == old(self).bytes,
            r == (if old(self).byte_index < old(self).bytes@.len() {
                Some(old(self).bytes@[old(self).byte_index as int])
            } else {
                None::<u8>
            }),
            final(self).byte_index == (if old(self).byte_index < old(self).bytes@.len() {
                old(self).byte_index + 1
            } else {
                old(self).byte_index as int
            }),
    {
        if self.byte_index < self.bytes.len() {
            let b = self.bytes[self.byte_index];
            self.byte_index = self.byte_index + 1;
            Some(b)
        } else {
            None
        }
    }

    /// Two bytes big-endian, advancing by two on success.
    pub fn read_u16(&mut self) -> (r: Option<u16>)
        ensures
            final(self).bytes == old(self).bytes,
            old(self).byte_index + 2 <= old(self).bytes@.len() ==> {
                &&& r == Some((be16_at(old(self).bytes@, old(self).byte_index as int)) as u16)
                &&& final(self).byte_index == old(self).byte_index + 2
            },
            old(self).byte_index + 2 > old(self).bytes@.len() ==> {
                &&& r is None
                &&& final(self).byte_index == (if old(self).byte_index < old(self).bytes@.len() {
                    old(self).bytes@.len() as int
                } else {
                    old(self).byte_index as int
                })
            },
    {
        let first = match self.read_byte() {
            Some(b) => b,
            None => {
                return None;
            },
        };
        let second = match self.read_byte() {
            Some(b) => b,
            None => {
                return None;
            },
        };
        Some((first as u16) * 256 + (second as u16))
    }

    /// Four bytes big-endian, advancing by four on success.
    pub fn read_u32(&mut self) -> (r: Option<u32>)
        ensures
            final(self).bytes == old(self).bytes,
            old(self).byte_index + 4 <= old(self).bytes@.len() ==> {
                &&& r == Some((be32_at(old(self).bytes@, old(self).byte_index as int)) as u32)
                &&& final(self).byte_index == old(self).byte_index + 4
            },
            old(self).byte_index + 4 > old(self).bytes@.len() ==> {
                &&& r is None
                &&& final(self).byte_index == (if old(self).byte_index < old(self).bytes@.len() {
                    old(self).bytes@.len() as int
                } else {
                    old(self).byte_index as int
                })
            },
    {
        let b0 = match self.read_byte() {
            Some(b) => b,
            None => {
                return None;
            },
        };
        let b1 = match self.read_byte() {
            Some(b) => b,
            None => {
                return None;
            },
        };
        let b2 = match self.read_byte() {
            Some(b) => b,
            None => {
                return None;
            },
        };
        let b3 = match self.read_byte() {
            Some(b) => b,
            None => {
                return None;
            },
        };
        Some((b0 as u32) * 0x1000000 + (b1 as u32) * 0x10000 + (b2 as u32) * 0x100 + (b3 as u32))
    }

    /// Copies `bytes_count` bytes into an owned buffer, advancing past them
    /// on success.
    pub fn read_n(&mut self, bytes_count: usize) -> (r: Option<Vec<u8>>)
        ensures
            final(self).bytes == old(self).bytes,
            old(self).byte_index + bytes_count <= old(self).bytes@.len() ==> {
                &&& r is Some
                &&& r->0@ == old(self).bytes@.subrange(
                    old(self).byte_index as int,
                    old(self).byte_index + bytes_count,
                )
                &&& final(self).byte_index == old(self).byte_index + bytes_count
            },
            old(self).byte_index + bytes_count > old(self).bytes@.len() ==> {
                &&& r is None
                &&& final(self).byte_index == (if old(self).byte_index < old(self).bytes@.len() {
                    old(self).bytes@.len() as int
                } else {
                    old(self).byte_index as int
                })
            },
    {
        if bytes_count <= self.bytes.len() && self.byte_index <= self.bytes.len() - bytes_count {
            let mut buffer: Vec<u8> = Vec::new();
            let mut k: usize = 0;
            while k < bytes_count
                invariant
                    k <= bytes_count,
                    self.bytes == old(self).bytes,
                    self.bytes@.len() <= usize::MAX,
                    old(self).byte_index + bytes_count <= self.bytes@.len(),
                    self.byte_index == old(self).byte_index + k,
                    buffer@ == self.bytes@.subrange(
                        old(self).byte_index as int,
                        old(self).byte_index + k,
                    ),
                decreases bytes_count - k,
            {
                let b = self.bytes[self.byte_index];
                buffer.push(b);
                self.byte_index = self.byte_index + 1;
                k = k + 1;
                proof {
                    assert(buffer@ =~= self.bytes@.subrange(
                        old(self).byte_index as int,
                        old(self).byte_index + k,
                    ));
                }
            }
            Some(buffer)
        } else {
            if self.byte_index < self.bytes.len() {
                self.byte_index = self.bytes.len();
            }
            None
        }
    }
}

} // verus!
