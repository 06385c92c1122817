//! Byte-addressable frame memory, grown in 32-byte words and
//! zero-filled on expansion.

use vstd::prelude::*;
use vstd::math::max as spec_max;
use crate::bytebuf::bytes_view;
use crate::errors::VMError;
use crate::word::U256;

verus! {

pub const WORD_SIZE_IN_BYTES_USIZE: usize = 32;

/// `n` rounded up to the next multiple of 32.
pub open spec fn round32(n: int) -> int {
    ((n + 31) / 32) * 32
}

pub proof fn lemma_round32(n: int)
    requires
        n >= 0,
    ensures
        round32(n) % 32 == 0,
        n <= round32(n) < n + 32,
    {
    let q = (n + 31) / 32;
    let r = (n + 31) % 32;
    assert(q * 32 + r == n + 31);
    assert(0 <= r < 32);
    assert((q * 32) % 32 == 0) by (nonlinear_arith);
}

/// `m` grown with zeroes to `n` bytes; never shrunk.
pub open spec fn expand_view(m: Seq<u8>, n: int) -> Seq<u8> {
    if n <= m.len() {
        m
    } else {
        m + Seq::<u8>::new((n - m.len()) as nat, |i: int| 0u8)
    }
}

/// `m` with `data` written at `off`.
pub open spec fn write_view(m: Seq<u8>, off: int, data: Seq<u8>) -> Seq<u8> {
    Seq::<u8>::new(m.len(), |i: int| if off <= i < off + data.len() { data[i - off] } else { m[i] })
}

pub struct Memory {
    pub data: Vec<u8>,
}

impl View for Memory {
    type V = Seq<u8>;

    open spec fn view(&self) -> Seq<u8> {
        self.data@
    }
}

/// The size memory must reach before a `size`-byte access at `offset`,
/// or `VeryLargeNumber` when that does not fit a `usize`. A zero-sized
/// access needs no expansion at all.
pub fn calculate_memory_size(offset: &U256, size: usize) -> (r: Result<usize, VMError>)
    ensures
        size == 0 ==> r == Ok::<usize, VMError>(0),
        size > 0 ==> ((r is Ok) <==> offset.as_nat() + size + 31 <= usize::MAX),
        r matches Ok(m) ==> (size > 0 ==> m == round32(offset.as_nat() + size as int)) && m % 32 == 0,
        r is Err ==> r == Err::<usize, VMError>(VMError::VeryLargeNumber),
{
    if size == 0 {
        return Ok(0);
    }
    let off = match offset.to_usize() {
        Some(o) => o,
        None => {
            proof {
                lemma_round32(offset.as_nat() + size as int);
            }
            return Err(VMError::VeryLargeNumber);
        },
    };
    let sum = match off.checked_add(size) {
        Some(s) => s,
        None => {
            proof {
                lemma_round32(offset.as_nat() + size as int);
            }
            return Err(VMError::VeryLargeNumber);
        },
    };
    let padded = match sum.checked_add(31) {
        Some(p) => p,
        None => {
            return Err(VMError::VeryLargeNumber);
        },
    };
    let m = (padded / 32) * 32;
    proof {
        lemma_round32(offset.as_nat() + size as int);
    }
    Ok(m)
}

impl Memory {
    /// Memory always holds a whole number of 32-byte words.
    pub open spec fn wf(&self) -> bool {
        self@.len() % 32 == 0
    }

    pub fn new() -> (r: Memory)
        ensures
            r@ == Seq::<u8>::empty(),
            r.wf(),
    {
        Memory { data: Vec::new() }
    }

    pub fn len(&self) -> (r: usize)
        ensures
            r == self@.len(),
    {
        self.data.len()
    }

    /// Grow to `new_size` bytes, zero-filling; never shrinks.
    pub fn expand(&mut self, new_size: usize)
        requires
            old(self).wf(),
            new_size % 32 == 0,
        ensures
            final(self).wf(),
            final(self)@.len() == spec_max(old(self)@.len() as int, new_size as int),
            final(self)@.subrange(0, old(self)@.len() as int) == old(self)@,
            forall|k: int| old(self)@.len() <= k < final(self)@.len() ==> final(self)@[k] == 0,
    {
        let ghost orig = self@;
        while self.data.len() < new_size
            invariant
                self@.len() <= spec_max(orig.len() as int, new_size as int),
                orig.len() <= self@.len(),
                self@.subrange(0, orig.len() as int) =~= orig,
                forall|k: int| orig.len() <= k < self@.len() ==> self@[k] == 0,
            decreases new_size - self@.len(),
        {
            self.data.push(0);
        }
        proof {
            assert(self@.subrange(0, orig.len() as int) =~= orig);
        }
    }

    /// The bytes at `[off, off + size)`, which must be in range.
    pub fn read_at(&self, off: usize, size: usize) -> (r: Vec<u8>)
        requires
            off + size <= self@.len(),
        ensures
            r@ == self@.subrange(off as int, off + size),
    {
        let cap = self.data.len();
        let mut out: Vec<u8> = Vec::new();
        let mut j: usize = 0;
        while j < size
            invariant
                j <= size,
                off + size <= cap,
                cap == self@.len(),
                out@ =~= self@.subrange(off as int, off + j),
            decreases size - j,
        {
            out.push(self.data[off + j]);
            j += 1;
        }
        proof {
            assert(out@ =~= self@.subrange(off as int, off + size));
        }
        out
    }

    /// Overwrite `[off, off + data.len())`, which must be in range.
    pub fn write_at(&mut self, off: usize, data: &Vec<u8>)
        requires
            off + data@.len() <= old(self)@.len(),
        ensures
            final(self)@.len() == old(self)@.len(),
            forall|k: int| 0 <= k < old(self)@.len() && !(off <= k < off + data@.len())
                ==> final(self)@[k] == old(self)@[k],
            forall|k: int| off <= k < off + data@.len() ==> final(self)@[k] == data@[k - off],
            final(self)@.subrange(off as int, off + data@.len()) == data@,
    {
        let n = data.len();
        let cap = self.data.len();
        let mut j: usize = 0;
        while j < n
            invariant
                j <= n,
                n == data@.len(),
                off + n <= cap,
                cap == self@.len(),
                self@.len() == old(self)@.len(),
                forall|k: int| 0 <= k < self@.len() && !(off <= k < off + j)
                    ==> self@[k] == old(self)@[k],
                forall|k: int| off <= k < off + j ==> self@[k] == data@[k - off],
            decreases n - j,
        {
            self.data[off + j] = data[j];
            j += 1;
        }
        proof {
            assert(final(self)@.subrange(off as int, off + data@.len()) =~= data@);
        }
    }

    /// Expand for a `size`-byte access at `offset` and return those bytes.
    pub fn load_range(&mut self, offset: &U256, size: usize) -> (r: Result<Vec<u8>, VMError>)
        requires
            old(self).wf(),
        ensures
            final(self).wf(),
            r is Err ==> r == Err::<Vec<u8>, VMError>(VMError::VeryLargeNumber)
                && final(self)@ == old(self)@,
            size > 0 ==> ((r is Ok) <==> offset.as_nat() + size + 31 <= usize::MAX),
            size == 0 ==> (r matches Ok(v) && v@ == Seq::<u8>::empty()
                && final(self)@ == old(self)@),
            size > 0 ==> (r matches Ok(v) ==> {
                &&& final(self)@ == expand_view(old(self)@, round32(offset.as_nat() + size as int))
                &&& v@ == final(self)@.subrange(offset.as_nat() as int, offset.as_nat() + size)
            }),
    {
        if size == 0 {
            return Ok(Vec::new());
        }
        let new_size = calculate_memory_size(offset, size)?;
        self.expand(new_size);
        let off = match offset.to_usize() {
            Some(o) => o,
            None => {
                proof {
                    assert(false);
                }
                return Err(VMError::VeryLargeNumber);
            },
        };
        proof {
            lemma_round32(offset.as_nat() + size as int);
            assert(final(self)@ =~= expand_view(old(self)@, round32(offset.as_nat() + size as int)));
        }
        Ok(self.read_at(off, size))
    }

    /// Expand for a 32-byte access at `offset` and return the word there.
    pub fn load_word(&mut self, offset: &U256) -> (r: Result<U256, VMError>)
        requires
            old(self).wf(),
        ensures
            final(self).wf(),
            r is Err ==> r == Err::<U256, VMError>(VMError::VeryLargeNumber)
                && final(self)@ == old(self)@,
            (r is Ok) <==> offset.as_nat() + 63 <= usize::MAX,
            r matches Ok(w) ==> {
                &&& final(self)@ == expand_view(old(self)@, round32(offset.as_nat() + 32int))
                &&& w@ == final(self)@.subrange(offset.as_nat() as int, offset.as_nat() + 32int)
            },
    {
        let bytes = self.load_range(offset, 32)?;
        Ok(U256::from_be_bytes(bytes.as_slice()))
    }

    /// Expand for `data.len()` bytes at `offset` and write them there.
    pub fn try_store_data(&mut self, offset: &U256, data: &Vec<u8>) -> (r: Result<(), VMError>)
        requires
            old(self).wf(),
        ensures
            final(self).wf(),
            r is Err ==> r == Err::<(), VMError>(VMError::VeryLargeNumber)
                && final(self)@ == old(self)@,
            data@.len() > 0 ==> ((r is Ok) <==> offset.as_nat() + data@.len() + 31 <= usize::MAX),
            data@.len() == 0 ==> r is Ok && final(self)@ == old(self)@,
            r is Ok && data@.len() > 0 ==> final(self)@ == write_view(
                expand_view(old(self)@, round32(offset.as_nat() + data@.len() as int)),
                offset.as_nat() as int,
                data@,
            ),
    {
        if data.len() == 0 {
            return Ok(());
        }
        let new_size = calculate_memory_size(offset, data.len())?;
        self.expand(new_size);
        let off = match offset.to_usize() {
            Some(o) => o,
            None => {
                proof {
                    assert(false);
                }
                return Err(VMError::VeryLargeNumber);
            },
        };
        proof {
            lemma_round32(offset.as_nat() + data@.len() as int);
            assert(self@ =~= expand_view(old(self)@, round32(offset.as_nat() + data@.len() as int)));
        }
        let ghost expanded = self@;
        self.write_at(off, data);
        proof {
            assert(final(self)@ =~= write_view(expanded, off as int, data@));
        }
        Ok(())
    }

    /// Expand for `size` bytes at `offset` and write the first
    /// `min(size, data.len())` bytes of `data` there, truncating.
    pub fn try_store_range(&mut self, offset: &U256, size: usize, data: &bytes::Bytes) -> (r: Result<
        (),
        VMError,
    >)
        requires
            old(self).wf(),
        ensures
            final(self).wf(),
            r is Err ==> r == Err::<(), VMError>(VMError::VeryLargeNumber)
                && final(self)@ == old(self)@,
            size > 0 ==> ((r is Ok) <==> offset.as_nat() + size + 31 <= usize::MAX),
            size == 0 ==> r is Ok && final(self)@ == old(self)@,
            r is Ok && size > 0 ==> final(self)@ == write_view(
                expand_view(old(self)@, round32(offset.as_nat() + size as int)),
                offset.as_nat() as int,
                bytes_view(*data).take(vstd::math::min(size as int, bytes_view(*data).len() as int)),
            ),
    {
        if size == 0 {
            return Ok(());
        }
        let new_size = calculate_memory_size(offset, size)?;
        self.expand(new_size);
        let off = match offset.to_usize() {
            Some(o) => o,
            None => {
                proof {
                    assert(false);
                }
                return Err(VMError::VeryLargeNumber);
            },
        };
        proof {
            lemma_round32(offset.as_nat() + size as int);
            assert(self@ =~= expand_view(old(self)@, round32(offset.as_nat() + size as int)));
        }
        let ghost expanded = self@;
        let dlen = crate::bytebuf::bytes_len(data);
        let n = if dlen < size { dlen } else { size };
        let mut buf: Vec<u8> = Vec::new();
        let mut j: usize = 0;
        while j < n
            invariant
                j <= n,
                n <= bytes_view(*data).len(),
                buf@ =~= bytes_view(*data).take(j as int),
            decreases n - j,
        {
            buf.push(crate::bytebuf::bytes_get(data, j));
            j += 1;
        }
        self.write_at(off, &buf);
        proof {
            assert(final(self)@ =~= write_view(
                expanded,
                off as int,
                bytes_view(*data).take(vstd::math::min(size as int, bytes_view(*data).len() as int)),
            ));
        }
        Ok(())
    }

    /// Expand to cover both ranges and copy `size` bytes from
    /// `src_offset` to `dest_offset`, as if through a buffer.
    pub fn try_copy_within(&mut self, src_offset: &U256, dest_offset: &U256, size: usize) -> (r:
        Result<(), VMError>)
        requires
            old(self).wf(),
        ensures
            final(self).wf(),
            r is Err ==> r == Err::<(), VMError>(VMError::VeryLargeNumber)
                && final(self)@ == old(self)@,
            size > 0 ==> ((r is Ok) <==> src_offset.as_nat() + size + 31 <= usize::MAX
                && dest_offset.as_nat() + size + 31 <= usize::MAX),
            size == 0 ==> r is Ok && final(self)@ == old(self)@,
            r is Ok && size > 0 ==> {
                let grown = expand_view(
                    old(self)@,
                    vstd::math::max(
                        round32(src_offset.as_nat() + size as int),
                        round32(dest_offset.as_nat() + size as int),
                    ),
                );
                final(self)@ == write_view(
                    grown,
                    dest_offset.as_nat() as int,
                    grown.subrange(src_offset.as_nat() as int, src_offset.as_nat() + size),
                )
            },
    {
        if size == 0 {
            return Ok(());
        }
        let src_size = calculate_memory_size(src_offset, size)?;
        let dest_size = calculate_memory_size(dest_offset, size)?;
        let new_size = if src_size > dest_size { src_size } else { dest_size };
        self.expand(new_size);
        let src = match src_offset.to_usize() {
            Some(o) => o,
            None => {
                proof {
                    assert(false);
                }
                return Err(VMError::VeryLargeNumber);
            },
        };
        let dest = match dest_offset.to_usize() {
            Some(o) => o,
            None => {
                proof {
                    assert(false);
                }
                return Err(VMError::VeryLargeNumber);
            },
        };
        proof {
            lemma_round32(src_offset.as_nat() + size as int);
            lemma_round32(dest_offset.as_nat() + size as int);
            assert(self@ =~= expand_view(
                old(self)@,
                vstd::math::max(
                    round32(src_offset.as_nat() + size as int),
                    round32(dest_offset.as_nat() + size as int),
                ),
            ));
        }
        let ghost grown = self@;
        let buf = self.read_at(src, size);
        self.write_at(dest, &buf);
        proof {
            assert(final(self)@ =~= write_view(
                grown,
                dest as int,
                grown.subrange(src as int, src + size),
            ));
        }
        Ok(())
    }
}

} // verus!
