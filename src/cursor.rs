use vstd::prelude::*;

use crate::error::DecodeError;

verus! {

/// The outcome of taking `n` bytes at position `pos` of `data`: the bytes and
/// the position after them, or the error that a strict read reports.
pub open spec fn spec_take(data: Seq<u8>, pos: nat, n: nat) -> Result<(Seq<u8>, nat), DecodeError> {
    if pos + n <= data.len() {
        Ok((data.subrange(pos as int, (pos + n) as int), pos + n))
    } else {
        Err(DecodeError::InsufficientData { offset: pos as usize, requested: n as u64 })
    }
}

/// 256 raised to the power `k`.
pub open spec fn pow256(k: nat) -> nat
    decreases k,
{
    if k == 0 {
        1
    } else {
        256 * pow256((k - 1) as nat)
    }
}

/// The unsigned integer whose little-endian bytes are `s`.
pub open spec fn le_value(s: Seq<u8>) -> nat
    decreases s.len(),
{
    if s.len() == 0 {
        0
    } else {
        s[0] as nat + 256 * le_value(s.drop_first())
    }
}

/// Reading an `n`-byte little-endian integer at `pos`.
pub open spec fn spec_read_le(data: Seq<u8>, pos: nat, n: nat) -> Result<(nat, nat), DecodeError> {
    match spec_take(data, pos, n) {
        Ok((bytes, p)) => Ok((le_value(bytes), p)),
        Err(e) => Err(e),
    }
}

/// How many bytes follow a compact-size prefix byte.
pub open spec fn compact_size_width(prefix: u8) -> nat {
    if prefix <= 252 {
        0
    } else if prefix == 253 {
        2
    } else if prefix == 254 {
        4
    } else {
        8
    }
}

/// Reading a compact size at `pos`: a prefix byte, then, for prefixes
/// 253, 254 and 255, a 2-, 4- or 8-byte little-endian value.
pub open spec fn spec_compact_size(data: Seq<u8>, pos: nat) -> Result<(u64, nat), DecodeError> {
    match spec_take(data, pos, 1) {
        Ok((b, p)) => if b[0] <= 252 {
            Ok((b[0] as u64, p))
        } else {
            match spec_read_le(data, p, compact_size_width(b[0])) {
                Ok((v, q)) => Ok((v as u64, q)),
                Err(e) => Err(e),
            }
        },
        Err(e) => Err(e),
    }
}

/// Reading a little-endian `u32` at `pos`.
pub open spec fn spec_u32(data: Seq<u8>, pos: nat) -> Result<(u32, nat), DecodeError> {
    match spec_read_le(data, pos, 4) {
        Ok((v, p)) => Ok((v as u32, p)),
        Err(e) => Err(e),
    }
}

/// Reading a little-endian `u64` at `pos`.
pub open spec fn spec_u64(data: Seq<u8>, pos: nat) -> Result<(u64, nat), DecodeError> {
    match spec_read_le(data, pos, 8) {
        Ok((v, p)) => Ok((v as u64, p)),
        Err(e) => Err(e),
    }
}

proof fn lemma_pow256_monotone(a: nat, b: nat)
    requires
        a <= b,
    ensures
        pow256(a) <= pow256(b),
    decreases b,
{
    if a < b {
        lemma_pow256_monotone(a, (b - 1) as nat);
    }
}

pub(crate) proof fn lemma_pow256_values()
    ensures
        pow256(2) == 0x1_0000,
        pow256(4) == 0x1_0000_0000,
        pow256(7) == 0x100_0000_0000_0000,
        pow256(8) == 0x1_0000_0000_0000_0000,
{
    reveal_with_fuel(pow256, 9);
}

pub proof fn lemma_le_value_bound(s: Seq<u8>)
    ensures
        le_value(s) < pow256(s.len()),
    decreases s.len(),
{
    if s.len() > 0 {
        let rest = s.drop_first();
        lemma_le_value_bound(rest);
        let a = s[0] as nat;
        let l = le_value(rest);
        let p = pow256(rest.len());
        assert(a + 256 * l < 256 * p) by (nonlinear_arith)
            requires
                a < 256,
                l < p,
        ;
    }
}

/// A compact size whose prefix byte is at most 252 is that byte, and takes
/// exactly one byte.
pub proof fn lemma_compact_size_single_byte(data: Seq<u8>)
    requires
        data.len() > 0,
        data[0] <= 252,
    ensures
        spec_compact_size(data, 0) == Ok::<(u64, nat), DecodeError>((data[0] as u64, 1nat)),
{
    assert(data.subrange(0, 1)[0] == data[0]);
}

/// A sequential, bounds-checked reader over an immutable byte buffer.
pub struct ByteCursor<'a> {
    buf: &'a [u8],
    pos: usize,
}

impl<'a> ByteCursor<'a> {
    /// The whole buffer the cursor reads from.
    pub closed spec fn data(&self) -> Seq<u8> {
        self.buf@
    }

    /// The index of the next byte to be read.
    pub closed spec fn pos(&self) -> nat {
        self.pos as nat
    }

    /// The position never passes the end of the buffer.
    pub open spec fn wf(&self) -> bool {
        self.pos() <= self.data().len()
    }

    /// A cursor at the start of `buf`.
    pub fn new(buf: &'a [u8]) -> (r: Self)
        ensures
            r.wf(),
            r.data() == buf@,
            r.pos() == 0,
    {
        ByteCursor { buf, pos: 0 }
    }

    /// The index of the next byte to be read.
    pub fn position(&self) -> (r: usize)
        ensures
            r == self.pos(),
    {
        self.pos
    }

    /// How many bytes are left to read.
    pub fn remaining(&self) -> (r: usize)
        requires
            self.wf(),
        ensures
            r == self.data().len() - self.pos(),
    {
        self.buf.len() - self.pos
    }

    /// The next `n` bytes, advancing past them; fails, without moving, when
    /// fewer than `n` remain.
    pub fn read_exact(&mut self, n: u64) -> (r: Result<&'a [u8], DecodeError>)
        requires
            old(self).wf(),
        ensures
            final(self).wf(),
            final(self).data() == old(self).data(),
            match spec_take(old(self).data(), old(self).pos(), n as nat) {
                Ok((bytes, p)) => r is Ok && r->Ok_0@ == bytes && final(self).pos() == p,
                Err(e) => r is Err && r->Err_0 == e && final(self).pos() == old(self).pos(),
            },
    {
        let left = self.buf.len() - self.pos;
        if n > left as u64 {
            return Err(DecodeError::InsufficientData { offset: self.pos, requested: n });
        }
        let end = self.pos + n as usize;
        let out = vstd::slice::slice_subrange(self.buf, self.pos, end);
        self.pos = end;
        Ok(out)
    }
    /// The next `n` bytes as a little-endian integer.
    pub fn read_le(&mut self, n: u64) -> (r: Result<u64, DecodeError>)
        requires
            old(self).wf(),
            n <= 8,
        ensures
            final(self).wf(),
            final(self).data() == old(self).data(),
            match spec_read_le(old(self).data(), old(self).pos(), n as nat) {
                Ok((v, p)) => r == Ok::<u64, DecodeError>(v as u64) && final(self).pos() == p,
                Err(e) => r == Err::<u64, DecodeError>(e),
            },
    {
        let bytes = match self.read_exact(n) {
            Ok(b) => b,
            Err(e) => return Err(e),
        };
        let ghost s = bytes@;
        let mut v: u64 = 0;
        let mut i: usize = bytes.len();
        proof {
            assert(s.subrange(n as int, n as int) =~= Seq::<u8>::empty());
        }
        while i > 0
            invariant
                i <= bytes@.len(),
                bytes@.len() == n,
                n <= 8,
                s == bytes@,
                v as nat == le_value(s.subrange(i as int, n as int)),
            decreases i,
        {
            i = i - 1;
            let ghost rest = s.subrange(i + 1, n as int);
            proof {
                lemma_le_value_bound(rest);
                lemma_pow256_monotone(rest.len(), 7);
                lemma_pow256_values();
            }
            let b = bytes[i];
            v = v * 256 + b as u64;
            proof {
                assert(s.subrange(i as int, n as int).drop_first() =~= rest);
            }
        }
        proof {
            assert(s.subrange(0, n as int) =~= s);
            lemma_le_value_bound(s);
            lemma_pow256_monotone(n as nat, 8);
            lemma_pow256_values();
        }
        Ok(v)
    }
}

} // verus!
