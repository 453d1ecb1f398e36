use vstd::prelude::*;

use crate::cursor::{
    ByteCursor, compact_size_width, lemma_le_value_bound, lemma_pow256_values, spec_compact_size,
    spec_take, spec_u32, spec_u64,
};
use crate::error::DecodeError;
use crate::hexcodec::{hex_encode, hex_lower};
use crate::model::{Amount, Txid};

verus! {

/// Reading a 32-byte hash at `pos`, kept in the order it is stored.
pub open spec fn spec_txid(data: Seq<u8>, pos: nat) -> Result<(Seq<u8>, nat), DecodeError> {
    spec_take(data, pos, 32)
}

/// Reading a script at `pos`: a compact-size length, then that many bytes,
/// given back as lowercase hexadecimal.
pub open spec fn spec_script(data: Seq<u8>, pos: nat) -> Result<(Seq<char>, nat), DecodeError> {
    match spec_compact_size(data, pos) {
        Ok((len, p)) => match spec_take(data, p, len as nat) {
            Ok((bytes, q)) => Ok((hex_lower(bytes), q)),
            Err(e) => Err(e),
        },
        Err(e) => Err(e),
    }
}

/// Reads a compact size: one prefix byte, itself the value when it is at most
/// 252, else followed by a 2-, 4- or 8-byte little-endian value (253, 254,
/// 255). Non-minimal encodings are accepted.
pub fn read_compact_size(cursor: &mut ByteCursor) -> (r: Result<u64, DecodeError>)
    requires
        old(cursor).wf(),
    ensures
        final(cursor).wf(),
        final(cursor).data() == old(cursor).data(),
        match spec_compact_size(old(cursor).data(), old(cursor).pos()) {
            Ok((v, p)) => r is Ok && r->Ok_0 == v && final(cursor).pos() == p,
            Err(e) => r is Err && r->Err_0 == e,
        },
{
    let prefix = match cursor.read_exact(1) {
        Ok(b) => b[0],
        Err(e) => return Err(e),
    };
    if prefix <= 252 {
        return Ok(prefix as u64);
    }
    let width: u64 = if prefix == 253 {
        2
    } else if prefix == 254 {
        4
    } else {
        8
    };
    assert(width == compact_size_width(prefix));
    cursor.read_le(width)
}

/// Reads a 4-byte little-endian unsigned integer.
pub fn read_u32(cursor: &mut ByteCursor) -> (r: Result<u32, DecodeError>)
    requires
        old(cursor).wf(),
    ensures
        final(cursor).wf(),
        final(cursor).data() == old(cursor).data(),
        match spec_u32(old(cursor).data(), old(cursor).pos()) {
            Ok((v, p)) => r is Ok && r->Ok_0 == v && final(cursor).pos() == p,
            Err(e) => r is Err && r->Err_0 == e,
        },
{
    proof {
        lemma_pow256_values();
        if old(cursor).pos() + 4 <= old(cursor).data().len() {
            lemma_le_value_bound(
                old(cursor).data().subrange(old(cursor).pos() as int, (old(cursor).pos() + 4) as int),
            );
        }
    }
    match cursor.read_le(4) {
        Ok(v) => Ok(v as u32),
        Err(e) => Err(e),
    }
}

/// Reads an 8-byte little-endian amount of satoshis.
pub fn read_amount(cursor: &mut ByteCursor) -> (r: Result<Amount, DecodeError>)
    requires
        old(cursor).wf(),
    ensures
        final(cursor).wf(),
        final(cursor).data() == old(cursor).data(),
        match spec_u64(old(cursor).data(), old(cursor).pos()) {
            Ok((v, p)) => r is Ok && r->Ok_0@ == v && final(cursor).pos() == p,
            Err(e) => r is Err && r->Err_0 == e,
        },
{
    match cursor.read_le(8) {
        Ok(v) => Ok(Amount::from_sat(v)),
        Err(e) => Err(e),
    }
}

/// Reads a 32-byte hash verbatim.
pub fn read_txid(cursor: &mut ByteCursor) -> (r: Result<Txid, DecodeError>)
    requires
        old(cursor).wf(),
    ensures
        final(cursor).wf(),
        final(cursor).data() == old(cursor).data(),
        match spec_txid(old(cursor).data(), old(cursor).pos()) {
            Ok((v, p)) => r is Ok && r->Ok_0@ == v && final(cursor).pos() == p,
            Err(e) => r is Err && r->Err_0 == e,
        },
{
    let bytes = match cursor.read_exact(32) {
        Ok(b) => b,
        Err(e) => return Err(e),
    };
    let mut arr = [0u8; 32];
    let mut i: usize = 0;
    while i < 32
        invariant
            i <= 32,
            bytes@.len() == 32,
            arr@.len() == 32,
            forall|j: int| 0 <= j < i ==> arr@[j] == bytes@[j],
        decreases 32 - i,
    {
        arr[i] = bytes[i];
        i = i + 1;
    }
    assert(arr@ =~= bytes@);
    Ok(Txid::from_bytes(arr))
}

/// Reads a compact-size length and that many bytes, and renders them as
/// lowercase hexadecimal.
pub fn read_script(cursor: &mut ByteCursor) -> (r: Result<String, DecodeError>)
    requires
        old(cursor).wf(),
    ensures
        final(cursor).wf(),
        final(cursor).data() == old(cursor).data(),
        match spec_script(old(cursor).data(), old(cursor).pos()) {
            Ok((v, p)) => r is Ok && r->Ok_0@ == v && final(cursor).pos() == p,
            Err(e) => r is Err && r->Err_0 == e,
        },
{
    let len = match read_compact_size(cursor) {
        Ok(n) => n,
        Err(e) => return Err(e),
    };
    match cursor.read_exact(len) {
        Ok(bytes) => Ok(hex_encode(bytes)),
        Err(e) => Err(e),
    }
}

} // verus!
