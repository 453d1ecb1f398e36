use vstd::prelude::*;

use crate::cursor::{ByteCursor, spec_compact_size, spec_take, spec_u32, spec_u64};
use crate::error::{DecodeError, HexError};
use crate::hashing::{hash_raw_transaction, sha256_of};
use crate::hexcodec::{
    first_non_digit_reported, hex_bytes, hex_decode, is_ascii, is_hex, is_hex_digit,
};
use crate::model::{Input, InputView, Output, OutputView, Transaction, TransactionView};
use crate::readers::{read_amount, read_compact_size, read_script, read_txid, read_u32, spec_script, spec_txid};

verus! {

/// Reading one input at `pos`: previous txid, output index, unlocking script,
/// sequence number.
pub open spec fn spec_input(data: Seq<u8>, pos: nat) -> Result<(InputView, nat), DecodeError> {
    match spec_txid(data, pos) {
        Ok((txid, p1)) => match spec_u32(data, p1) {
            Ok((output_index, p2)) => match spec_script(data, p2) {
                Ok((script_sig, p3)) => match spec_u32(data, p3) {
                    Ok((sequence, p4)) => Ok(
                        (InputView { txid, output_index, script_sig, sequence }, p4),
                    ),
                    Err(e) => Err(e),
                },
                Err(e) => Err(e),
            },
            Err(e) => Err(e),
        },
        Err(e) => Err(e),
    }
}

/// Reading one output at `pos`: amount, then locking script.
pub open spec fn spec_output(data: Seq<u8>, pos: nat) -> Result<(OutputView, nat), DecodeError> {
    match spec_u64(data, pos) {
        Ok((amount, p1)) => match spec_script(data, p1) {
            Ok((script_pubkey, p2)) => Ok((OutputView { amount, script_pubkey }, p2)),
            Err(e) => Err(e),
        },
        Err(e) => Err(e),
    }
}

/// Reading `n` inputs one after another from `pos`.
pub open spec fn spec_inputs(data: Seq<u8>, pos: nat, n: nat) -> Result<(Seq<InputView>, nat), DecodeError>
    decreases n,
{
    if n == 0 {
        Ok((Seq::empty(), pos))
    } else {
        match spec_inputs(data, pos, (n - 1) as nat) {
            Ok((xs, p)) => match spec_input(data, p) {
                Ok((x, q)) => Ok((xs.push(x), q)),
                Err(e) => Err(e),
            },
            Err(e) => Err(e),
        }
    }
}

/// Reading `n` outputs one after another from `pos`.
pub open spec fn spec_outputs(data: Seq<u8>, pos: nat, n: nat) -> Result<(Seq<OutputView>, nat), DecodeError>
    decreases n,
{
    if n == 0 {
        Ok((Seq::empty(), pos))
    } else {
        match spec_outputs(data, pos, (n - 1) as nat) {
            Ok((xs, p)) => match spec_output(data, p) {
                Ok((x, q)) => Ok((xs.push(x), q)),
                Err(e) => Err(e),
            },
            Err(e) => Err(e),
        }
    }
}

/// The fields of a raw transaction in wire order (version, input count and
/// inputs, output count and outputs, lock time), and the position after the
/// lock time. Bytes after it are not read.
pub open spec fn spec_fields(data: Seq<u8>) -> Result<(TransactionView, nat), DecodeError> {
    match spec_u32(data, 0) {
        Ok((version, p1)) => match spec_compact_size(data, p1) {
            Ok((n_in, p2)) => match spec_inputs(data, p2, n_in as nat) {
                Ok((inputs, p3)) => match spec_compact_size(data, p3) {
                    Ok((n_out, p4)) => match spec_outputs(data, p4, n_out as nat) {
                        Ok((outputs, p5)) => match spec_u32(data, p5) {
                            Ok((lock_time, p6)) => Ok(
                                (
                                    TransactionView {
                                        transaction_id: sha256_of(sha256_of(data)),
                                        version,
                                        inputs,
                                        outputs,
                                        lock_time,
                                    },
                                    p6,
                                ),
                            ),
                            Err(e) => Err(e),
                        },
                        Err(e) => Err(e),
                    },
                    Err(e) => Err(e),
                },
                Err(e) => Err(e),
            },
            Err(e) => Err(e),
        },
        Err(e) => Err(e),
    }
}

/// The transaction that raw bytes decode to, identified by the double
/// SHA-256 of all of them.
pub open spec fn spec_parse(data: Seq<u8>) -> Result<TransactionView, DecodeError> {
    match spec_fields(data) {
        Ok((t, _)) => Ok(t),
        Err(e) => Err(e),
    }
}

/// A decode result seen through the views of its transaction.
pub open spec fn result_view(r: Result<Transaction, DecodeError>) -> Result<TransactionView, DecodeError> {
    match r {
        Ok(t) => Ok(t@),
        Err(e) => Err(e),
    }
}

proof fn lemma_inputs_error_persists(data: Seq<u8>, pos: nat, k: nat, n: nat)
    requires
        k <= n,
        spec_inputs(data, pos, k) is Err,
    ensures
        spec_inputs(data, pos, n) == spec_inputs(data, pos, k),
    decreases n,
{
    if k < n {
        lemma_inputs_error_persists(data, pos, k, (n - 1) as nat);
    }
}

proof fn lemma_outputs_error_persists(data: Seq<u8>, pos: nat, k: nat, n: nat)
    requires
        k <= n,
        spec_outputs(data, pos, k) is Err,
    ensures
        spec_outputs(data, pos, n) == spec_outputs(data, pos, k),
    decreases n,
{
    if k < n {
        lemma_outputs_error_persists(data, pos, k, (n - 1) as nat);
    }
}

fn read_input(cursor: &mut ByteCursor) -> (r: Result<Input, DecodeError>)
    requires
        old(cursor).wf(),
    ensures
        final(cursor).wf(),
        final(cursor).data() == old(cursor).data(),
        match spec_input(old(cursor).data(), old(cursor).pos()) {
            Ok((v, p)) => r is Ok && r->Ok_0@ == v && final(cursor).pos() == p,
            Err(e) => r is Err && r->Err_0 == e,
        },
{
    let txid = match read_txid(cursor) {
        Ok(v) => v,
        Err(e) => return Err(e),
    };
    let output_index = match read_u32(cursor) {
        Ok(v) => v,
        Err(e) => return Err(e),
    };
    let script_sig = match read_script(cursor) {
        Ok(v) => v,
        Err(e) => return Err(e),
    };
    let sequence = match read_u32(cursor) {
        Ok(v) => v,
        Err(e) => return Err(e),
    };
    Ok(Input { txid, output_index, script_sig, sequence })
}

fn read_output(cursor: &mut ByteCursor) -> (r: Result<Output, DecodeError>)
    requires
        old(cursor).wf(),
    ensures
        final(cursor).wf(),
        final(cursor).data() == old(cursor).data(),
        match spec_output(old(cursor).data(), old(cursor).pos()) {
            Ok((v, p)) => r is Ok && r->Ok_0@ == v && final(cursor).pos() == p,
            Err(e) => r is Err && r->Err_0 == e,
        },
{
    let amount = match read_amount(cursor) {
        Ok(v) => v,
        Err(e) => return Err(e),
    };
    let script_pubkey = match read_script(cursor) {
        Ok(v) => v,
        Err(e) => return Err(e),
    };
    Ok(Output { amount, script_pubkey })
}

fn read_inputs(cursor: &mut ByteCursor, count: u64) -> (r: Result<Vec<Input>, DecodeError>)
    requires
        old(cursor).wf(),
    ensures
        final(cursor).wf(),
        final(cursor).data() == old(cursor).data(),
        match spec_inputs(old(cursor).data(), old(cursor).pos(), count as nat) {
            Ok((v, p)) => r is Ok && r->Ok_0@.map_values(|i: Input| i@) == v && final(cursor).pos() == p,
            Err(e) => r is Err && r->Err_0 == e,
        },
{
    let ghost data = cursor.data();
    let ghost start = cursor.pos();
    let mut inputs: Vec<Input> = Vec::new();
    let mut i: u64 = 0;
    assert(inputs@.map_values(|x: Input| x@) =~= Seq::<InputView>::empty());
    while i < count
        invariant
            i <= count,
            cursor.wf(),
            cursor.data() == data,
            data == old(cursor).data(),
            start == old(cursor).pos(),
            spec_inputs(data, start, i as nat) == Ok::<(Seq<InputView>, nat), DecodeError>(
                (inputs@.map_values(|x: Input| x@), cursor.pos()),
            ),
        decreases count - i,
    {
        let ghost before = inputs@.map_values(|x: Input| x@);
        let next = read_input(cursor);
        match next {
            Ok(input) => {
                inputs.push(input);
                assert(inputs@.map_values(|x: Input| x@) =~= before.push(input@));
            },
            Err(e) => {
                proof {
                    lemma_inputs_error_persists(data, start, (i + 1) as nat, count as nat);
                }
                return Err(e);
            },
        }
        i = i + 1;
    }
    Ok(inputs)
}

fn read_outputs(cursor: &mut ByteCursor, count: u64) -> (r: Result<Vec<Output>, DecodeError>)
    requires
        old(cursor).wf(),
    ensures
        final(cursor).wf(),
        final(cursor).data() == old(cursor).data(),
        match spec_outputs(old(cursor).data(), old(cursor).pos(), count as nat) {
            Ok((v, p)) => r is Ok && r->Ok_0@.map_values(|o: Output| o@) == v && final(cursor).pos() == p,
            Err(e) => r is Err && r->Err_0 == e,
        },
{
    let ghost data = cursor.data();
    let ghost start = cursor.pos();
    let mut outputs: Vec<Output> = Vec::new();
    let mut i: u64 = 0;
    assert(outputs@.map_values(|x: Output| x@) =~= Seq::<OutputView>::empty());
    while i < count
        invariant
            i <= count,
            cursor.wf(),
            cursor.data() == data,
            data == old(cursor).data(),
            start == old(cursor).pos(),
            spec_outputs(data, start, i as nat) == Ok::<(Seq<OutputView>, nat), DecodeError>(
                (outputs@.map_values(|x: Output| x@), cursor.pos()),
            ),
        decreases count - i,
    {
        let ghost before = outputs@.map_values(|x: Output| x@);
        let next = read_output(cursor);
        match next {
            Ok(output) => {
                outputs.push(output);
                assert(outputs@.map_values(|x: Output| x@) =~= before.push(output@));
            },
            Err(e) => {
                proof {
                    lemma_outputs_error_persists(data, start, (i + 1) as nat, count as nat);
                }
                return Err(e);
            },
        }
        i = i + 1;
    }
    Ok(outputs)
}

/// What a hex-decoding failure reports on an ASCII string: an odd length
/// first, else the first character that is not a hexadecimal digit.
pub open spec fn hex_error_reported(s: Seq<char>, e: HexError) -> bool {
    if s.len() % 2 == 1 {
        e == HexError::OddLength
    } else {
        first_non_digit_reported(s, e)
    }
}

/// The outcome of decoding the hexadecimal string `s`: a valid string gives
/// what its bytes decode to; any other gives a hex-decoding error, which on
/// an ASCII string names the odd length or the first non-digit.
pub open spec fn decode_outcome(s: Seq<char>, r: Result<TransactionView, DecodeError>) -> bool {
    if is_hex(s) {
        r == spec_parse(hex_bytes(s))
    } else {
        &&& r is Err
        &&& r->Err_0 is HexDecode
        &&& is_ascii(s) ==> hex_error_reported(s, r->Err_0->HexDecode_0)
    }
}

/// Decodes a raw legacy transaction. Fields are read in wire order; bytes
/// after the lock time are ignored; the identifier is the double SHA-256 of
/// the whole buffer. Any short read fails the whole decode.
pub fn decode_bytes(raw_transaction: &[u8]) -> (r: Result<Transaction, DecodeError>)
    ensures
        result_view(r) == spec_parse(raw_transaction@),
{
    let mut cursor = ByteCursor::new(raw_transaction);
    let version = match read_u32(&mut cursor) {
        Ok(v) => v,
        Err(e) => return Err(e),
    };
    let input_count = match read_compact_size(&mut cursor) {
        Ok(v) => v,
        Err(e) => return Err(e),
    };
    let inputs = match read_inputs(&mut cursor, input_count) {
        Ok(v) => v,
        Err(e) => return Err(e),
    };
    let output_count = match read_compact_size(&mut cursor) {
        Ok(v) => v,
        Err(e) => return Err(e),
    };
    let outputs = match read_outputs(&mut cursor, output_count) {
        Ok(v) => v,
        Err(e) => return Err(e),
    };
    let lock_time = match read_u32(&mut cursor) {
        Ok(v) => v,
        Err(e) => return Err(e),
    };
    let transaction_id = hash_raw_transaction(raw_transaction);
    let transaction = Transaction { transaction_id, version, inputs, outputs, lock_time };
    Ok(transaction)
}

/// Decodes a transaction given as a hexadecimal string (digits of either
/// case). A string that is not valid hexadecimal fails with
/// `DecodeError::HexDecode`; otherwise the result is that of `decode_bytes`
/// on its bytes.
pub fn decode(transaction_hex: String) -> (r: Result<Transaction, DecodeError>)
    ensures
        decode_outcome(transaction_hex@, result_view(r)),
{
    let raw = match hex_decode(transaction_hex.as_str()) {
        Ok(b) => b,
        Err(e) => return Err(DecodeError::HexDecode(e)),
    };
    decode_bytes(raw.as_slice())
}

proof fn lemma_input_errors_are_short_reads(data: Seq<u8>, pos: nat, n: nat)
    ensures
        spec_inputs(data, pos, n) is Err ==> spec_inputs(data, pos, n)->Err_0 is InsufficientData,
    decreases n,
{
    if n > 0 {
        lemma_input_errors_are_short_reads(data, pos, (n - 1) as nat);
    }
}

proof fn lemma_output_errors_are_short_reads(data: Seq<u8>, pos: nat, n: nat)
    ensures
        spec_outputs(data, pos, n) is Err ==> spec_outputs(data, pos, n)->Err_0 is InsufficientData,
    decreases n,
{
    if n > 0 {
        lemma_output_errors_are_short_reads(data, pos, (n - 1) as nat);
    }
}

/// Raw bytes fail to decode only by running out: every read is strict, so
/// the only error is a short read, never a zero-padded field.
pub proof fn lemma_parse_fails_only_on_short_read(data: Seq<u8>)
    ensures
        spec_parse(data) is Err ==> spec_parse(data)->Err_0 is InsufficientData,
{
    if let Ok((_, p1)) = spec_u32(data, 0) {
        if let Ok((n_in, p2)) = spec_compact_size(data, p1) {
            lemma_input_errors_are_short_reads(data, p2, n_in as nat);
            if let Ok((_, p3)) = spec_inputs(data, p2, n_in as nat) {
                if let Ok((n_out, p4)) = spec_compact_size(data, p3) {
                    lemma_output_errors_are_short_reads(data, p4, n_out as nat);
                }
            }
        }
    }
}

/// A valid hexadecimal string that does not decode (it stops short in the
/// middle of a field) fails with `InsufficientData`.
pub proof fn lemma_truncated_hex_is_short_read(s: Seq<char>, r: Result<TransactionView, DecodeError>)
    requires
        decode_outcome(s, r),
        is_hex(s),
        r is Err,
    ensures
        r->Err_0 is InsufficientData,
{
    lemma_parse_fails_only_on_short_read(hex_bytes(s));
}

/// A string with an odd number of characters, or with a character that is
/// not a hexadecimal digit, fails with `HexDecode`.
pub proof fn lemma_invalid_hex_rejected(s: Seq<char>, r: Result<TransactionView, DecodeError>)
    requires
        decode_outcome(s, r),
        s.len() % 2 == 1 || exists|i: int| 0 <= i < s.len() && !is_hex_digit(#[trigger] s[i]),
    ensures
        r is Err,
        r->Err_0 is HexDecode,
{
}

/// Decoding is deterministic: two decodes of one string give the same
/// transaction, or, for a valid or ASCII string, the same error.
pub proof fn lemma_decode_deterministic(
    s: Seq<char>,
    a: Result<TransactionView, DecodeError>,
    b: Result<TransactionView, DecodeError>,
)
    requires
        decode_outcome(s, a),
        decode_outcome(s, b),
    ensures
        a is Ok <==> b is Ok,
        a is Ok ==> a == b,
        is_hex(s) || is_ascii(s) ==> a == b,
{
    if !is_hex(s) && is_ascii(s) && s.len() % 2 == 0 {
        let ea = a->Err_0->HexDecode_0;
        let eb = b->Err_0->HexDecode_0;
        if let HexError::InvalidCharacter { c: ca, index: ia } = ea {
            if let HexError::InvalidCharacter { c: cb, index: ib } = eb {
                assert(!(ia < ib));
                assert(!(ib < ia));
            }
        }
    }
}

/// Every successful take from a prefix of `data` is the same take from `data`.
proof fn lemma_take_from_prefix(data: Seq<u8>, k: nat)
    requires
        k <= data.len(),
    ensures
        forall|pos: nat, n: nat| #[trigger]
            spec_take(data.subrange(0, k as int), pos, n) is Ok ==> {
                &&& spec_take(data, pos, n) == spec_take(data.subrange(0, k as int), pos, n)
                &&& spec_take(data.subrange(0, k as int), pos, n)->Ok_0.1 <= k
            },
{
    let d = data.subrange(0, k as int);
    assert forall|pos: nat, n: nat| #[trigger] spec_take(d, pos, n) is Ok implies {
        &&& spec_take(data, pos, n) == spec_take(d, pos, n)
        &&& spec_take(d, pos, n)->Ok_0.1 <= k
    } by {
        assert(d.subrange(pos as int, (pos + n) as int) =~= data.subrange(pos as int, (pos + n) as int));
    }
}

proof fn lemma_input_from_prefix(data: Seq<u8>, k: nat, pos: nat)
    requires
        k <= data.len(),
    ensures
        spec_input(data.subrange(0, k as int), pos) is Ok ==> {
            &&& spec_input(data, pos) == spec_input(data.subrange(0, k as int), pos)
            &&& spec_input(data.subrange(0, k as int), pos)->Ok_0.1 <= k
        },
{
    lemma_take_from_prefix(data, k);
}

proof fn lemma_output_from_prefix(data: Seq<u8>, k: nat, pos: nat)
    requires
        k <= data.len(),
    ensures
        spec_output(data.subrange(0, k as int), pos) is Ok ==> {
            &&& spec_output(data, pos) == spec_output(data.subrange(0, k as int), pos)
            &&& spec_output(data.subrange(0, k as int), pos)->Ok_0.1 <= k
        },
{
    lemma_take_from_prefix(data, k);
}

proof fn lemma_inputs_from_prefix(data: Seq<u8>, k: nat, pos: nat, n: nat)
    requires
        k <= data.len(),
        pos <= k,
    ensures
        spec_inputs(data.subrange(0, k as int), pos, n) is Ok ==> {
            &&& spec_inputs(data, pos, n) == spec_inputs(data.subrange(0, k as int), pos, n)
            &&& spec_inputs(data.subrange(0, k as int), pos, n)->Ok_0.1 <= k
        },
    decreases n,
{
    lemma_take_from_prefix(data, k);
    if n > 0 {
        lemma_inputs_from_prefix(data, k, pos, (n - 1) as nat);
        let d = data.subrange(0, k as int);
        if let Ok((_, p)) = spec_inputs(d, pos, (n - 1) as nat) {
            lemma_input_from_prefix(data, k, p);
        }
    }
}

proof fn lemma_outputs_from_prefix(data: Seq<u8>, k: nat, pos: nat, n: nat)
    requires
        k <= data.len(),
        pos <= k,
    ensures
        spec_outputs(data.subrange(0, k as int), pos, n) is Ok ==> {
            &&& spec_outputs(data, pos, n) == spec_outputs(data.subrange(0, k as int), pos, n)
            &&& spec_outputs(data.subrange(0, k as int), pos, n)->Ok_0.1 <= k
        },
    decreases n,
{
    lemma_take_from_prefix(data, k);
    if n > 0 {
        lemma_outputs_from_prefix(data, k, pos, (n - 1) as nat);
        let d = data.subrange(0, k as int);
        if let Ok((_, p)) = spec_outputs(d, pos, (n - 1) as nat) {
            lemma_output_from_prefix(data, k, p);
        }
    }
}

/// Cutting a decodable buffer anywhere before the end of its lock time
/// leaves bytes that fail to decode, with `InsufficientData`.
pub proof fn lemma_truncated_bytes_are_short_read(data: Seq<u8>, k: nat)
    requires
        spec_fields(data) is Ok,
        k < spec_fields(data)->Ok_0.1,
    ensures
        spec_parse(data.subrange(0, k as int)) is Err,
        spec_parse(data.subrange(0, k as int))->Err_0 is InsufficientData,
{
    let d = data.subrange(0, k as int);
    lemma_take_from_prefix(data, k);
    lemma_parse_fails_only_on_short_read(d);
    if let Ok((_, p1)) = spec_u32(d, 0) {
        if let Ok((n_in, p2)) = spec_compact_size(d, p1) {
            lemma_inputs_from_prefix(data, k, p2, n_in as nat);
            if let Ok((_, p3)) = spec_inputs(d, p2, n_in as nat) {
                if let Ok((n_out, p4)) = spec_compact_size(d, p3) {
                    lemma_outputs_from_prefix(data, k, p4, n_out as nat);
                }
            }
        }
    }
}

} // verus!
