use vstd::prelude::*;

use crate::hexcodec::{hex_encode, hex_lower};

verus! {

/// A 32-byte transaction identifier, kept in the order it was hashed or read;
/// it is shown with its bytes reversed.
pub struct Txid {
    bytes: [u8; 32],
}

impl View for Txid {
    type V = Seq<u8>;

    closed spec fn view(&self) -> Seq<u8> {
        self.bytes@
    }
}

impl Txid {
    pub fn from_bytes(bytes: [u8; 32]) -> (r: Txid)
        ensures
            r@ == bytes@,
    {
        Txid { bytes }
    }

    pub fn to_bytes(&self) -> (r: [u8; 32])
        ensures
            r@ == self@,
    {
        self.bytes
    }

    /// The conventional display form: the bytes in reverse order, as
    /// lowercase hexadecimal.
    pub fn to_hex(&self) -> (r: String)
        ensures
            r@ == hex_lower(self@.reverse()),
    {
        let mut rev: Vec<u8> = Vec::new();
        let mut k: usize = 0;
        while k < 32
            invariant
                k <= 32,
                self.bytes@.len() == 32,
                rev@.len() == k,
                forall|j: int| 0 <= j < k ==> rev@[j] == self.bytes@[31 - j],
            decreases 32 - k,
        {
            rev.push(self.bytes[31 - k]);
            k = k + 1;
        }
        assert(rev@ =~= self@.reverse());
        hex_encode(rev.as_slice())
    }
}

/// An amount counted in satoshis.
pub struct Amount {
    sat: u64,
}

impl View for Amount {
    type V = u64;

    closed spec fn view(&self) -> u64 {
        self.sat
    }
}

impl Amount {
    pub fn from_sat(sat: u64) -> (r: Amount)
        ensures
            r@ == sat,
    {
        Amount { sat }
    }

    pub fn to_sat(&self) -> (r: u64)
        ensures
            r == self@,
    {
        self.sat
    }
}

/// A spent output: the transaction and index it comes from, the unlocking
/// script in lowercase hexadecimal, and the sequence number.
pub struct Input {
    pub txid: Txid,
    pub output_index: u32,
    pub script_sig: String,
    pub sequence: u32,
}

/// An amount and the locking script, in lowercase hexadecimal.
pub struct Output {
    pub amount: Amount,
    pub script_pubkey: String,
}

/// A decoded transaction.
pub struct Transaction {
    pub transaction_id: Txid,
    pub version: u32,
    pub inputs: Vec<Input>,
    pub outputs: Vec<Output>,
    pub lock_time: u32,
}

/// What an `Input` holds, with its strings and hash as sequences.
pub struct InputView {
    pub txid: Seq<u8>,
    pub output_index: u32,
    pub script_sig: Seq<char>,
    pub sequence: u32,
}

/// What an `Output` holds, with its script as a sequence of characters.
pub struct OutputView {
    pub amount: u64,
    pub script_pubkey: Seq<char>,
}

/// What a `Transaction` holds: identifier bytes, fields, and the views of
/// its inputs and outputs in order.
pub struct TransactionView {
    pub transaction_id: Seq<u8>,
    pub version: u32,
    pub inputs: Seq<InputView>,
    pub outputs: Seq<OutputView>,
    pub lock_time: u32,
}

impl View for Input {
    type V = InputView;

    open spec fn view(&self) -> InputView {
        InputView {
            txid: self.txid@,
            output_index: self.output_index,
            script_sig: self.script_sig@,
            sequence: self.sequence,
        }
    }
}

impl View for Output {
    type V = OutputView;

    open spec fn view(&self) -> OutputView {
        OutputView { amount: self.amount@, script_pubkey: self.script_pubkey@ }
    }
}

impl View for Transaction {
    type V = TransactionView;

    open spec fn view(&self) -> TransactionView {
        TransactionView {
            transaction_id: self.transaction_id@,
            version: self.version,
            inputs: self.inputs@.map_values(|i: Input| i@),
            outputs: self.outputs@.map_values(|o: Output| o@),
            lock_time: self.lock_time,
        }
    }
}

} // verus!
