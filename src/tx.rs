//! Plain-value model of Bitcoin transactions.
use vstd::prelude::*;

verus! {

/// A reference to an output of an earlier transaction.
#[derive(Clone, Copy, Debug, PartialEq, Eq)]
pub struct OutPoint {
    pub txid: [u8; 32],
    pub vout: u32,
}

/// A transaction output: an amount in satoshis and its locking script.
#[derive(Clone, Debug, PartialEq, Eq)]
pub struct Output {
    pub value: u64,
    pub script_pubkey: Vec<u8>,
}

/// A transaction input with an empty script_sig.
#[derive(Clone, Debug, PartialEq, Eq)]
pub struct Input {
    pub previous_output: OutPoint,
    pub sequence: u32,
    pub witness: Vec<Vec<u8>>,
}

/// A transaction.
#[derive(Clone, Debug, PartialEq, Eq)]
pub struct Tx {
    pub version: i32,
    pub lock_time: u32,
    pub input: Vec<Input>,
    pub output: Vec<Output>,
}

/// A spendable output: where it is and what it holds.
#[derive(Clone, Debug, PartialEq, Eq)]
pub struct Utxo {
    pub outpoint: OutPoint,
    pub txout: Output,
}

/// The sequence number that disables relative lock time.
pub const SEQUENCE_MAX: u32 = 0xffffffff;

impl View for OutPoint {
    type V = (Seq<u8>, u32);

    open spec fn view(&self) -> (Seq<u8>, u32) {
        (self.txid@, self.vout)
    }
}

impl View for Output {
    type V = (u64, Seq<u8>);

    open spec fn view(&self) -> (u64, Seq<u8>) {
        (self.value, self.script_pubkey@)
    }
}

impl View for Input {
    type V = ((Seq<u8>, u32), u32, Seq<Seq<u8>>);

    open spec fn view(&self) -> ((Seq<u8>, u32), u32, Seq<Seq<u8>>) {
        (self.previous_output@, self.sequence, self.witness@.map_values(|w: Vec<u8>| w@))
    }
}

impl View for Tx {
    type V = (i32, u32, Seq<((Seq<u8>, u32), u32, Seq<Seq<u8>>)>, Seq<(u64, Seq<u8>)>);

    open spec fn view(&self) -> Self::V {
        (
            self.version,
            self.lock_time,
            self.input@.map_values(|i: Input| i@),
            self.output@.map_values(|o: Output| o@),
        )
    }
}

impl Output {
    /// A copy of this output.
    pub fn duplicate(&self) -> (r: Output)
        ensures
            r@ == self@,
    {
        Output { value: self.value, script_pubkey: self.script_pubkey.clone() }
    }
}

impl Input {
    /// An input that spends `previous_output`, with no witness yet.
    pub fn unsigned(previous_output: OutPoint) -> (r: Input)
        ensures
            r.previous_output == previous_output,
            r.sequence == SEQUENCE_MAX,
            r.witness@.len() == 0,
    {
        Input { previous_output, sequence: SEQUENCE_MAX, witness: Vec::new() }
    }
}

impl Utxo {
    /// A copy of this UTXO.
    pub fn duplicate(&self) -> (r: Utxo)
        ensures
            r.outpoint == self.outpoint,
            r.txout@ == self.txout@,
    {
        Utxo { outpoint: self.outpoint, txout: self.txout.duplicate() }
    }
}

} // verus!
