//! Taproot script-path sighashes of a transaction's inputs.
use vstd::prelude::*;

use bitcoin::absolute::LockTime;
use bitcoin::sighash::{Prevouts, SighashCache};
use bitcoin::taproot::{LeafVersion, TapLeafHash};
use bitcoin::transaction::Version;
use bitcoin::{Amount, Script, ScriptBuf, Sequence, TapSighashType, Txid, Witness};

use crate::tx::{Output, Tx};

verus! {

#[verifier::external_type_specification]
#[verifier::external_body]
pub struct ExBitcoinTransaction(bitcoin::Transaction);

#[verifier::external_type_specification]
#[verifier::external_body]
pub struct ExBitcoinTxOut(bitcoin::TxOut);

/// The BIP-341 script-path sighash (hash type "default", full previous-outputs
/// commitment) of input `index` of `tx`, spending the TapScript leaf `leaf`.
pub uninterp spec fn tap_sighash_of(
    tx: <Tx as View>::V,
    prevouts: Seq<(u64, Seq<u8>)>,
    leaf: Seq<u8>,
    index: int,
) -> Seq<u8>;

/// Views of a sequence of outputs.
pub open spec fn txouts_view(s: Seq<Output>) -> Seq<(u64, Seq<u8>)> {
    s.map_values(|o: Output| o@)
}

/// The sighashes of every input of `tx`, in input order.
pub open spec fn sighashes_of(
    tx: <Tx as View>::V,
    prevouts: Seq<(u64, Seq<u8>)>,
    leaf: Seq<u8>,
) -> Seq<Seq<u8>> {
    Seq::new(tx.2.len(), |i: int| tap_sighash_of(tx, prevouts, leaf, i))
}

/// Converts an output to rust-bitcoin's type.
#[verifier::external_body]
fn bitcoin_txout(o: &Output) -> bitcoin::TxOut {
    bitcoin::TxOut {
        value: Amount::from_sat(o.value),
        script_pubkey: ScriptBuf::from_bytes(o.script_pubkey.clone()),
    }
}

/// Converts a transaction to rust-bitcoin's type.
#[verifier::external_body]
fn bitcoin_tx(tx: &Tx) -> bitcoin::Transaction {
    let input = tx.input.iter().map(|i| bitcoin::TxIn {
        previous_output: bitcoin::OutPoint::new(<Txid as bitcoin_hashes::Hash>::from_byte_array(i.previous_output.txid), i.previous_output.vout),
        script_sig: ScriptBuf::new(),
        sequence: Sequence(i.sequence),
        witness: Witness::from_slice(&i.witness),
    });
    let output = tx.output.iter().map(bitcoin_txout);
    bitcoin::Transaction { version: Version(tx.version), lock_time: LockTime::from_consensus(tx.lock_time), input: input.collect(), output: output.collect() }
}

/// Relies on rust-bitcoin's `SighashCache::taproot_script_spend_signature_hash`,
/// which fails only when the previous outputs do not match the inputs one for
/// one or the index is out of range.
#[verifier::external_body]
fn script_spend_sighash(tx: &Tx, prevouts: &Vec<Output>, leaf: &Vec<u8>, index: usize) -> (r: [u8; 32])
    requires
        prevouts@.len() == tx.input@.len(),
        index < tx.input@.len(),
    ensures
        r@ == tap_sighash_of(tx@, txouts_view(prevouts@), leaf@, index as int),
{
    let t = bitcoin_tx(tx);
    let p: Vec<bitcoin::TxOut> = prevouts.iter().map(bitcoin_txout).collect();
    let leaf_hash = TapLeafHash::from_script(Script::from_bytes(leaf), LeafVersion::TapScript);
    let mut cache = SighashCache::new(&t);
    let h = cache.taproot_script_spend_signature_hash(index, &Prevouts::All(&p), leaf_hash, TapSighashType::Default);
    bitcoin_hashes::Hash::to_byte_array(h.expect("one previous output per input"))
}

/// The script-path sighash of every input of `tx` for the committee script
/// `script`, one per input and in input order.
pub fn taproot_sighashes(tx: &Tx, prevouts: &Vec<Output>, script: &Vec<u8>) -> (r: Vec<[u8; 32]>)
    requires
        prevouts@.len() == tx.input@.len(),
    ensures
        r@.len() == tx.input@.len(),
        r@.map_values(|h: [u8; 32]| h@) == sighashes_of(tx@, txouts_view(prevouts@), script@),
{
    let mut r: Vec<[u8; 32]> = Vec::new();
    let mut i: usize = 0;
    while i < tx.input.len()
        invariant
            prevouts@.len() == tx.input@.len(),
            i <= tx.input@.len(),
            r@.len() == i,
            forall|k: int|
                0 <= k < i ==> (#[trigger] r@[k])@ == tap_sighash_of(tx@, txouts_view(prevouts@), script@, k),
        decreases tx.input@.len() - i,
    {
        r.push(script_spend_sighash(tx, prevouts, script, i));
        i = i + 1;
    }
    assert(r@.map_values(|h: [u8; 32]| h@) =~= sighashes_of(tx@, txouts_view(prevouts@), script@));
    r
}

/// Sighashes depend on the transaction, the previous outputs and the script
/// alone: equal arguments give equal sighashes, one per input.
pub proof fn lemma_sighashes_deterministic(
    tx1: Tx,
    tx2: Tx,
    prevouts1: Seq<Output>,
    prevouts2: Seq<Output>,
    script1: Seq<u8>,
    script2: Seq<u8>,
)
    requires
        tx1@ == tx2@,
        txouts_view(prevouts1) == txouts_view(prevouts2),
        script1 == script2,
    ensures
        sighashes_of(tx1@, txouts_view(prevouts1), script1) == sighashes_of(
            tx2@,
            txouts_view(prevouts2),
            script2,
        ),
        sighashes_of(tx1@, txouts_view(prevouts1), script1).len() == tx1.input@.len(),
{
}

} // verus!
