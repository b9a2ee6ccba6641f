//! Witness assembly for committee-signed transactions.
use vstd::prelude::*;

use crate::interp::{committee_witness, sig_element};
use crate::taproot::CommitteeScript;
use crate::tx::{Input, Tx};

verus! {

/// Views of the elements of a witness.
pub open spec fn witness_view(w: Seq<Vec<u8>>) -> Seq<Seq<u8>> {
    w.map_values(|e: Vec<u8>| e@)
}

fn sig_bytes(sig: &Option<[u8; 64]>) -> (r: Vec<u8>)
    ensures
        r@ == sig_element(*sig),
{
    let mut r: Vec<u8> = Vec::new();
    if let Some(s) = sig {
        let mut i: usize = 0;
        while i < 64
            invariant
                i <= 64,
                r@ == s@.subrange(0, i as int),
            decreases 64 - i,
        {
            r.push(s[i]);
            proof {
                assert(s@.subrange(0, i + 1) =~= s@.subrange(0, i as int).push(s@[i as int]));
            }
            i = i + 1;
        }
        assert(s@.subrange(0, 64) =~= s@);
    }
    r
}

/// The witness of one committee input: each member's signature or an empty
/// element, in reverse committee order, then the script and the control block.
fn committee_input_witness(sigs: &Vec<Option<[u8; 64]>>, committee: &CommitteeScript) -> (r: Vec<Vec<u8>>)
    ensures
        witness_view(r@) == committee_witness(sigs@, committee.script@, committee.control_block@),
{
    let mut r: Vec<Vec<u8>> = Vec::new();
    let n = sigs.len();
    let mut q: usize = 0;
    while q < n
        invariant
            n == sigs@.len(),
            q <= n,
            r@.len() == q,
            forall|k: int| 0 <= k < q ==> (#[trigger] r@[k])@ == sig_element(sigs@[n - 1 - k]),
        decreases n - q,
    {
        r.push(sig_bytes(&sigs[n - 1 - q]));
        q = q + 1;
    }
    r.push(committee.script.clone());
    r.push(committee.control_block.clone());
    assert(witness_view(r@) =~= committee_witness(sigs@, committee.script@, committee.control_block@));
    r
}

/// Fills in the witness of every input from its row of the signature matrix:
/// per input, the signatures in reverse committee order with an empty element
/// for each absent one, the committee script, and the control block. The
/// rest of the transaction is kept.
pub fn finalize_tx_witness(tx: Tx, signatures: &Vec<Vec<Option<[u8; 64]>>>, committee: &CommitteeScript) -> (r: Tx)
    requires
        signatures@.len() == tx.input@.len(),
    ensures
        r.version == tx.version,
        r.lock_time == tx.lock_time,
        r.output@ == tx.output@,
        r.input@.len() == tx.input@.len(),
        forall|i: int|
            0 <= i < r.input@.len() ==> {
                &&& (#[trigger] r.input@[i]).previous_output == tx.input@[i].previous_output
                &&& r.input@[i].sequence == tx.input@[i].sequence
                &&& witness_view(r.input@[i].witness@) == committee_witness(
                    signatures@[i]@,
                    committee.script@,
                    committee.control_block@,
                )
            },
{
    let mut input: Vec<Input> = Vec::new();
    let mut i: usize = 0;
    while i < tx.input.len()
        invariant
            signatures@.len() == tx.input@.len(),
            i <= tx.input@.len(),
            input@.len() == i,
            forall|k: int|
                0 <= k < i ==> {
                    &&& (#[trigger] input@[k]).previous_output == tx.input@[k].previous_output
                    &&& input@[k].sequence == tx.input@[k].sequence
                    &&& witness_view(input@[k].witness@) == committee_witness(
                        signatures@[k]@,
                        committee.script@,
                        committee.control_block@,
                    )
                },
        decreases tx.input@.len() - i,
    {
        let witness = committee_input_witness(&signatures[i], committee);
        input.push(Input { previous_output: tx.input[i].previous_output, sequence: tx.input[i].sequence, witness });
        i = i + 1;
    }
    Tx { version: tx.version, lock_time: tx.lock_time, input, output: tx.output }
}

} // verus!
