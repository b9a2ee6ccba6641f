//! Bitcoin-side federation engine: a weighted-threshold Taproot committee
//! script, committee-weight calibration, transaction planning for peg-out and
//! handover, sighash computation and witness assembly.
use vstd::prelude::*;

pub mod interp;
pub mod multisig_prover;
pub mod script;
pub mod sighash;
pub mod taproot;
pub mod tx;
pub mod user;
pub mod validator;
pub mod witness;

pub use crate::tx::Utxo;
pub use crate::user::create_op_return;
pub use crate::validator::{collect_signatures, get_multisig_setup, get_private_key};

verus! {

/// Size in bytes of a BIP-340 Schnorr signature.
pub const SIG_SIZE: usize = 64;

/// Script bytes of a committee input besides the signatures.
pub const REST_SCRIPT_SIZE: usize = 42;

/// Per-input serialization overhead of a committee input.
pub const FIXED_INPUT_OVERHEAD: usize = 42;

/// Largest integer that Script arithmetic accepts (2^31 - 1).
pub const MAX_BTC_INT: i64 = 0x7fffffff;

/// Upper bound on the size of a committee input signed by `sigs` members.
pub open spec fn input_size(sigs: int) -> int {
    SIG_SIZE * sigs + REST_SCRIPT_SIZE + FIXED_INPUT_OVERHEAD
}

/// Estimated size of a handover input carrying `sigs` signatures.
pub fn handover_input_size(sigs: usize) -> (r: usize)
    requires
        input_size(sigs as int) <= usize::MAX,
    ensures
        r == input_size(sigs as int),
{
    SIG_SIZE * sigs + REST_SCRIPT_SIZE + FIXED_INPUT_OVERHEAD
}

/// Whether the node's mempool test admitted every candidate transaction;
/// the round is submitted only then.
pub fn all_admitted(allowed: &Vec<bool>) -> (r: bool)
    ensures
        r == forall|i: int| 0 <= i < allowed@.len() ==> allowed@[i],
{
    let mut i: usize = 0;
    while i < allowed.len()
        invariant
            i <= allowed@.len(),
            forall|k: int| 0 <= k < i ==> allowed@[k],
        decreases allowed@.len() - i,
    {
        if !allowed[i] {
            return false;
        }
        i = i + 1;
    }
    true
}

} // verus!
