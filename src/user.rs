//! The depositing user's side of a peg-in.
use vstd::prelude::*;

use bitcoin::script::PushBytes;
use bitcoin::ScriptBuf;

use crate::tx::{Input, Output, Tx, Utxo, SEQUENCE_MAX};

verus! {

/// `OP_RETURN`.
pub const OP_RETURN: u8 = 0x6a;

/// Fee, in sats, that a peg-in leaves to miners.
pub const PEG_IN_FEE: u64 = 600;

/// The routing payload of a peg-in, in ASCII:
/// `ethereum:0x0000000000000000000000000000000000000000:foobar`.
pub open spec fn peg_in_payload() -> Seq<u8> {
    seq![0x65u8, 0x74, 0x68, 0x65, 0x72, 0x65, 0x75, 0x6d, 0x3a, 0x30, 0x78] + Seq::new(40, |i: int| 0x30u8)
        + seq![0x3au8, 0x66, 0x6f, 0x6f, 0x62, 0x61, 0x72]
}

/// Relies on rust-bitcoin's `ScriptBuf::new_op_return`: `OP_RETURN` followed
/// by a direct push of `data`, whose length byte stands alone below 76.
#[verifier::external_body]
fn op_return_script(data: &Vec<u8>) -> (r: Vec<u8>)
    requires
        data@.len() < 76,
    ensures
        r@ == seq![OP_RETURN, data@.len() as u8] + data@,
{
    let push: &PushBytes = data.as_slice().try_into().expect("short data");
    ScriptBuf::new_op_return(push).into_bytes()
}

/// The peg-in's metadata output script: `OP_RETURN` with the routing payload.
pub fn create_op_return() -> (r: Vec<u8>)
    ensures
        r@ == seq![OP_RETURN, 58u8] + peg_in_payload(),
{
    let mut data: Vec<u8> = Vec::new();
    data.push(0x65);
    data.push(0x74);
    data.push(0x68);
    data.push(0x65);
    data.push(0x72);
    data.push(0x65);
    data.push(0x75);
    data.push(0x6d);
    data.push(0x3a);
    data.push(0x30);
    data.push(0x78);
    let mut i: usize = 0;
    while i < 40
        invariant
            i <= 40,
            data@ == seq![0x65u8, 0x74, 0x68, 0x65, 0x72, 0x65, 0x75, 0x6d, 0x3a, 0x30, 0x78] + Seq::new(
                i as nat,
                |k: int| 0x30u8,
            ),
        decreases 40 - i,
    {
        data.push(0x30);
        i = i + 1;
        assert(data@ =~= seq![0x65u8, 0x74, 0x68, 0x65, 0x72, 0x65, 0x75, 0x6d, 0x3a, 0x30, 0x78] + Seq::new(
            i as nat,
            |k: int| 0x30u8,
        ));
    }
    data.push(0x3a);
    data.push(0x66);
    data.push(0x6f);
    data.push(0x6f);
    data.push(0x62);
    data.push(0x61);
    data.push(0x72);
    assert(data@ =~= peg_in_payload());
    op_return_script(&data)
}

/// A user depositing into the federation.
pub struct User;

impl User {
    /// The unsigned deposit: spends `input` whole into two equal outputs to
    /// the committee's `script_pubkey`, less `PEG_IN_FEE` in all, and an
    /// `OP_RETURN` output carrying the routing payload.
    pub fn peg_in(input: Utxo, script_pubkey: &Vec<u8>) -> (r: Tx)
        requires
            input.txout.value / 2 >= PEG_IN_FEE / 2,
        ensures
            r.version == 2,
            r.lock_time == 0,
            r.input@.len() == 1,
            r.input@[0].previous_output == input.outpoint,
            r.input@[0].sequence == SEQUENCE_MAX,
            r.input@[0].witness@.len() == 0,
            r.output@.len() == 3,
            r.output@[0]@ == ((input.txout.value / 2 - PEG_IN_FEE / 2) as u64, script_pubkey@),
            r.output@[1]@ == ((input.txout.value / 2 - PEG_IN_FEE / 2) as u64, script_pubkey@),
            r.output@[2]@ == (0u64, seq![OP_RETURN, 58u8] + peg_in_payload()),
    {
        let amount_per_output = input.txout.value / 2 - PEG_IN_FEE / 2;
        let mut output: Vec<Output> = Vec::new();
        output.push(Output { value: amount_per_output, script_pubkey: script_pubkey.clone() });
        output.push(Output { value: amount_per_output, script_pubkey: script_pubkey.clone() });
        output.push(Output { value: 0, script_pubkey: create_op_return() });
        let mut input_list: Vec<Input> = Vec::new();
        input_list.push(Input::unsigned(input.outpoint));
        Tx { version: 2, lock_time: 0, input: input_list, output }
    }
}

} // verus!
