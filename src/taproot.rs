//! Taproot commitment of the committee script: the unspendable internal key,
//! the P2TR output and the control block.
use vstd::prelude::*;

use bitcoin::key::{Parity, Secp256k1, XOnlyPublicKey};
use bitcoin::taproot::TaprootSpendInfo;
use bitcoin::ScriptBuf;

use crate::script::{committee_script, committee_script_bytes, CommitteeSpec};

verus! {

/// The generator's x-coordinate without its last eight bytes.
pub open spec fn gx_prefix() -> Seq<u8> {
    seq![
        0x79u8, 0xbe, 0x66, 0x7e, 0xf9, 0xdc, 0xbb, 0xac,
        0x55, 0xa0, 0x62, 0x95, 0xce, 0x87, 0x0b, 0x07,
        0x02, 0x9b, 0xfc, 0xdb, 0x2d, 0xce, 0x28, 0xd9,
    ]
}

/// The last eight bytes of the generator's x-coordinate, as a number.
pub const GX_LOW: u64 = 0x59f2815b16f81798;

/// Big-endian bytes of `v`.
pub open spec fn u64_be(v: u64) -> Seq<u8> {
    seq![
        (v / 0x100000000000000) as u8,
        ((v / 0x1000000000000) % 256) as u8,
        ((v / 0x10000000000) % 256) as u8,
        ((v / 0x100000000) % 256) as u8,
        ((v / 0x1000000) % 256) as u8,
        ((v / 0x10000) % 256) as u8,
        ((v / 0x100) % 256) as u8,
        (v % 256) as u8,
    ]
}

/// The generator's x-coordinate plus `k`, for `k` that leaves the top 24
/// bytes unchanged.
pub open spec fn unspendable_candidate(k: int) -> Seq<u8> {
    gx_prefix() + u64_be((GX_LOW + k) as u64)
}

/// Whether 32 bytes are the x-coordinate of a point of secp256k1.
pub uninterp spec fn is_xonly_point(x: Seq<u8>) -> bool;

/// The BIP-341 output key of a tree with the single TapScript leaf `leaf`
/// over the internal key `internal`, and whether its y-coordinate is odd.
pub uninterp spec fn taproot_output_of(internal: Seq<u8>, leaf: Seq<u8>) -> (Seq<u8>, bool);

/// Relies on secp256k1's `XOnlyPublicKey::from_slice`, which accepts 32
/// bytes exactly when they are the x-coordinate of a curve point.
#[verifier::external_body]
fn xonly_point_check(x: &[u8; 32]) -> (r: bool)
    ensures
        r == is_xonly_point(x@),
{
    XOnlyPublicKey::from_slice(x).is_ok()
}

/// Relies on rust-bitcoin's `TaprootSpendInfo::with_huffman_tree` on one
/// TapScript leaf: the tweaked output key and its parity. (The tweak fails
/// only on a hash collision with the group order, which the crate treats as
/// impossible.)
#[verifier::external_body]
fn taproot_output(internal: &[u8; 32], leaf: &Vec<u8>) -> (r: ([u8; 32], bool))
    requires
        is_xonly_point(internal@),
    ensures
        (r.0@, r.1) == taproot_output_of(internal@, leaf@),
{
    let secp = Secp256k1::verification_only();
    let key = XOnlyPublicKey::from_slice(internal).expect("a curve point");
    let leaves = [(1u32, ScriptBuf::from_bytes(leaf.clone()))];
    let info = TaprootSpendInfo::with_huffman_tree(&secp, key, leaves).expect("one leaf");
    (info.output_key().serialize(), info.output_key_parity() == Parity::Odd)
}

/// Why no committee script could be built.
#[derive(Clone, Copy, Debug, PartialEq, Eq)]
pub enum ScriptError {
    /// No increment of the generator's x-coordinate gave a curve point.
    NoUnspendableKey,
}

fn gx_candidate(low: u64) -> (r: [u8; 32])
    ensures
        r@ == gx_prefix() + u64_be(low),
{
    let r: [u8; 32] = [
        0x79, 0xbe, 0x66, 0x7e, 0xf9, 0xdc, 0xbb, 0xac,
        0x55, 0xa0, 0x62, 0x95, 0xce, 0x87, 0x0b, 0x07,
        0x02, 0x9b, 0xfc, 0xdb, 0x2d, 0xce, 0x28, 0xd9,
        (low / 0x100000000000000) as u8,
        ((low / 0x1000000000000) % 256) as u8,
        ((low / 0x10000000000) % 256) as u8,
        ((low / 0x100000000) % 256) as u8,
        ((low / 0x1000000) % 256) as u8,
        ((low / 0x10000) % 256) as u8,
        ((low / 0x100) % 256) as u8,
        (low % 256) as u8,
    ];
    assert(r@ =~= gx_prefix() + u64_be(low));
    r
}

/// The first increment of the generator's x-coordinate that is a curve point.
pub open spec fn is_unspendable_key(key: Seq<u8>) -> bool {
    exists|k: int|
        1 <= k <= u64::MAX - GX_LOW && key == unspendable_candidate(k) && is_xonly_point(unspendable_candidate(k))
            && forall|j: int| 1 <= j < k ==> !is_xonly_point(#[trigger] unspendable_candidate(j))
}

/// A nothing-up-my-sleeve internal key: the generator's x-coordinate,
/// incremented by one until it is the x-coordinate of a curve point. Nobody
/// knows its discrete logarithm, so no key-path spend exists.
pub fn create_unspendable_key() -> (r: Result<[u8; 32], ScriptError>)
    ensures
        match r {
            Ok(key) => is_unspendable_key(key@),
            Err(e) => e == ScriptError::NoUnspendableKey && forall|j: int|
                1 <= j <= u64::MAX - GX_LOW ==> !is_xonly_point(#[trigger] unspendable_candidate(j)),
        },
{
    let mut low: u64 = GX_LOW;
    while low < u64::MAX
        invariant
            GX_LOW <= low,
            forall|j: int| 1 <= j <= low - GX_LOW ==> !is_xonly_point(#[trigger] unspendable_candidate(j)),
        decreases u64::MAX - low,
    {
        low = low + 1;
        let key = gx_candidate(low);
        let ghost k = low - GX_LOW;
        assert(key@ == unspendable_candidate(k));
        if xonly_point_check(&key) {
            return Ok(key);
        }
    }
    Err(ScriptError::NoUnspendableKey)
}

/// The P2TR script-pubkey of an output key: `OP_1 <32-byte key>`.
pub open spec fn p2tr_script_pubkey(output_key: Seq<u8>) -> Seq<u8> {
    seq![0x51u8, 0x20] + output_key
}

/// The control block of a single-leaf tree: the TapScript leaf version with
/// the output key's parity, then the internal key.
pub open spec fn control_block_bytes(internal: Seq<u8>, parity: bool) -> Seq<u8> {
    seq![if parity { 0xc1u8 } else { 0xc0u8 }] + internal
}

/// The P2TR script-pubkey that commits to a committee's script.
pub open spec fn committee_p2tr(members: Seq<([u8; 32], i64)>, threshold: int, internal: Seq<u8>) -> Seq<u8> {
    p2tr_script_pubkey(taproot_output_of(internal, committee_script_bytes(members, threshold)).0)
}

/// A committee script with everything needed to pay to it and spend from it.
pub struct CommitteeScript {
    pub script: Vec<u8>,
    pub script_pubkey: Vec<u8>,
    pub internal_key: [u8; 32],
    pub control_block: Vec<u8>,
}

/// Builds the committee's Tapscript and the P2TR output that commits to it
/// as the only leaf over `internal_key`.
pub fn create_committee_script(spec: &CommitteeSpec, internal_key: &[u8; 32]) -> (r: CommitteeScript)
    requires
        spec.wf(),
        is_xonly_point(internal_key@),
    ensures
        r.script@ == committee_script_bytes(spec.members@, spec.threshold as int),
        r.script_pubkey@ == committee_p2tr(spec.members@, spec.threshold as int, internal_key@),
        r.internal_key == *internal_key,
        r.control_block@ == control_block_bytes(internal_key@, taproot_output_of(internal_key@, r.script@).1),
{
    let script = committee_script(spec);
    let (output_key, parity) = taproot_output(internal_key, &script);
    let mut script_pubkey: Vec<u8> = Vec::new();
    script_pubkey.push(0x51);
    script_pubkey.push(0x20);
    let mut control_block: Vec<u8> = Vec::new();
    control_block.push(if parity { 0xc1 } else { 0xc0 });
    let mut i: usize = 0;
    while i < 32
        invariant
            i <= 32,
            script_pubkey@ == seq![0x51u8, 0x20] + output_key@.subrange(0, i as int),
            control_block@ == seq![if parity { 0xc1u8 } else { 0xc0u8 }] + internal_key@.subrange(0, i as int),
        decreases 32 - i,
    {
        script_pubkey.push(output_key[i]);
        control_block.push(internal_key[i]);
        proof {
            assert(output_key@.subrange(0, i + 1) =~= output_key@.subrange(0, i as int).push(output_key@[i as int]));
            assert(internal_key@.subrange(0, i + 1) =~= internal_key@.subrange(0, i as int).push(internal_key@[i as int]));
        }
        i = i + 1;
    }
    assert(output_key@.subrange(0, 32) =~= output_key@);
    assert(internal_key@.subrange(0, 32) =~= internal_key@);
    CommitteeScript { script, script_pubkey, internal_key: *internal_key, control_block }
}

/// The committee's script and P2TR output over the unspendable internal key
/// of `create_unspendable_key`.
pub fn create_committee(spec: &CommitteeSpec) -> (r: Result<CommitteeScript, ScriptError>)
    requires
        spec.wf(),
    ensures
        match r {
            Ok(c) => {
                &&& is_unspendable_key(c.internal_key@)
                &&& c.script@ == committee_script_bytes(spec.members@, spec.threshold as int)
                &&& c.script_pubkey@ == committee_p2tr(spec.members@, spec.threshold as int, c.internal_key@)
                &&& c.control_block@ == control_block_bytes(
                    c.internal_key@,
                    taproot_output_of(c.internal_key@, c.script@).1,
                )
            },
            Err(e) => e == ScriptError::NoUnspendableKey && forall|j: int|
                1 <= j <= u64::MAX - GX_LOW ==> !is_xonly_point(#[trigger] unspendable_candidate(j)),
        },
{
    let key = match create_unspendable_key() {
        Ok(k) => k,
        Err(e) => {
            return Err(e);
        },
    };
    Ok(create_committee_script(spec, &key))
}

/// The committee script and its P2TR output are functions of the committee
/// and the internal key: equal committees give equal bytes and equal outputs.
pub proof fn lemma_committee_script_pure(a: CommitteeSpec, b: CommitteeSpec, key_a: Seq<u8>, key_b: Seq<u8>)
    requires
        a.members@ == b.members@,
        a.threshold == b.threshold,
        key_a == key_b,
    ensures
        committee_script_bytes(a.members@, a.threshold as int) == committee_script_bytes(
            b.members@,
            b.threshold as int,
        ),
        committee_p2tr(a.members@, a.threshold as int, key_a) == committee_p2tr(
            b.members@,
            b.threshold as int,
            key_b,
        ),
{
}

} // verus!
