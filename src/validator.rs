//! Committee members: their weights, keys and signatures, and the
//! calibration of raw voting power into Script-sized weights.
use vstd::arithmetic::div_mod::lemma_div_denominator;
use vstd::arithmetic::power2::{lemma_pow2_pos, lemma_pow2_unfold, pow2};
use vstd::prelude::*;

use bitcoin::bip32::Xpriv;
use bitcoin::key::Secp256k1;
use bitcoin::secp256k1::Message;
use bitcoin::Network;

use crate::interp::{
    committee_witness, evaluate, lemma_committee_outcome, lemma_full_committee_accepts, present_sigs_valid,
    present_weight, ScriptOutcome,
};
use crate::script::{committee_ops, weight_sum};
use crate::MAX_BTC_INT;

verus! {

#[verifier::external_type_specification]
#[verifier::external_body]
pub struct ExXpriv(bitcoin::bip32::Xpriv);

#[verifier::external_type_specification]
#[verifier::external_body]
pub struct ExNetwork(bitcoin::Network);

/// A committee member: its operator identity, its weight, and its signing key
/// once one has been assigned.
pub struct Validator {
    pub operator_address: String,
    pub weight: i64,
    pub key: Option<Xpriv>,
}

/// The x-only public key of a private key.
pub uninterp spec fn xonly_of(key: Xpriv) -> Seq<u8>;

/// Whether `sig` is a valid BIP-340 signature of the 32-byte `msg` under the
/// x-only public key `pk`.
pub uninterp spec fn bip340_valid(pk: Seq<u8>, msg: Seq<u8>, sig: Seq<u8>) -> bool;

/// The BIP-32 master key of a seed on a network, where the seed's hash is a
/// valid key.
pub uninterp spec fn master_key_of(network: Network, seed: Seq<u8>) -> Option<Xpriv>;

/// Relies on rust-bitcoin's `Xpriv::to_keypair` and secp256k1's
/// `Keypair::x_only_public_key`: the x-only public key of a private key.
#[verifier::external_body]
fn xonly_public_key(key: &Xpriv) -> (r: [u8; 32])
    ensures
        r@ == xonly_of(*key),
{
    let secp = Secp256k1::signing_only();
    key.to_keypair(&secp).x_only_public_key().0.serialize()
}

/// Relies on secp256k1's `Secp256k1::sign_schnorr`: a BIP-340 signature of the
/// 32-byte message under the key's x-only public key, made with fresh
/// auxiliary randomness (so only its validity is stated).
#[verifier::external_body]
fn schnorr_sign(key: &Xpriv, msg: &[u8; 32]) -> (r: [u8; 64])
    ensures
        bip340_valid(xonly_of(*key), msg@, r@),
{
    let secp = Secp256k1::new();
    secp.sign_schnorr(&Message::from_digest(*msg), &key.to_keypair(&secp)).serialize()
}

/// Relies on rust-bitcoin's `Xpriv::new_master`: the BIP-32 master key of a
/// one-byte seed, or `None` where the seed's hash is no valid key.
#[verifier::external_body]
fn new_master(network: Network, seed: u8) -> (r: Option<Xpriv>)
    ensures
        r == master_key_of(network, seq![seed]),
{
    Xpriv::new_master(network, &[seed]).ok()
}

/// The master key derived from the one-byte seed `seed`.
pub fn get_private_key(seed: usize, network: Network) -> (r: Option<Xpriv>)
    requires
        seed < 256,
    ensures
        r == master_key_of(network, seq![seed as u8]),
{
    new_master(network, seed as u8)
}

impl Validator {
    /// The member's x-only public key.
    pub fn public_key(&self) -> (r: [u8; 32])
        requires
            self.key.is_some(),
        ensures
            r@ == xonly_of(self.key.unwrap()),
    {
        match &self.key {
            Some(k) => xonly_public_key(k),
            None => [0u8; 32],
        }
    }

    /// Signs `sighash` with the member's key, whatever it is: the member
    /// trusts whoever asks. The signature carries the default sighash flag,
    /// so it is 64 bytes with no type byte.
    pub fn sign_sighash(&self, sighash: &[u8; 32]) -> (r: [u8; 64])
        requires
            self.key.is_some(),
        ensures
            bip340_valid(xonly_of(self.key.unwrap()), sighash@, r@),
    {
        match &self.key {
            Some(k) => schnorr_sign(k, sighash),
            None => [0u8; 64],
        }
    }
}

/// Row `i` of a signature matrix holds, for each member in committee order, a
/// valid signature of `sighashes[i]` under that member's key.
pub open spec fn signed_by_all(sigs: Seq<Option<[u8; 64]>>, validators: Seq<Validator>, sighash: Seq<u8>) -> bool {
    &&& sigs.len() == validators.len()
    &&& forall|j: int|
        0 <= j < validators.len() ==> (#[trigger] sigs[j]).is_some() && bip340_valid(
            xonly_of(validators[j].key.unwrap()),
            sighash,
            sigs[j].unwrap()@,
        )
}

/// For every input's sighash, a signature from each member in committee
/// order; a member that does not sign is `None`.
pub fn collect_signatures(sighashes: &Vec<[u8; 32]>, validators: &Vec<Validator>) -> (r: Vec<
    Vec<Option<[u8; 64]>>,
>)
    requires
        forall|i: int| 0 <= i < validators@.len() ==> (#[trigger] validators@[i]).key.is_some(),
    ensures
        r@.len() == sighashes@.len(),
        forall|i: int| 0 <= i < r@.len() ==> signed_by_all((#[trigger] r@[i])@, validators@, sighashes@[i]@),
{
    let mut r: Vec<Vec<Option<[u8; 64]>>> = Vec::new();
    let mut i: usize = 0;
    while i < sighashes.len()
        invariant
            i <= sighashes@.len(),
            r@.len() == i,
            forall|v: int| 0 <= v < validators@.len() ==> (#[trigger] validators@[v]).key.is_some(),
            forall|q: int| 0 <= q < i ==> signed_by_all((#[trigger] r@[q])@, validators@, sighashes@[q]@),
        decreases sighashes@.len() - i,
    {
        let mut row: Vec<Option<[u8; 64]>> = Vec::new();
        let mut j: usize = 0;
        while j < validators.len()
            invariant
                i < sighashes@.len(),
                j <= validators@.len(),
                row@.len() == j,
                forall|v: int| 0 <= v < validators@.len() ==> (#[trigger] validators@[v]).key.is_some(),
                forall|q: int|
                    0 <= q < j ==> (#[trigger] row@[q]).is_some() && bip340_valid(
                        xonly_of(validators@[q].key.unwrap()),
                        sighashes@[i as int]@,
                        row@[q].unwrap()@,
                    ),
            decreases validators@.len() - j,
        {
            assert(validators@[j as int].key.is_some());
            row.push(Some(validators[j].sign_sighash(&sighashes[i])));
            j = j + 1;
        }
        r.push(row);
        i = i + 1;
    }
    r
}

/// Weights of the members, in order.
pub open spec fn weights_of(vs: Seq<Validator>) -> Seq<int> {
    vs.map_values(|v: Validator| v.weight as int)
}

/// Sum of a sequence of integers.
pub open spec fn seq_sum(s: Seq<int>) -> int
    decreases s.len(),
{
    if s.len() == 0 {
        0
    } else {
        seq_sum(s.drop_last()) + s.last()
    }
}

/// The weights after `k` right shifts.
pub open spec fn shifted(ws: Seq<int>, k: nat) -> Seq<int> {
    ws.map_values(|w: int| w / (pow2(k) as int))
}

/// Two thirds of `s`, rounded as the calibration rounds: `s / 3 * 2`.
pub open spec fn two_thirds(s: int) -> int {
    s / 3 * 2
}

/// The threshold after `k` right shifts of the raw weights `ws`.
pub open spec fn calibration_threshold(ws: Seq<int>, k: nat) -> int {
    two_thirds(seq_sum(shifted(ws, k)))
}

/// The members are the same, but for their weights, which are `ws`.
pub open spec fn same_members(before: Seq<Validator>, after: Seq<Validator>, ws: Seq<int>) -> bool {
    &&& after.len() == before.len()
    &&& weights_of(after) == ws
    &&& forall|i: int|
        0 <= i < after.len() ==> (#[trigger] after[i]).operator_address == before[i].operator_address
            && after[i].key == before[i].key
}

proof fn lemma_seq_sum_push(s: Seq<int>, i: int)
    requires
        0 <= i < s.len(),
    ensures
        seq_sum(s.subrange(0, i + 1)) == seq_sum(s.subrange(0, i)) + s[i],
{
    assert(s.subrange(0, i + 1).drop_last() =~= s.subrange(0, i));
}

proof fn lemma_seq_sum_prefix_le(s: Seq<int>, i: int)
    requires
        0 <= i <= s.len(),
        forall|q: int| 0 <= q < s.len() ==> #[trigger] s[q] >= 0,
    ensures
        seq_sum(s.subrange(0, i)) <= seq_sum(s),
        seq_sum(s.subrange(0, i)) >= 0,
    decreases s.len(),
{
    if s.len() > 0 {
        let t = s.drop_last();
        assert forall|q: int| 0 <= q < t.len() implies #[trigger] t[q] >= 0 by {
            assert(t[q] == s[q]);
        }
        if i < s.len() {
            lemma_seq_sum_prefix_le(t, i);
            assert(t.subrange(0, i) =~= s.subrange(0, i));
            lemma_seq_sum_prefix_le(t, t.len() as int);
            assert(t.subrange(0, t.len() as int) =~= t);
        } else {
            lemma_seq_sum_prefix_le(t, t.len() as int);
            assert(t.subrange(0, t.len() as int) =~= t);
            assert(s.subrange(0, i) =~= s);
        }
    } else {
        assert(s.subrange(0, i) =~= s);
    }
}

proof fn lemma_shift_step(w: int, k: nat)
    requires
        w >= 0,
    ensures
        (w / (pow2(k) as int)) / 2 == w / (pow2(k + 1) as int),
        w / (pow2(k) as int) >= 0,
        w / (pow2(k) as int) <= w,
{
    lemma_pow2_pos(k);
    lemma_pow2_unfold(k + 1);
    lemma_div_denominator(w, pow2(k) as int, 2);
    assert(pow2(k) as int * 2 == pow2(k + 1) as int);
    assert(w / (pow2(k) as int) <= w) by (nonlinear_arith)
        requires
            w >= 0,
            pow2(k) as int >= 1,
    ;
}

/// The weights after `k` shifts, and the threshold they give, all fit
/// Script numbers.
pub open spec fn calibration_fits(ws: Seq<int>, k: nat) -> bool {
    &&& calibration_threshold(ws, k) <= MAX_BTC_INT
    &&& forall|q: int| 0 <= q < ws.len() ==> #[trigger] shifted(ws, k)[q] <= MAX_BTC_INT
}

/// Why no committee could be set up.
#[derive(Clone, Copy, Debug, PartialEq, Eq)]
pub enum SetupError {
    /// The weights sum to zero: no threshold would mean anything.
    CalibrationImpossible,
}

proof fn lemma_elem_le_sum(s: Seq<int>, q: int)
    requires
        0 <= q < s.len(),
        forall|p: int| 0 <= p < s.len() ==> #[trigger] s[p] >= 0,
    ensures
        s[q] <= seq_sum(s),
{
    lemma_seq_sum_push(s, q);
    lemma_seq_sum_prefix_le(s, q);
    lemma_seq_sum_prefix_le(s, q + 1);
}

/// Compresses raw weights into Script numbers: while two thirds of the total
/// weight (`sum / 3 * 2`) or some weight exceeds `2^31 - 1`, shifts every
/// weight right by one. Returns that threshold. A weight that reaches 0
/// stays, so that the committee order is kept. Weights that sum to zero are
/// refused and left as they are.
pub fn set_threshold_and_weights(validators: &mut Vec<Validator>) -> (r: Result<i64, SetupError>)
    requires
        forall|i: int| 0 <= i < old(validators)@.len() ==> #[trigger] old(validators)@[i].weight >= 0,
        seq_sum(weights_of(old(validators)@)) <= i64::MAX,
    ensures
        match r {
            Ok(threshold) => {
                &&& seq_sum(weights_of(old(validators)@)) > 0
                &&& exists|k: nat|
                    {
                        &&& same_members(
                            old(validators)@,
                            final(validators)@,
                            shifted(weights_of(old(validators)@), k),
                        )
                        &&& threshold == calibration_threshold(weights_of(old(validators)@), k)
                        &&& calibration_fits(weights_of(old(validators)@), k)
                        &&& forall|j: nat| j < k ==> !#[trigger] calibration_fits(weights_of(old(validators)@), j)
                    }
                &&& 0 <= threshold <= MAX_BTC_INT
                &&& forall|i: int|
                    0 <= i < final(validators)@.len() ==> 0 <= #[trigger] final(validators)@[i].weight
                        <= MAX_BTC_INT
            },
            Err(e) => {
                &&& e == SetupError::CalibrationImpossible
                &&& seq_sum(weights_of(old(validators)@)) == 0
                &&& final(validators)@ == old(validators)@
            },
        },
{
    let ghost orig = weights_of(validators@);
    let ghost before = validators@;
    let ghost mut k: nat = 0;
    let mut sum: i64 = 0;
    let mut too_big = false;
    let mut i: usize = 0;
    assert forall|q: int| 0 <= q < orig.len() implies #[trigger] orig[q] >= 0 by {
        assert(orig[q] == before[q].weight);
    }
    proof {
        lemma_pow2_pos(0);
        assert(pow2(0) == 1) by {
            vstd::arithmetic::power2::lemma2_to64();
        }
        assert(shifted(orig, 0) =~= orig);
    }
    while i < validators.len()
        invariant
            validators@ == before,
            orig == weights_of(before),
            orig == shifted(orig, 0),
            i <= validators@.len(),
            sum == seq_sum(orig.subrange(0, i as int)),
            seq_sum(orig) <= i64::MAX,
            forall|q: int| 0 <= q < orig.len() ==> #[trigger] orig[q] >= 0,
            too_big == exists|q: int| 0 <= q < i && #[trigger] orig[q] > MAX_BTC_INT,
        decreases validators@.len() - i,
    {
        proof {
            lemma_seq_sum_push(orig, i as int);
            lemma_seq_sum_prefix_le(orig, i + 1);
        }
        if validators[i].weight > MAX_BTC_INT {
            too_big = true;
        }
        proof {
            if exists|q: int| 0 <= q < i + 1 && #[trigger] orig[q] > MAX_BTC_INT {
                let q = choose|q: int| 0 <= q < i + 1 && #[trigger] orig[q] > MAX_BTC_INT;
                if q == i {
                    assert(validators@[i as int].weight > MAX_BTC_INT);
                }
            }
            if validators@[i as int].weight > MAX_BTC_INT {
                assert(orig[i as int] > MAX_BTC_INT);
            }
        }
        sum = sum + validators[i].weight;
        i = i + 1;
    }
    assert(orig.subrange(0, orig.len() as int) =~= orig);
    proof {
        lemma_seq_sum_prefix_le(orig, orig.len() as int);
    }
    if sum == 0 {
        return Err(SetupError::CalibrationImpossible);
    }
    let mut threshold = sum / 3 * 2;
    while threshold > MAX_BTC_INT || too_big
        invariant
            orig == weights_of(before),
            forall|q: int| 0 <= q < orig.len() ==> #[trigger] orig[q] >= 0,
            seq_sum(orig) <= i64::MAX,
            same_members(before, validators@, shifted(orig, k)),
            sum == seq_sum(shifted(orig, k)),
            0 <= sum <= seq_sum(orig),
            threshold == two_thirds(sum as int),
            too_big == exists|q: int| 0 <= q < orig.len() && #[trigger] shifted(orig, k)[q] > MAX_BTC_INT,
            forall|j: nat| j < k ==> !#[trigger] calibration_fits(orig, j),
        decreases sum,
    {
        let ghost prev = validators@;
        let ghost old_ws = shifted(orig, k);
        let ghost new_ws = shifted(orig, k + 1);
        assert forall|q: int| 0 <= q < orig.len() implies #[trigger] new_ws[q] == old_ws[q] / 2 && old_ws[q] >= 0 by {
            lemma_shift_step(orig[q], k);
        }
        assert forall|q: int| 0 <= q < orig.len() implies #[trigger] old_ws[q] >= 0 && new_ws[q] >= 0 by {
            lemma_shift_step(orig[q], k);
            lemma_shift_step(orig[q], k + 1);
        }
        proof {
            if too_big {
                let q = choose|q: int| 0 <= q < orig.len() && #[trigger] shifted(orig, k)[q] > MAX_BTC_INT;
                lemma_elem_le_sum(old_ws, q);
            }
            if !calibration_fits(orig, k) {
            } else {
                assert(!too_big);
                assert(threshold <= MAX_BTC_INT);
            }
        }
        let mut new_sum: i64 = 0;
        let mut big = false;
        let mut j: usize = 0;
        while j < validators.len()
            invariant
                j <= validators@.len(),
                validators@.len() == prev.len(),
                prev.len() == orig.len(),
                old_ws.len() == orig.len(),
                new_ws.len() == orig.len(),
                weights_of(prev) == old_ws,
                forall|q: int| 0 <= q < orig.len() ==> #[trigger] new_ws[q] == old_ws[q] / 2 && old_ws[q] >= 0,
                forall|q: int| 0 <= q < orig.len() ==> #[trigger] old_ws[q] >= 0 && new_ws[q] >= 0,
                forall|q: int|
                    0 <= q < validators@.len() ==> (#[trigger] validators@[q]).operator_address
                        == prev[q].operator_address && validators@[q].key == prev[q].key
                        && validators@[q].weight == if q < j {
                        new_ws[q]
                    } else {
                        old_ws[q]
                    },
                new_sum == seq_sum(new_ws.subrange(0, j as int)),
                2 * new_sum <= seq_sum(old_ws.subrange(0, j as int)),
                seq_sum(old_ws) == sum,
                sum <= i64::MAX,
                big == exists|q: int| 0 <= q < j && #[trigger] new_ws[q] > MAX_BTC_INT,
            decreases validators@.len() - j,
        {
            proof {
                lemma_seq_sum_push(new_ws, j as int);
                lemma_seq_sum_push(old_ws, j as int);
                lemma_seq_sum_prefix_le(old_ws, j + 1);
                assert(validators@[j as int].weight == old_ws[j as int]);
            }
            let w = validators[j].weight / 2;
            validators[j].weight = w;
            if w > MAX_BTC_INT {
                big = true;
            }
            proof {
                if exists|q: int| 0 <= q < j + 1 && #[trigger] new_ws[q] > MAX_BTC_INT {
                    let q = choose|q: int| 0 <= q < j + 1 && #[trigger] new_ws[q] > MAX_BTC_INT;
                    if q == j {
                        assert(w > MAX_BTC_INT);
                    }
                }
                if w > MAX_BTC_INT {
                    assert(new_ws[j as int] > MAX_BTC_INT);
                }
            }
            new_sum = new_sum + w;
            j = j + 1;
        }
        proof {
            assert(new_ws.subrange(0, new_ws.len() as int) =~= new_ws);
            assert(old_ws.subrange(0, old_ws.len() as int) =~= old_ws);
            assert(weights_of(validators@) =~= new_ws);
            lemma_seq_sum_prefix_le(new_ws, new_ws.len() as int);
            k = k + 1;
        }
        sum = new_sum;
        too_big = big;
        threshold = sum / 3 * 2;
    }
    proof {
        assert(same_members(before, validators@, shifted(orig, k)));
        assert(threshold == calibration_threshold(orig, k));
        assert(calibration_fits(orig, k));
        assert forall|i: int| 0 <= i < validators@.len() implies 0 <= #[trigger] validators@[i].weight
            <= MAX_BTC_INT by {
            assert(validators@[i].weight == weights_of(validators@)[i]);
            assert(shifted(orig, k)[i] <= MAX_BTC_INT);
            lemma_shift_step(orig[i], k);
        }
    }
    Ok(threshold)
}

} // verus!

verus! {

/// Calibrated weights stay non-negative: the threshold after `k` shifts, where
/// it fits a Script number, lies in `[0, 2^31 - 1]`, is at most the total
/// calibrated weight `s`, and at least `2 * s / 3 - 1`.
pub proof fn lemma_calibration_bounds(ws: Seq<int>, k: nat)
    requires
        forall|q: int| 0 <= q < ws.len() ==> #[trigger] ws[q] >= 0,
        calibration_threshold(ws, k) <= MAX_BTC_INT,
    ensures
        ({
            let s = seq_sum(shifted(ws, k));
            let t = calibration_threshold(ws, k);
            &&& 0 <= t <= MAX_BTC_INT
            &&& s >= 0
            &&& t <= s
            &&& t >= 2 * s / 3 - 1
        }),
{
    let sh = shifted(ws, k);
    assert forall|q: int| 0 <= q < sh.len() implies #[trigger] sh[q] >= 0 by {
        lemma_shift_step(ws[q], k);
    }
    lemma_seq_sum_prefix_le(sh, sh.len() as int);
    assert(sh.subrange(0, sh.len() as int) =~= sh);
    let s = seq_sum(sh);
    assert(s / 3 * 2 <= s && s / 3 * 2 >= 2 * s / 3 - 1 && s / 3 * 2 >= 0) by (nonlinear_arith)
        requires
            s >= 0,
    ;
}

/// Whether `address` is among the maintainer addresses.
pub open spec fn is_maintainer(maintainers: Seq<String>, address: Seq<char>) -> bool {
    exists|i: int| 0 <= i < maintainers.len() && (#[trigger] maintainers[i])@ == address
}

/// The validators whose operator address is a maintainer's, in order.
pub open spec fn maintainers_among(validators: Seq<Validator>, maintainers: Seq<String>) -> Seq<Validator>
    decreases validators.len(),
{
    if validators.len() == 0 {
        seq![]
    } else {
        let rest = maintainers_among(validators.drop_last(), maintainers);
        if is_maintainer(maintainers, validators.last().operator_address@) {
            rest.push(validators.last())
        } else {
            rest
        }
    }
}

fn contains_address(maintainers: &Vec<String>, address: &String) -> (r: bool)
    ensures
        r == is_maintainer(maintainers@, address@),
{
    let mut i: usize = 0;
    while i < maintainers.len()
        invariant
            i <= maintainers@.len(),
            forall|q: int| 0 <= q < i ==> (#[trigger] maintainers@[q])@ != address@,
        decreases maintainers@.len() - i,
    {
        if maintainers[i] == *address {
            return true;
        }
        i = i + 1;
    }
    false
}

/// Keeps, in order, the validators whose operator address is listed among
/// the chain's maintainers.
pub fn select_chain_maintainers(validators: Vec<Validator>, maintainers: &Vec<String>) -> (r: Vec<Validator>)
    ensures
        r@ == maintainers_among(validators@, maintainers@),
{
    let ghost all = validators@;
    assert(all.len() == validators.len());
    let mut rest = validators;
    let mut r: Vec<Validator> = Vec::new();
    let mut i: usize = 0;
    while rest.len() > 0
        invariant
            i + rest@.len() == all.len(),
            all.len() <= usize::MAX,
            rest@ == all.subrange(i as int, all.len() as int),
            r@ == maintainers_among(all.subrange(0, i as int), maintainers@),
        decreases rest@.len(),
    {
        let v = rest.remove(0);
        proof {
            assert(v == all[i as int]);
            assert(all.subrange(0, i + 1).drop_last() =~= all.subrange(0, i as int));
        }
        if contains_address(maintainers, &v.operator_address) {
            r.push(v);
        }
        i = i + 1;
        assert(rest@ =~= all.subrange(i as int, all.len() as int));
    }
    assert(all.subrange(0, all.len() as int) =~= all);
    r
}

/// Calibrates the chain maintainers' weights into a committee: the members
/// with their calibrated weights, and the threshold. A committee whose raw
/// weights sum to zero is refused.
pub fn get_multisig_setup(maintainers: Vec<Validator>) -> (r: Result<(Vec<Validator>, i64), SetupError>)
    requires
        forall|i: int| 0 <= i < maintainers@.len() ==> #[trigger] maintainers@[i].weight >= 0,
        seq_sum(weights_of(maintainers@)) <= i64::MAX,
    ensures
        match r {
            Ok((committee, threshold)) => {
                &&& seq_sum(weights_of(maintainers@)) > 0
                &&& exists|k: nat|
                    {
                        &&& same_members(maintainers@, committee@, shifted(weights_of(maintainers@), k))
                        &&& threshold == calibration_threshold(weights_of(maintainers@), k)
                        &&& calibration_fits(weights_of(maintainers@), k)
                        &&& forall|j: nat| j < k ==> !#[trigger] calibration_fits(weights_of(maintainers@), j)
                    }
                &&& 0 <= threshold <= MAX_BTC_INT
                &&& forall|i: int| 0 <= i < committee@.len() ==> 0 <= #[trigger] committee@[i].weight <= MAX_BTC_INT
            },
            Err(e) => e == SetupError::CalibrationImpossible && seq_sum(weights_of(maintainers@)) == 0,
        },
{
    let mut committee = maintainers;
    match set_threshold_and_weights(&mut committee) {
        Ok(threshold) => Ok((committee, threshold)),
        Err(e) => Err(e),
    }
}

/// The committee's keys are the members' public keys, in committee order.
pub open spec fn keys_of(members: Seq<([u8; 32], i64)>, validators: Seq<Validator>) -> bool {
    &&& members.len() == validators.len()
    &&& forall|j: int| 0 <= j < members.len() ==> (#[trigger] members[j]).0@ == xonly_of(validators[j].key.unwrap())
}

/// Signatures are checked against the sighash being spent.
pub open spec fn valid_for(sighash: Seq<u8>) -> spec_fn(Seq<u8>, Seq<u8>) -> bool {
    |pk: Seq<u8>, sig: Seq<u8>| bip340_valid(pk, sighash, sig)
}

/// A witness made from members' signatures of the sighash (each present slot
/// signed by `sign_sighash` of that member, absent slots empty): the
/// committee script accepts exactly when the signers' weight reaches the
/// threshold, and otherwise evaluates to false without aborting. The
/// signers' weight must fit a Script number.
pub proof fn lemma_signed_committee_outcome(
    members: Seq<([u8; 32], i64)>,
    threshold: int,
    validators: Seq<Validator>,
    sigs: Seq<Option<[u8; 64]>>,
    sighash: Seq<u8>,
    script: Seq<u8>,
    control_block: Seq<u8>,
)
    requires
        keys_of(members, validators),
        sigs.len() == members.len(),
        forall|j: int|
            0 <= j < sigs.len() && (#[trigger] sigs[j]).is_some() ==> bip340_valid(
                xonly_of(validators[j].key.unwrap()),
                sighash,
                sigs[j].unwrap()@,
            ),
        forall|q: int| 0 <= q < members.len() ==> 0 <= #[trigger] members[q].1 <= MAX_BTC_INT,
        0 <= threshold <= MAX_BTC_INT,
        present_weight(members, sigs, members.len() as int) <= MAX_BTC_INT,
    ensures
        evaluate(committee_ops(members, threshold), committee_witness(sigs, script, control_block), valid_for(sighash))
            == if present_weight(members, sigs, members.len() as int) >= threshold {
            ScriptOutcome::Accept
        } else {
            ScriptOutcome::EvalFalse
        },
{
    assert(present_sigs_valid(members, sigs, valid_for(sighash))) by {
        assert forall|j: int| 0 <= j < sigs.len() && (#[trigger] sigs[j]).is_some() implies (valid_for(sighash))(
            members[j].0@,
            sigs[j].unwrap()@,
        ) by {
            assert(members[j].0@ == xonly_of(validators[j].key.unwrap()));
        }
    }
    lemma_committee_outcome(members, threshold, sigs, script, control_block, valid_for(sighash));
}

/// A row of `collect_signatures` for the committee's members, finalised into
/// a witness, satisfies the committee script whenever the total weight
/// reaches the threshold (and fits a Script number).
pub proof fn lemma_collected_signatures_accept(
    members: Seq<([u8; 32], i64)>,
    threshold: int,
    validators: Seq<Validator>,
    sigs: Seq<Option<[u8; 64]>>,
    sighash: Seq<u8>,
    script: Seq<u8>,
    control_block: Seq<u8>,
)
    requires
        keys_of(members, validators),
        signed_by_all(sigs, validators, sighash),
        forall|q: int| 0 <= q < members.len() ==> 0 <= #[trigger] members[q].1 <= MAX_BTC_INT,
        0 <= threshold <= weight_sum(members),
        weight_sum(members) <= MAX_BTC_INT,
    ensures
        evaluate(committee_ops(members, threshold), committee_witness(sigs, script, control_block), valid_for(sighash))
            == ScriptOutcome::Accept,
{
    assert(present_sigs_valid(members, sigs, valid_for(sighash))) by {
        assert forall|j: int| 0 <= j < sigs.len() && (#[trigger] sigs[j]).is_some() implies (valid_for(sighash))(
            members[j].0@,
            sigs[j].unwrap()@,
        ) by {
            assert(members[j].0@ == xonly_of(validators[j].key.unwrap()));
        }
    }
    assert forall|j: int| 0 <= j < sigs.len() implies (#[trigger] sigs[j]).is_some() by {}
    lemma_full_committee_accepts(members, threshold, sigs, script, control_block, valid_for(sighash));
}

/// Calibration is a function of the raw weights: only one number of shifts
/// is the least that fits, so equal directory data gives equal weights and an
/// equal threshold.
pub proof fn lemma_calibration_unique(ws: Seq<int>, k1: nat, k2: nat)
    requires
        calibration_fits(ws, k1),
        calibration_fits(ws, k2),
        forall|j: nat| j < k1 ==> !#[trigger] calibration_fits(ws, j),
        forall|j: nat| j < k2 ==> !#[trigger] calibration_fits(ws, j),
    ensures
        k1 == k2,
        shifted(ws, k1) == shifted(ws, k2),
        calibration_threshold(ws, k1) == calibration_threshold(ws, k2),
{
}

} // verus!
