//! UTXO planning for peg-out and handover transactions.
use vstd::prelude::*;

use crate::tx::{Input, Output, Tx, Utxo, SEQUENCE_MAX};
use crate::sighash::{sighashes_of, taproot_sighashes, txouts_view};
use crate::{handover_input_size, input_size, SIG_SIZE};

use bitcoin::{OutPoint, ScriptBuf, Sequence, Witness};

verus! {

/// Size of a committee output, as serialized.
pub const PEG_IN_OUTPUT_SIZE: usize = 43;

/// Why a peg-out or handover could not be planned.
#[derive(Clone, Copy, Debug, PartialEq, Eq)]
pub enum PlanError {
    /// The pool ran out before the payouts and fees were covered.
    PoolExhausted,
    /// No handover output clears the fee plus the dust limit.
    FeeInsolvent,
}

/// Plans transactions over the custody pool: the UTXOs presumed spendable
/// under the active committee script, no outpoint twice.
pub struct MultisigProver {
    pub available_utxos: Vec<Utxo>,
}

/// Total amount held by a sequence of UTXOs.
pub open spec fn utxo_sum(s: Seq<Utxo>) -> int
    decreases s.len(),
{
    if s.len() == 0 {
        0
    } else {
        utxo_sum(s.drop_last()) + s.last().txout.value
    }
}

/// How many old UTXOs a handover folds into one new output.
pub open spec fn fan_in(n: int, max_output_no: int) -> int {
    if n / max_output_no > 1 {
        n / max_output_no
    } else {
        1
    }
}

/// Number of groups of `f` UTXOs (the last possibly shorter) in a pool of `n`.
pub open spec fn group_count(n: int, f: int) -> int {
    (n + f - 1) / f
}

/// Pool index where group `g` starts.
pub open spec fn group_start(n: int, f: int, g: int) -> int {
    if g * f < n {
        g * f
    } else {
        n
    }
}

/// Sum of the UTXOs of group `g`.
pub open spec fn group_total(pool: Seq<Utxo>, f: int, g: int) -> int {
    utxo_sum(pool.subrange(group_start(pool.len() as int, f, g), group_start(pool.len() as int, f, g + 1)))
}

/// Whether some group before `g` is large enough to carry the fee.
pub open spec fn fee_taken_before(pool: Seq<Utxo>, f: int, fee: int, dust: int, g: int) -> bool {
    exists|h: int| 0 <= h < g && #[trigger] group_total(pool, f, h) > fee + dust
}

/// Amount of the handover output made from group `g`: the group's sum, less
/// the fee on the first group whose sum exceeds the fee plus the dust limit.
pub open spec fn handover_amount(pool: Seq<Utxo>, f: int, fee: int, dust: int, g: int) -> int {
    if group_total(pool, f, g) > fee + dust && !fee_taken_before(pool, f, fee, dust, g) {
        group_total(pool, f, g) - fee
    } else {
        group_total(pool, f, g)
    }
}

/// How many outputs fit in one handover transaction of at most `max_tx_size`
/// bytes, each output spending `f` inputs signed by up to `committee_size`
/// members.
pub open spec fn outputs_per_tx(f: int, committee_size: int, max_tx_size: int) -> int {
    max_tx_size / (f * input_size(committee_size) + PEG_IN_OUTPUT_SIZE)
}

/// Number of handover transactions for `groups` outputs, `per_tx` to a transaction.
pub open spec fn tx_count(groups: int, per_tx: int) -> int {
    (groups + per_tx - 1) / per_tx
}

pub proof fn lemma_utxo_sum_nonneg(s: Seq<Utxo>)
    ensures
        utxo_sum(s) >= 0,
    decreases s.len(),
{
    if s.len() > 0 {
        lemma_utxo_sum_nonneg(s.drop_last());
    }
}

proof fn lemma_utxo_sum_subrange_le(s: Seq<Utxo>, a: int, b: int)
    requires
        0 <= a <= b <= s.len(),
    ensures
        utxo_sum(s.subrange(a, b)) <= utxo_sum(s),
    decreases s.len(),
{
    if b < s.len() {
        lemma_utxo_sum_subrange_le(s.drop_last(), a, b);
        assert(s.drop_last().subrange(a, b) =~= s.subrange(a, b));
    } else if a < b {
        lemma_utxo_sum_subrange_le(s.drop_last(), a, b - 1);
        assert(s.subrange(a, b).drop_last() =~= s.drop_last().subrange(a, b - 1));
    } else {
        lemma_utxo_sum_nonneg(s);
    }
}

proof fn lemma_utxo_sum_push(s: Seq<Utxo>, a: int, b: int)
    requires
        0 <= a <= b < s.len(),
    ensures
        utxo_sum(s.subrange(a, b + 1)) == utxo_sum(s.subrange(a, b)) + s[b].txout.value,
{
    assert(s.subrange(a, b + 1).drop_last() =~= s.subrange(a, b));
}

proof fn lemma_group_bounds(n: int, f: int, g: int)
    requires
        n >= 0,
        f >= 1,
        g >= 0,
    ensures
        g * f < n <==> g < group_count(n, f),
        group_start(n, f, g + 1) == if group_start(n, f, g) + f < n {
            group_start(n, f, g) + f
        } else {
            n
        },
        group_start(n, f, g) <= group_start(n, f, g + 1),
        group_start(n, f, group_count(n, f)) == n,
        group_start(n, f, 0) == 0,
        group_count(n, f) <= n,
{
    assert((n + f - 1) / f <= n) by (nonlinear_arith)
        requires
            n >= 0,
            f >= 1,
    ;
    assert((g + 1) * f == g * f + f) by (nonlinear_arith);
    assert(g * f >= 0) by (nonlinear_arith)
        requires
            g >= 0,
            f >= 1,
    ;
    assert(g * f < n <==> g < (n + f - 1) / f) by (nonlinear_arith)
        requires
            n >= 0,
            f >= 1,
            g >= 0,
    ;
    let c = (n + f - 1) / f;
    assert(c * f >= n) by (nonlinear_arith)
        requires
            n >= 0,
            f >= 1,
            c == (n + f - 1) / f,
    ;
}


/// The first output index of handover transaction `t` and one past its last.
pub open spec fn tx_groups(groups: int, per_tx: int, t: int) -> (int, int) {
    let g0 = t * per_tx;
    (g0, if g0 + per_tx < groups { g0 + per_tx } else { groups })
}

/// Handover transaction `t` is made
/// of the groups `tx_groups(t)`: it spends their UTXOs in pool order and pays
/// one output per group, of the given amount, to `spk`.
pub open spec fn handover_tx_ok(
    pool: Seq<Utxo>,
    amounts: Seq<u64>,
    f: int,
    per_tx: int,
    spk: Seq<u8>,
    t: int,
    tx: Tx,
) -> bool {
    let (g0, g1) = tx_groups(amounts.len() as int, per_tx, t);
    let p0 = group_start(pool.len() as int, f, g0);
    let p1 = group_start(pool.len() as int, f, g1);
    &&& tx.version == 2
    &&& tx.lock_time == 0
    &&& tx.input@.len() == p1 - p0
    &&& forall|k: int|
        0 <= k < p1 - p0 ==> {
            &&& (#[trigger] tx.input@[k]).previous_output == pool[p0 + k].outpoint
            &&& tx.input@[k].sequence == SEQUENCE_MAX
            &&& tx.input@[k].witness@.len() == 0
        }
    &&& tx.output@.len() == g1 - g0
    &&& forall|j: int| 0 <= j < g1 - g0 ==> (#[trigger] tx.output@[j])@ == (amounts[g0 + j], spk)
}


/// The amounts of every handover output, in output order.
pub open spec fn handover_amounts_spec(pool: Seq<Utxo>, f: int, fee: int, dust: int) -> Seq<u64> {
    Seq::new(group_count(pool.len() as int, f) as nat, |g: int| handover_amount(pool, f, fee, dust, g) as u64)
}

/// The previous outputs spent by handover transaction `t`.
pub open spec fn handover_prevouts(pool: Seq<Utxo>, f: int, per_tx: int, t: int) -> Seq<(u64, Seq<u8>)> {
    let (g0, g1) = tx_groups(group_count(pool.len() as int, f), per_tx, t);
    let p0 = group_start(pool.len() as int, f, g0);
    let p1 = group_start(pool.len() as int, f, g1);
    pool.subrange(p0, p1).map_values(|u: Utxo| u.txout@)
}

/// Sum of the payout amounts.
pub open spec fn payout_sum(payouts: Seq<(u64, Vec<u8>)>) -> int
    decreases payouts.len(),
{
    if payouts.len() == 0 {
        0
    } else {
        payout_sum(payouts.drop_last()) + payouts.last().0
    }
}

/// Virtual size, rounded up, of a weight in weight units.
pub open spec fn vbytes_ceil(weight: int) -> int {
    (weight + 3) / 4
}

/// Weight of an input with an empty script_sig and an empty witness.
pub open spec fn unsigned_input_weight() -> int {
    4 * (32 + 4 + 1 + 4) + 1int
}

/// Fee charged for each peg-out input at `fee_rate` sats per vbyte: its
/// unsigned weight plus one signature.
pub open spec fn peg_out_input_fee(fee_rate: int) -> int {
    fee_rate * vbytes_ceil(unsigned_input_weight() + SIG_SIZE)
}

/// Whether the last `k` pool entries cover `total` plus the fee of `k` inputs.
pub open spec fn peg_out_covered(pool: Seq<Utxo>, total: int, fee_rate: int, k: int) -> bool {
    utxo_sum(pool.subrange(pool.len() - k, pool.len() as int)) >= total + k * peg_out_input_fee(fee_rate)
}

/// Relies on rust-bitcoin's `TxIn::segwit_weight`: four units per byte of an
/// outpoint, an empty script_sig and a sequence, plus one for an empty witness.
#[verifier::external_body]
fn segwit_weight(i: &Input) -> (r: u64)
    requires
        i.witness@.len() == 0,
    ensures
        r == unsigned_input_weight(),
{
    let txid = <bitcoin::Txid as bitcoin_hashes::Hash>::from_byte_array(i.previous_output.txid);
    let input = bitcoin::TxIn {
        previous_output: OutPoint::new(txid, i.previous_output.vout),
        script_sig: ScriptBuf::new(),
        sequence: Sequence(i.sequence),
        witness: Witness::new(),
    };
    input.segwit_weight().to_wu()
}

proof fn lemma_utxo_sum_prepend(s: Seq<Utxo>, a: int, b: int)
    requires
        0 <= a < b <= s.len(),
    ensures
        utxo_sum(s.subrange(a, b)) == s[a].txout.value + utxo_sum(s.subrange(a + 1, b)),
    decreases b - a,
{
    if a + 1 < b {
        lemma_utxo_sum_prepend(s, a, b - 1);
        lemma_utxo_sum_push(s, a, b - 1);
        lemma_utxo_sum_push(s, a + 1, b - 1);
    } else {
        assert(s.subrange(a, b).drop_last() =~= s.subrange(a + 1, b));
    }
}

proof fn lemma_payout_sum_prefix_le(payouts: Seq<(u64, Vec<u8>)>, i: int)
    requires
        0 <= i <= payouts.len(),
    ensures
        payout_sum(payouts.subrange(0, i)) <= payout_sum(payouts),
    decreases payouts.len(),
{
    if i < payouts.len() {
        lemma_payout_sum_prefix_le(payouts.drop_last(), i);
        assert(payouts.drop_last().subrange(0, i) =~= payouts.subrange(0, i));
    } else {
        assert(payouts.subrange(0, i) =~= payouts);
    }
}

proof fn lemma_tx_count(groups: int, per_tx: int, len: int)
    requires
        groups >= 0,
        per_tx >= 1,
        len >= 0,
        len > 0 ==> (len - 1) * per_tx < groups,
        groups <= len * per_tx,
    ensures
        len == tx_count(groups, per_tx),
{
    assert(len == (groups + per_tx - 1) / per_tx) by (nonlinear_arith)
        requires
            groups >= 0,
            per_tx >= 1,
            len >= 0,
            len > 0 ==> (len - 1) * per_tx < groups,
            groups <= len * per_tx,
    ;
}

impl MultisigProver {
    /// Output amounts of a handover that folds every `f` consecutive pool
    /// entries into one output, the fee taken from the first group that
    /// exceeds `fee + dust`; `FeeInsolvent` where none does.
    pub fn handover_amounts(&self, f: usize, miner_fee: u64, dust_limit: u64) -> (r: Result<
        Vec<u64>,
        PlanError,
    >)
        requires
            f >= 1,
            utxo_sum(self.available_utxos@) <= u64::MAX,
            miner_fee + dust_limit <= u64::MAX,
        ensures
            match r {
                Ok(amounts) => {
                    &&& fee_taken_before(
                        self.available_utxos@,
                        f as int,
                        miner_fee as int,
                        dust_limit as int,
                        group_count(self.available_utxos@.len() as int, f as int),
                    )
                    &&& amounts@.len() == group_count(self.available_utxos@.len() as int, f as int)
                    &&& forall|g: int|
                        0 <= g < amounts@.len() ==> amounts@[g] == handover_amount(
                            self.available_utxos@,
                            f as int,
                            miner_fee as int,
                            dust_limit as int,
                            g,
                        )
                },
                Err(e) => {
                    &&& e == PlanError::FeeInsolvent
                    &&& !fee_taken_before(
                        self.available_utxos@,
                        f as int,
                        miner_fee as int,
                        dust_limit as int,
                        group_count(self.available_utxos@.len() as int, f as int),
                    )
                },
            },
    {
        let ghost pool = self.available_utxos@;
        let n = self.available_utxos.len();
        let limit = miner_fee + dust_limit;
        let mut amounts: Vec<u64> = Vec::new();
        let mut pos: usize = 0;
        let mut g: usize = 0;
        let mut fee_taken = false;
        proof {
            lemma_group_bounds(n as int, f as int, 0);
        }
        while pos < n
            invariant
                n == pool.len(),
                pool == self.available_utxos@,
                f >= 1,
                limit == miner_fee + dust_limit,
                utxo_sum(pool) <= u64::MAX,
                pos == group_start(n as int, f as int, g as int),
                g <= group_count(n as int, f as int),
                amounts@.len() == g,
                fee_taken == fee_taken_before(pool, f as int, miner_fee as int, dust_limit as int, g as int),
                forall|h: int|
                    0 <= h < g ==> amounts@[h] == handover_amount(
                        pool,
                        f as int,
                        miner_fee as int,
                        dust_limit as int,
                        h,
                    ),
            decreases n - pos,
        {
            proof {
                lemma_group_bounds(n as int, f as int, g as int);
            }
            let end = if n - pos > f {
                pos + f
            } else {
                n
            };
            let mut sum: u64 = 0;
            let mut k: usize = pos;
            while k < end
                invariant
                    n == pool.len(),
                    pool == self.available_utxos@,
                    utxo_sum(pool) <= u64::MAX,
                    pos <= k <= end <= n,
                    sum == utxo_sum(pool.subrange(pos as int, k as int)),
                decreases end - k,
            {
                proof {
                    lemma_utxo_sum_push(pool, pos as int, k as int);
                    lemma_utxo_sum_subrange_le(pool, pos as int, k + 1);
                }
                sum = sum + self.available_utxos[k].txout.value;
                k = k + 1;
            }
            assert(sum == group_total(pool, f as int, g as int));
            proof {
                assert(fee_taken_before(pool, f as int, miner_fee as int, dust_limit as int, g + 1)
                    == (fee_taken || group_total(pool, f as int, g as int) > limit)) by {
                    if group_total(pool, f as int, g as int) > limit {
                        assert(fee_taken_before(pool, f as int, miner_fee as int, dust_limit as int, g + 1));
                    }
                    if fee_taken {
                        let h = choose|h: int| 0 <= h < g && #[trigger] group_total(pool, f as int, h) > limit;
                        assert(0 <= h < g + 1 && group_total(pool, f as int, h) > limit);
                    }
                }
            }
            if sum > limit && !fee_taken {
                sum = sum - miner_fee;
                fee_taken = true;
            }
            amounts.push(sum);
            pos = end;
            g = g + 1;
        }
        proof {
            lemma_group_bounds(n as int, f as int, g as int);
        }
        if fee_taken {
            Ok(amounts)
        } else {
            Err(PlanError::FeeInsolvent)
        }
    }



    /// Pays `payouts` (amount, recipient script) from the pool: pops UTXOs
    /// from the end of the pool until they cover the payouts plus
    /// `peg_out_input_fee(fee_rate)` per popped input. Returns the inputs and
    /// their previous outputs in pop order, the payout outputs and the change.
    /// The greedy policy leaves `dust_limit` unused.
    pub fn consume_utxos(&mut self, payouts: Vec<(u64, Vec<u8>)>, miner_fee_per_vbyte: u64, dust_limit: u64) -> (r:
        Result<(Vec<Input>, Vec<Output>, Vec<Output>, u64), PlanError>)
        requires
            utxo_sum(old(self).available_utxos@) <= u64::MAX,
            payout_sum(payouts@) + old(self).available_utxos@.len() * peg_out_input_fee(
                miner_fee_per_vbyte as int,
            ) <= u64::MAX,
        ensures
            ({
                let pool = old(self).available_utxos@;
                let n = pool.len() as int;
                let total = payout_sum(payouts@);
                let fee_rate = miner_fee_per_vbyte as int;
                match r {
                    Ok((inputs, prevouts, outputs, change)) => {
                        let k = inputs@.len() as int;
                        &&& k <= n
                        &&& peg_out_covered(pool, total, fee_rate, k)
                        &&& forall|j: int| 0 <= j < k ==> !#[trigger] peg_out_covered(pool, total, fee_rate, j)
                        &&& change == utxo_sum(pool.subrange(n - k, n)) - (total + k * peg_out_input_fee(fee_rate))
                        &&& prevouts@.len() == k
                        &&& forall|q: int|
                            0 <= q < k ==> {
                                &&& (#[trigger] inputs@[q]).previous_output == pool[n - 1 - q].outpoint
                                &&& inputs@[q].sequence == SEQUENCE_MAX
                                &&& inputs@[q].witness@.len() == 0
                                &&& prevouts@[q]@ == pool[n - 1 - q].txout@
                            }
                        &&& outputs@.len() == payouts@.len()
                        &&& forall|i: int| 0 <= i < outputs@.len() ==> (#[trigger] outputs@[i])@ == (payouts@[i].0, payouts@[i].1@)
                        &&& final(self).available_utxos@ == pool.subrange(0, n - k)
                    },
                    Err(e) => {
                        &&& e == PlanError::PoolExhausted
                        &&& forall|j: int| 0 <= j <= n ==> !#[trigger] peg_out_covered(pool, total, fee_rate, j)
                        &&& final(self).available_utxos@.len() == 0
                    },
                }
            }),
    {
        let ghost pool = self.available_utxos@;
        let ghost n = pool.len() as int;
        let ghost fee_rate = miner_fee_per_vbyte as int;
        let mut total: u64 = 0;
        let mut outputs: Vec<Output> = Vec::new();
        let mut i: usize = 0;
        while i < payouts.len()
            invariant
                i <= payouts@.len(),
                total == payout_sum(payouts@.subrange(0, i as int)),
                payout_sum(payouts@) + n * peg_out_input_fee(fee_rate) <= u64::MAX,
                n >= 0,
                fee_rate >= 0,
                outputs@.len() == i,
                forall|q: int| 0 <= q < i ==> (#[trigger] outputs@[q])@ == (payouts@[q].0, payouts@[q].1@),
            decreases payouts@.len() - i,
        {
            proof {
                assert(payouts@.subrange(0, i + 1).drop_last() =~= payouts@.subrange(0, i as int));
                lemma_payout_sum_prefix_le(payouts@, i + 1);
                assert(n * peg_out_input_fee(fee_rate) >= 0) by (nonlinear_arith)
                    requires
                        n >= 0,
                        fee_rate >= 0,
                        peg_out_input_fee(fee_rate) == fee_rate * vbytes_ceil(unsigned_input_weight() + SIG_SIZE),
                ;
            }
            total = total + payouts[i].0;
            outputs.push(Output { value: payouts[i].0, script_pubkey: payouts[i].1.clone() });
            i = i + 1;
        }
        assert(payouts@.subrange(0, payouts@.len() as int) =~= payouts@);
        let mut collected: u64 = 0;
        let mut goal: u64 = total;
        let mut inputs: Vec<Input> = Vec::new();
        let mut prevouts: Vec<Output> = Vec::new();
        while collected < goal
            invariant
                pool == old(self).available_utxos@,
                n == pool.len(),
                fee_rate == miner_fee_per_vbyte,
                utxo_sum(pool) <= u64::MAX,
                total == payout_sum(payouts@),
                total + n * peg_out_input_fee(fee_rate) <= u64::MAX,
                inputs@.len() <= n,
                self.available_utxos@ == pool.subrange(0, n - inputs@.len()),
                collected == utxo_sum(pool.subrange(n - inputs@.len(), n)),
                goal == total + inputs@.len() * peg_out_input_fee(fee_rate),
                forall|j: int| 0 <= j < inputs@.len() ==> !#[trigger] peg_out_covered(pool, total as int, fee_rate, j),
                prevouts@.len() == inputs@.len(),
                forall|q: int|
                    0 <= q < inputs@.len() ==> {
                        &&& (#[trigger] inputs@[q]).previous_output == pool[n - 1 - q].outpoint
                        &&& inputs@[q].sequence == SEQUENCE_MAX
                        &&& inputs@[q].witness@.len() == 0
                        &&& prevouts@[q]@ == pool[n - 1 - q].txout@
                    },
            decreases self.available_utxos@.len(),
        {
            let ghost k = inputs@.len() as int;
            assert(!peg_out_covered(pool, total as int, fee_rate, k));
            let utxo = match self.available_utxos.pop() {
                Some(u) => u,
                None => {
                    assert forall|j: int| 0 <= j <= n implies !#[trigger] peg_out_covered(pool, total as int, fee_rate, j) by {
                        assert(j < k || j == k);
                    }
                    return Err(PlanError::PoolExhausted);
                },
            };
            proof {
                assert(utxo == pool[n - 1 - k]);
                lemma_utxo_sum_prepend(pool, n - 1 - k, n);
                lemma_utxo_sum_subrange_le(pool, n - 1 - k, n);
                assert(pool.subrange(0, n - k).drop_last() =~= pool.subrange(0, n - (k + 1)));
                assert((k + 1) * peg_out_input_fee(fee_rate) == k * peg_out_input_fee(fee_rate) + peg_out_input_fee(fee_rate)) by (nonlinear_arith);
                assert((k + 1) * peg_out_input_fee(fee_rate) <= n * peg_out_input_fee(fee_rate)) by (nonlinear_arith)
                    requires
                        k + 1 <= n,
                        fee_rate >= 0,
                        peg_out_input_fee(fee_rate) == fee_rate * vbytes_ceil(unsigned_input_weight() + SIG_SIZE),
                ;
            }
            collected = collected + utxo.txout.value;
            let txin = Input::unsigned(utxo.outpoint);
            let weight = segwit_weight(&txin) + SIG_SIZE as u64;
            let vbytes = (weight + 3) / 4;
            goal = goal + miner_fee_per_vbyte * vbytes;
            inputs.push(txin);
            prevouts.push(utxo.txout);
        }
        let change = collected - goal;
        Ok((inputs, prevouts, outputs, change))
    }


    /// Builds the unsigned peg-out transaction: the payout outputs, then a
    /// change output to `script_pubkey`, spending the UTXOs that
    /// `consume_utxos` pops (dust limit 10 sats); with the sighash of each
    /// input under the committee `script`.
    pub fn create_peg_out_tx(
        &mut self,
        miner_fee_per_vbyte: u64,
        payouts: Vec<(u64, Vec<u8>)>,
        script: &Vec<u8>,
        script_pubkey: &Vec<u8>,
    ) -> (r: Result<(Tx, Vec<[u8; 32]>), PlanError>)
        requires
            utxo_sum(old(self).available_utxos@) <= u64::MAX,
            payout_sum(payouts@) + old(self).available_utxos@.len() * peg_out_input_fee(
                miner_fee_per_vbyte as int,
            ) <= u64::MAX,
        ensures
            ({
                let pool = old(self).available_utxos@;
                let n = pool.len() as int;
                let total = payout_sum(payouts@);
                let fee_rate = miner_fee_per_vbyte as int;
                match r {
                    Ok((tx, sighashes)) => {
                        let k = tx.input@.len() as int;
                        let m = payouts@.len() as int;
                        &&& k <= n
                        &&& peg_out_covered(pool, total, fee_rate, k)
                        &&& forall|j: int| 0 <= j < k ==> !#[trigger] peg_out_covered(pool, total, fee_rate, j)
                        &&& tx.version == 2
                        &&& tx.lock_time == 0
                        &&& forall|q: int|
                            0 <= q < k ==> {
                                &&& (#[trigger] tx.input@[q]).previous_output == pool[n - 1 - q].outpoint
                                &&& tx.input@[q].sequence == SEQUENCE_MAX
                                &&& tx.input@[q].witness@.len() == 0
                            }
                        &&& tx.output@.len() == m + 1
                        &&& forall|i: int| 0 <= i < m ==> (#[trigger] tx.output@[i])@ == (payouts@[i].0, payouts@[i].1@)
                        &&& tx.output@[m]@ == (
                            (utxo_sum(pool.subrange(n - k, n)) - (total + k * peg_out_input_fee(fee_rate))) as u64,
                            script_pubkey@,
                        )
                        &&& sighashes@.map_values(|h: [u8; 32]| h@) == sighashes_of(
                            tx@,
                            Seq::new(k as nat, |q: int| pool[n - 1 - q].txout@),
                            script@,
                        )
                        &&& final(self).available_utxos@ == pool.subrange(0, n - k)
                    },
                    Err(e) => {
                        &&& e == PlanError::PoolExhausted
                        &&& forall|j: int| 0 <= j <= n ==> !#[trigger] peg_out_covered(pool, total, fee_rate, j)
                        &&& final(self).available_utxos@.len() == 0
                    },
                }
            }),
    {
        let ghost pool = self.available_utxos@;
        let (inputs, prevouts, mut outputs, change) = match self.consume_utxos(payouts, miner_fee_per_vbyte, 10) {
            Ok(planned) => planned,
            Err(e) => {
                return Err(e);
            },
        };
        outputs.push(Output { value: change, script_pubkey: script_pubkey.clone() });
        let tx = Tx { version: 2, lock_time: 0, input: inputs, output: outputs };
        let sighashes = taproot_sighashes(&tx, &prevouts, script);
        proof {
            let n = pool.len() as int;
            let k = tx.input@.len() as int;
            assert forall|q: int| 0 <= q < k implies (#[trigger] prevouts@[q])@ == pool[n - 1 - q].txout@ by {
                assert(tx.input@[q].previous_output == pool[n - 1 - q].outpoint);
            }
            assert(txouts_view(prevouts@) =~= Seq::new(k as nat, |q: int| pool[n - 1 - q].txout@));
        }
        Ok((tx, sighashes))
    }

    /// Plans a handover round that moves the whole pool to `new_script_pubkey`:
    /// every `fan_in` consecutive pool entries become one output, at most
    /// `outputs_per_tx` outputs to a transaction (inputs sized for
    /// `committee_size` signatures), and the first output whose
    /// sum exceeds `miner_fee + dust_limit` pays the fee. Each transaction
    /// comes with the sighash of each of its inputs under `old_script`.
    pub fn create_handover_tx(
        &self,
        max_output_no: usize,
        max_tx_size: usize,
        miner_fee: u64,
        dust_limit: u64,
        old_script: &Vec<u8>,
        new_script_pubkey: &Vec<u8>,
        committee_size: usize,
    ) -> (r: Result<Vec<(Tx, Vec<[u8; 32]>)>, PlanError>)
        requires
            max_output_no > 0,
            input_size(committee_size as int) <= usize::MAX,
            max_tx_size >= fan_in(self.available_utxos@.len() as int, max_output_no as int)
                * input_size(committee_size as int) + PEG_IN_OUTPUT_SIZE,
            utxo_sum(self.available_utxos@) <= u64::MAX,
            miner_fee + dust_limit <= u64::MAX,
        ensures
            ({
                let pool = self.available_utxos@;
                let f = fan_in(pool.len() as int, max_output_no as int);
                let groups = group_count(pool.len() as int, f);
                let per_tx = outputs_per_tx(f, committee_size as int, max_tx_size as int);
                let amounts = handover_amounts_spec(pool, f, miner_fee as int, dust_limit as int);
                match r {
                    Ok(txs) => {
                        &&& fee_taken_before(pool, f, miner_fee as int, dust_limit as int, groups)
                        &&& txs@.len() == tx_count(groups, per_tx)
                        &&& forall|t: int|
                            0 <= t < txs@.len() ==> {
                                let prevouts = handover_prevouts(pool, f, per_tx, t);
                                &&& handover_tx_ok(
                                    pool,
                                    amounts,
                                    f,
                                    per_tx,
                                    new_script_pubkey@,
                                    t,
                                    #[trigger] txs@[t].0,
                                )
                                &&& txs@[t].1@.map_values(|h: [u8; 32]| h@) == sighashes_of(
                                    txs@[t].0@,
                                    prevouts,
                                    old_script@,
                                )
                            }
                    },
                    Err(e) => e == PlanError::FeeInsolvent && !fee_taken_before(
                        pool,
                        f,
                        miner_fee as int,
                        dust_limit as int,
                        groups,
                    ),
                }
            }),
    {
        let n = self.available_utxos.len();
        let f: usize = if n / max_output_no > 1 {
            n / max_output_no
        } else {
            1
        };
        let input_size = handover_input_size(committee_size);
        proof {
            assert(f * input_size <= max_tx_size);
        }
        let per_tx = max_tx_size / (f * input_size + PEG_IN_OUTPUT_SIZE);
        assert(per_tx >= 1) by (nonlinear_arith)
            requires
                per_tx as int == max_tx_size as int / (f * input_size + PEG_IN_OUTPUT_SIZE) as int,
                max_tx_size as int >= (f * input_size + PEG_IN_OUTPUT_SIZE) as int,
                (f * input_size + PEG_IN_OUTPUT_SIZE) as int > 0,
        ;
        let amounts = match self.handover_amounts(f, miner_fee, dust_limit) {
            Ok(a) => a,
            Err(e) => {
                return Err(e);
            },
        };
        let ghost amounts_spec = handover_amounts_spec(self.available_utxos@, f as int, miner_fee as int, dust_limit as int);
        assert(amounts@ =~= amounts_spec);
        let mut planned = self.assemble_handover(f, per_tx, &amounts, new_script_pubkey);
        let ghost all = planned@;
        let mut txs: Vec<(Tx, Vec<[u8; 32]>)> = Vec::new();
        while planned.len() > 0
            invariant
                txs@.len() + planned@.len() == all.len(),
                planned@ == all.subrange(txs@.len() as int, all.len() as int),
                forall|t: int| 0 <= t < all.len() ==> handover_tx_ok(
                    self.available_utxos@,
                    amounts_spec,
                    f as int,
                    per_tx as int,
                    new_script_pubkey@,
                    t,
                    #[trigger] all[t].0,
                ) && txouts_view(all[t].1@) == handover_prevouts(
                    self.available_utxos@,
                    f as int,
                    per_tx as int,
                    t,
                ) && all[t].1@.len() == all[t].0.input@.len(),
                forall|t: int| 0 <= t < txs@.len() ==> {
                    &&& (#[trigger] txs@[t]).0 == all[t].0
                    &&& txs@[t].1@.map_values(|h: [u8; 32]| h@) == sighashes_of(
                        all[t].0@,
                        txouts_view(all[t].1@),
                        old_script@,
                    )
                },
            decreases planned@.len(),
        {
            let (tx, prevouts) = planned.remove(0);
            assert(tx == all[txs@.len() as int].0);
            let sighashes = taproot_sighashes(&tx, &prevouts, old_script);
            txs.push((tx, sighashes));
            assert(planned@ =~= all.subrange(txs@.len() as int, all.len() as int));
        }
        Ok(txs)
    }

    /// Splits the pool into handover transactions of `per_tx` outputs each,
    /// output `g` paying `amounts[g]` to `spk` from the `g`-th group of `f` UTXOs.
    fn assemble_handover(&self, f: usize, per_tx: usize, amounts: &Vec<u64>, spk: &Vec<u8>) -> (r: Vec<
        (Tx, Vec<Output>),
    >)
        requires
            f >= 1,
            per_tx >= 1,
            amounts@.len() == group_count(self.available_utxos@.len() as int, f as int),
        ensures
            r@.len() == tx_count(amounts@.len() as int, per_tx as int),
            forall|t: int|
                0 <= t < r@.len() ==> handover_tx_ok(
                    self.available_utxos@,
                    amounts@,
                    f as int,
                    per_tx as int,
                    spk@,
                    t,
                    #[trigger] r@[t].0,
                ) && txouts_view(r@[t].1@) == handover_prevouts(
                    self.available_utxos@,
                    f as int,
                    per_tx as int,
                    t,
                ) && r@[t].1@.len() == r@[t].0.input@.len(),
    {
        let ghost pool = self.available_utxos@;
        let n = self.available_utxos.len();
        let groups = amounts.len();
        let mut txs: Vec<(Tx, Vec<Output>)> = Vec::new();
        let mut g: usize = 0;
        let mut pos: usize = 0;
        proof {
            lemma_group_bounds(n as int, f as int, 0);
        }
        while g < groups
            invariant
                n == pool.len(),
                pool == self.available_utxos@,
                f >= 1,
                per_tx >= 1,
                groups == amounts@.len(),
                groups == group_count(n as int, f as int),
                g <= groups,
                g < groups ==> g == txs@.len() * per_tx,
                g == groups ==> groups <= txs@.len() * per_tx,
                txs@.len() > 0 ==> (txs@.len() - 1) * per_tx < groups,
                pos == group_start(n as int, f as int, g as int),
                forall|t: int|
                    0 <= t < txs@.len() ==> handover_tx_ok(
                        pool,
                        amounts@,
                        f as int,
                        per_tx as int,
                        spk@,
                        t,
                        #[trigger] txs@[t].0,
                    ) && txouts_view(txs@[t].1@) == handover_prevouts(pool, f as int, per_tx as int, t)
                        && txs@[t].1@.len() == txs@[t].0.input@.len(),
            decreases groups - g,
        {
            let g1 = if groups - g > per_tx {
                g + per_tx
            } else {
                groups
            };
            proof {
                lemma_group_bounds(n as int, f as int, g1 as int);
                lemma_group_bounds(n as int, f as int, g as int);
                assert(group_start(n as int, f as int, g as int) <= group_start(n as int, f as int, g1 as int)) by (nonlinear_arith)
                    requires
                        g <= g1,
                        f >= 1,
                        g >= 0,
                ;
            }
            let p1 = if g1 == groups {
                n
            } else {
                g1 * f
            };
            let mut input: Vec<Input> = Vec::new();
            let mut prevouts: Vec<Output> = Vec::new();
            let mut k: usize = pos;
            while k < p1
                invariant
                    n == pool.len(),
                    pool == self.available_utxos@,
                    pos <= k <= p1 <= n,
                    input@.len() == k - pos,
                    prevouts@.len() == k - pos,
                    forall|q: int|
                        0 <= q < k - pos ==> {
                            &&& (#[trigger] input@[q]).previous_output == pool[pos + q].outpoint
                            &&& input@[q].sequence == SEQUENCE_MAX
                            &&& input@[q].witness@.len() == 0
                        },
                    forall|q: int| 0 <= q < k - pos ==> (#[trigger] prevouts@[q])@ == pool[pos + q].txout@,
                decreases p1 - k,
            {
                let utxo = &self.available_utxos[k];
                input.push(Input::unsigned(utxo.outpoint));
                prevouts.push(utxo.txout.duplicate());
                k = k + 1;
            }
            assert(txouts_view(prevouts@) =~= pool.subrange(pos as int, p1 as int).map_values(
                |u: Utxo| u.txout@,
            ));
            let mut output: Vec<Output> = Vec::new();
            let mut j: usize = g;
            while j < g1
                invariant
                    g <= j <= g1 <= groups,
                    groups == amounts@.len(),
                    output@.len() == j - g,
                    forall|q: int|
                        0 <= q < j - g ==> (#[trigger] output@[q])@ == (amounts@[g + q], spk@),
                decreases g1 - j,
            {
                output.push(Output { value: amounts[j], script_pubkey: spk.clone() });
                j = j + 1;
            }
            let tx = Tx { version: 2, lock_time: 0, input, output };
            proof {
                let t = txs@.len() as int;
                assert((t + 1) * per_tx == t * per_tx + per_tx) by (nonlinear_arith);
                assert(tx_groups(groups as int, per_tx as int, t) == (g as int, g1 as int));
            }
            txs.push((tx, prevouts));
            g = g1;
            pos = p1;
        }
        proof {
            lemma_tx_count(groups as int, per_tx as int, txs@.len() as int);
        }
        txs
    }
}

} // verus!

verus! {

/// A handover round of `n` UTXOs leaves one new UTXO per group, and no
/// transaction carries more than `outputs_per_tx` of them: the new pool holds
/// at most `outputs_per_tx` times the number of transactions.
pub proof fn lemma_handover_pool_fits_txs(n: int, max_output_no: int, max_tx_size: int, committee_size: int)
    requires
        n >= 0,
        max_output_no > 0,
        committee_size >= 0,
        max_tx_size >= fan_in(n, max_output_no) * input_size(committee_size as int) + PEG_IN_OUTPUT_SIZE,
    ensures
        ({
            let f = fan_in(n, max_output_no);
            let per_tx = outputs_per_tx(f, committee_size, max_tx_size);
            group_count(n, f) <= per_tx * tx_count(group_count(n, f), per_tx)
        }),
{
    let f = fan_in(n, max_output_no);
    let d = f * input_size(committee_size as int) + PEG_IN_OUTPUT_SIZE;
    let per_tx = outputs_per_tx(f, committee_size, max_tx_size);
    assert(per_tx >= 1) by (nonlinear_arith)
        requires
            per_tx == max_tx_size / d,
            max_tx_size >= d,
            d > 0,
    ;
    let g = group_count(n, f);
    assert(g <= per_tx * ((g + per_tx - 1) / per_tx)) by (nonlinear_arith)
        requires
            per_tx >= 1,
    ;
}

/// A handover round leaves at most `max_output_no` new UTXOs per transaction
/// when the pool is smaller than `max_output_no` or a multiple of it. (A pool
/// of 3 with `max_output_no` 2 makes 3 outputs, which may all fit one
/// transaction.)
pub proof fn lemma_handover_pool_bounded(n: int, max_output_no: int, max_tx_size: int, committee_size: int)
    requires
        n >= 0,
        max_output_no > 0,
        committee_size >= 0,
        max_tx_size >= fan_in(n, max_output_no) * input_size(committee_size as int) + PEG_IN_OUTPUT_SIZE,
        n < max_output_no || n % max_output_no == 0,
    ensures
        ({
            let f = fan_in(n, max_output_no);
            let per_tx = outputs_per_tx(f, committee_size, max_tx_size);
            group_count(n, f) <= max_output_no * tx_count(group_count(n, f), per_tx)
        }),
{
    let m = max_output_no;
    let f = fan_in(n, m);
    let d = f * input_size(committee_size as int) + PEG_IN_OUTPUT_SIZE;
    let per_tx = outputs_per_tx(f, committee_size, max_tx_size);
    assert(per_tx >= 1) by (nonlinear_arith)
        requires
            per_tx == max_tx_size / d,
            max_tx_size >= d,
            d > 0,
    ;
    let g = group_count(n, f);
    let t = tx_count(g, per_tx);
    assert(g <= m) by (nonlinear_arith)
        requires
            n >= 0,
            m > 0,
            n < m || n % m == 0,
            f == (if n / m > 1 { n / m } else { 1 }),
            g == (n + f - 1) / f,
    ;
    assert(g > 0 ==> t >= 1) by (nonlinear_arith)
        requires
            per_tx >= 1,
            g >= 0,
            t == (g + per_tx - 1) / per_tx,
    ;
    assert(t >= 0) by (nonlinear_arith)
        requires
            per_tx >= 1,
            g >= 0,
            t == (g + per_tx - 1) / per_tx,
    ;
    if g > 0 {
        assert(m * t >= m) by (nonlinear_arith)
            requires
                t >= 1,
                m > 0,
        ;
    } else {
        assert(m * t >= 0) by (nonlinear_arith)
            requires
                t >= 0,
                m > 0,
        ;
    }
}

/// A peg-out spends a number of pool entries fixed by the pool, the payouts
/// and the fee rate: only one count is the least that covers them.
pub proof fn lemma_peg_out_inputs_unique(pool: Seq<Utxo>, total: int, fee_rate: int, k1: int, k2: int)
    requires
        0 <= k1,
        0 <= k2,
        peg_out_covered(pool, total, fee_rate, k1),
        peg_out_covered(pool, total, fee_rate, k2),
        forall|j: int| 0 <= j < k1 ==> !#[trigger] peg_out_covered(pool, total, fee_rate, j),
        forall|j: int| 0 <= j < k2 ==> !#[trigger] peg_out_covered(pool, total, fee_rate, j),
    ensures
        k1 == k2,
{
}

/// A handover transaction is determined by the plan: two transactions that
/// both match transaction `t` of the same pool, amounts and sizes are equal.
pub proof fn lemma_handover_tx_unique(
    pool: Seq<Utxo>,
    amounts: Seq<u64>,
    f: int,
    per_tx: int,
    spk: Seq<u8>,
    t: int,
    a: Tx,
    b: Tx,
)
    requires
        handover_tx_ok(pool, amounts, f, per_tx, spk, t, a),
        handover_tx_ok(pool, amounts, f, per_tx, spk, t, b),
    ensures
        a@ == b@,
{
    assert forall|k: int| 0 <= k < a.input@.len() implies (#[trigger] a.input@[k])@ == b.input@[k]@ by {
        assert(a.input@[k].witness@.map_values(|w: Vec<u8>| w@) =~= b.input@[k].witness@.map_values(
            |w: Vec<u8>| w@,
        ));
    }
    assert(a.input@.map_values(|i: Input| i@) =~= b.input@.map_values(|i: Input| i@));
    assert forall|j: int| 0 <= j < a.output@.len() implies (#[trigger] a.output@[j])@ == b.output@[j]@ by {
    }
    assert(a.output@.map_values(|o: Output| o@) =~= b.output@.map_values(|o: Output| o@));
}

} // verus!
