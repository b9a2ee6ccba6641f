use axelar_btc::multisig_prover::{MultisigProver, PlanError};
use axelar_btc::tx::{OutPoint, Output, Utxo, SEQUENCE_MAX};
use axelar_btc::user::{User, PEG_IN_FEE};
use axelar_btc::create_op_return;

fn utxo(tag: u8, value: u64) -> Utxo {
    Utxo {
        outpoint: OutPoint { txid: [tag; 32], vout: tag as u32 },
        txout: Output { value, script_pubkey: vec![0x51, 0x20, tag] },
    }
}

fn pool(values: &[u64]) -> MultisigProver {
    MultisigProver {
        available_utxos: values.iter().enumerate().map(|(i, v)| utxo(i as u8, *v)).collect(),
    }
}

const SCRIPT: [u8; 3] = [0x00, 0x52, 0xa2];

/// Room for exactly two outputs of three inputs each.
const TWO_OUTPUTS_OF_THREE: usize = 2 * (3 * (64 * 75 + 84) + 43);

#[test]
fn handover_fan_in_makes_two_transactions() {
    let values: Vec<u64> = (1..=12).map(|i| i * 10_000).collect();
    let prover = pool(&values);
    let new_spk = vec![0x51, 0x20, 0xee];
    let txs = prover
        .create_handover_tx(4, TWO_OUTPUTS_OF_THREE, 1_000, 1, &SCRIPT.to_vec(), &new_spk, 75)
        .unwrap();
    assert_eq!(txs.len(), 2);
    let mut outputs = vec![];
    for (t, (tx, sighashes)) in txs.iter().enumerate() {
        assert_eq!(tx.version, 2);
        assert_eq!(tx.lock_time, 0);
        assert_eq!(tx.input.len(), 6);
        assert_eq!(tx.output.len(), 2);
        assert_eq!(sighashes.len(), 6);
        for (k, input) in tx.input.iter().enumerate() {
            assert_eq!(input.previous_output, prover.available_utxos[t * 6 + k].outpoint);
            assert_eq!(input.sequence, SEQUENCE_MAX);
            assert!(input.witness.is_empty());
        }
        for o in &tx.output {
            assert_eq!(o.script_pubkey, new_spk);
            outputs.push(o.value);
        }
    }
    assert_eq!(outputs, vec![60_000 - 1_000, 150_000, 240_000, 330_000]);
}

#[test]
fn handover_fee_skips_small_groups() {
    let prover = pool(&[100, 200, 300, 5_000]);
    let txs = prover.create_handover_tx(4, 1_000_000, 1_000, 10, &SCRIPT.to_vec(), &vec![0x51], 75).unwrap();
    assert_eq!(txs.len(), 1);
    let amounts: Vec<u64> = txs[0].0.output.iter().map(|o| o.value).collect();
    assert_eq!(amounts, vec![100, 200, 300, 4_000]);
}

#[test]
fn handover_fee_insolvent() {
    let prover = pool(&[100, 200, 300]);
    let r = prover.create_handover_tx(2, 1_000_000, 1_000, 10, &SCRIPT.to_vec(), &vec![0x51], 75);
    assert_eq!(r.err(), Some(PlanError::FeeInsolvent));
    let empty = pool(&[]);
    let r = empty.create_handover_tx(2, 1_000_000, 1_000, 10, &SCRIPT.to_vec(), &vec![0x51], 75);
    assert_eq!(r.err(), Some(PlanError::FeeInsolvent));
}

#[test]
fn handover_pool_after_fits_transactions() {
    for (n, m) in [(12usize, 4usize), (8, 4), (3, 5), (9, 3)] {
        let values: Vec<u64> = (0..n as u64).map(|i| 10_000 + i).collect();
        let prover = pool(&values);
        let txs = prover.create_handover_tx(m, TWO_OUTPUTS_OF_THREE, 1_000, 1, &SCRIPT.to_vec(), &vec![0x51], 75).unwrap();
        let pool_after: usize = txs.iter().map(|(tx, _)| tx.output.len()).sum();
        assert!(pool_after <= m * txs.len());
    }
}

#[test]
fn handover_of_three_with_two_outputs_exceeds_max_output_no() {
    let prover = pool(&[10_000, 20_000, 30_000]);
    let txs = prover.create_handover_tx(2, 1_000_000, 1_000, 1, &SCRIPT.to_vec(), &vec![0x51], 75).unwrap();
    assert_eq!(txs.len(), 1);
    assert_eq!(txs[0].0.output.len(), 3);
}

#[test]
fn peg_out_change() {
    let mut prover = pool(&[100_000]);
    let receiver = vec![0x00, 0x14, 0xaa];
    let committee_spk = vec![0x51, 0x20, 0xcc];
    let (tx, sighashes) = prover
        .create_peg_out_tx(10, vec![(40_000, receiver.clone())], &SCRIPT.to_vec(), &committee_spk)
        .unwrap();
    // One input of 58 vbytes at 10 sat/vbyte on top of the payout.
    assert_eq!(tx.input.len(), 1);
    assert_eq!(tx.output.len(), 2);
    assert_eq!(tx.output[0], Output { value: 40_000, script_pubkey: receiver });
    assert_eq!(tx.output[1], Output { value: 100_000 - 40_580, script_pubkey: committee_spk });
    assert_eq!(sighashes.len(), 1);
    assert!(prover.available_utxos.is_empty());
}

#[test]
fn peg_out_pops_from_the_end() {
    let mut prover = pool(&[50_000, 20_000, 20_000]);
    let (inputs, prevouts, outputs, change) = prover
        .consume_utxos(vec![(40_000, vec![0x01]), (5_000, vec![0x02])], 5, 10)
        .unwrap();
    // 20_000 twice falls short of 45_000 + 2 * 290; 50_000 more covers it.
    assert_eq!(inputs.len(), 3);
    assert_eq!(inputs[0].previous_output.vout, 2);
    assert_eq!(inputs[2].previous_output.vout, 0);
    assert_eq!(prevouts[0].value, 20_000);
    assert_eq!(outputs.len(), 2);
    assert_eq!(change, 90_000 - (45_000 + 3 * 5 * 58));
    assert!(prover.available_utxos.is_empty());
}

#[test]
fn peg_out_keeps_unused_utxos() {
    let mut prover = pool(&[50_000, 30_000]);
    let (inputs, _, _, change) = prover.consume_utxos(vec![(10_000, vec![0x01])], 1, 10).unwrap();
    assert_eq!(inputs.len(), 1);
    assert_eq!(change, 30_000 - 10_058);
    assert_eq!(prover.available_utxos.len(), 1);
    assert_eq!(prover.available_utxos[0].txout.value, 50_000);
}

#[test]
fn peg_out_pool_exhausted() {
    let mut prover = pool(&[1_000, 2_000]);
    let r = prover.create_peg_out_tx(1, vec![(5_000, vec![0x01])], &SCRIPT.to_vec(), &vec![0x51]);
    assert_eq!(r.err(), Some(PlanError::PoolExhausted));
}

#[test]
fn peg_out_with_nothing_to_pay_takes_no_input() {
    let mut prover = pool(&[1_000]);
    let (tx, sighashes) = prover.create_peg_out_tx(1, vec![], &SCRIPT.to_vec(), &vec![0x51]).unwrap();
    assert!(tx.input.is_empty());
    assert_eq!(tx.output, vec![Output { value: 0, script_pubkey: vec![0x51] }]);
    assert!(sighashes.is_empty());
    assert_eq!(prover.available_utxos.len(), 1);
}

#[test]
fn op_return_carries_payload() {
    let script = create_op_return();
    let payload = b"ethereum:0x0000000000000000000000000000000000000000:foobar";
    let mut expected = vec![0x6a, payload.len() as u8];
    expected.extend_from_slice(payload);
    assert_eq!(script, expected);
}

#[test]
fn peg_in_splits_deposit() {
    let deposit = utxo(9, 5_000_000_000);
    let committee_spk = vec![0x51, 0x20, 0x77];
    let tx = User::peg_in(deposit.clone(), &committee_spk);
    assert_eq!(tx.input.len(), 1);
    assert_eq!(tx.input[0].previous_output, deposit.outpoint);
    assert_eq!(tx.output.len(), 3);
    let each = 2_500_000_000 - PEG_IN_FEE / 2;
    assert_eq!(tx.output[0], Output { value: each, script_pubkey: committee_spk.clone() });
    assert_eq!(tx.output[1], Output { value: each, script_pubkey: committee_spk });
    assert_eq!(tx.output[2], Output { value: 0, script_pubkey: create_op_return() });
}

#[test]
fn handover_size_follows_committee_size() {
    let values: Vec<u64> = (1..=4).map(|i| i * 10_000).collect();
    let prover = pool(&values);
    // A one-member committee's input: 64 + 84 bytes; two outputs of one input fit in 2 * 191.
    let small = prover.create_handover_tx(4, 2 * (148 + 43), 1_000, 1, &SCRIPT.to_vec(), &vec![0x51], 1).unwrap();
    assert_eq!(small.len(), 2);
    assert_eq!(small[0].0.output.len(), 2);
    let larger = prover.create_handover_tx(4, 2 * (148 + 43), 1_000, 1, &SCRIPT.to_vec(), &vec![0x51], 2).unwrap();
    assert_eq!(larger.len(), 4);
}
