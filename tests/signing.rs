use axelar_btc::sighash::taproot_sighashes;
use axelar_btc::taproot::{create_committee_script, create_unspendable_key};
use axelar_btc::script::CommitteeSpec;
use axelar_btc::tx::{Input, OutPoint, Output, Tx};
use axelar_btc::validator::Validator;
use axelar_btc::witness::finalize_tx_witness;
use axelar_btc::{all_admitted, collect_signatures, get_private_key};

fn sample_tx(inputs: u8) -> (Tx, Vec<Output>) {
    let input = (0..inputs)
        .map(|i| Input { previous_output: OutPoint { txid: [i + 1; 32], vout: i as u32 }, sequence: 0xffffffff, witness: vec![] })
        .collect();
    let prevouts = (0..inputs)
        .map(|i| Output { value: 10_000 * (i as u64 + 1), script_pubkey: vec![0x51, 0x20, i] })
        .collect();
    let tx = Tx { version: 2, lock_time: 0, input, output: vec![Output { value: 5_000, script_pubkey: vec![0x51] }] };
    (tx, prevouts)
}

fn to_bitcoin(tx: &Tx) -> bitcoin::Transaction {
    bitcoin::Transaction {
        version: bitcoin::transaction::Version(tx.version),
        lock_time: bitcoin::absolute::LockTime::from_consensus(tx.lock_time),
        input: tx
            .input
            .iter()
            .map(|i| bitcoin::TxIn {
                previous_output: bitcoin::OutPoint::new(
                    <bitcoin::Txid as bitcoin::hashes::Hash>::from_byte_array(i.previous_output.txid),
                    i.previous_output.vout,
                ),
                script_sig: bitcoin::ScriptBuf::new(),
                sequence: bitcoin::Sequence(i.sequence),
                witness: bitcoin::Witness::new(),
            })
            .collect(),
        output: tx
            .output
            .iter()
            .map(|o| bitcoin::TxOut {
                value: bitcoin::Amount::from_sat(o.value),
                script_pubkey: bitcoin::ScriptBuf::from_bytes(o.script_pubkey.clone()),
            })
            .collect(),
    }
}

fn keyed(i: usize) -> Validator {
    Validator {
        operator_address: format!("op{}", i),
        weight: 1,
        key: get_private_key(i, bitcoin::Network::Regtest),
    }
}

#[test]
fn sighashes_match_rust_bitcoin() {
    let (tx, prevouts) = sample_tx(3);
    let script = vec![0x00, 0x52, 0xa2];
    let hashes = taproot_sighashes(&tx, &prevouts, &script);
    assert_eq!(hashes.len(), 3);

    let btx = to_bitcoin(&tx);
    let bprev: Vec<bitcoin::TxOut> = prevouts
        .iter()
        .map(|o| bitcoin::TxOut {
            value: bitcoin::Amount::from_sat(o.value),
            script_pubkey: bitcoin::ScriptBuf::from_bytes(o.script_pubkey.clone()),
        })
        .collect();
    let leaf = bitcoin::TapLeafHash::from_script(
        bitcoin::Script::from_bytes(&script),
        bitcoin::taproot::LeafVersion::TapScript,
    );
    let mut cache = bitcoin::sighash::SighashCache::new(&btx);
    for (i, h) in hashes.iter().enumerate() {
        let expected = cache
            .taproot_script_spend_signature_hash(
                i,
                &bitcoin::sighash::Prevouts::All(&bprev),
                leaf,
                bitcoin::TapSighashType::Default,
            )
            .unwrap();
        assert_eq!(*h, bitcoin::hashes::Hash::to_byte_array(expected));
    }
    assert_ne!(hashes[0], hashes[1]);
}

#[test]
fn sighashes_are_deterministic() {
    let (tx, prevouts) = sample_tx(2);
    let script = vec![0x00, 0x51, 0xa2];
    let a = taproot_sighashes(&tx, &prevouts, &script);
    let b = taproot_sighashes(&tx.clone(), &prevouts.clone(), &script.clone());
    assert_eq!(a, b);
    let (empty, none) = sample_tx(0);
    assert!(taproot_sighashes(&empty, &none, &script).is_empty());
}

#[test]
fn signatures_verify_under_member_keys() {
    let validators: Vec<Validator> = (0..3).map(keyed).collect();
    let sighashes = vec![[7u8; 32], [9u8; 32]];
    let matrix = collect_signatures(&sighashes, &validators);
    assert_eq!(matrix.len(), 2);
    let secp = bitcoin::key::Secp256k1::verification_only();
    for (i, row) in matrix.iter().enumerate() {
        assert_eq!(row.len(), 3);
        for (j, sig) in row.iter().enumerate() {
            let sig = bitcoin::secp256k1::schnorr::Signature::from_slice(&sig.unwrap()).unwrap();
            let pk = bitcoin::XOnlyPublicKey::from_slice(&validators[j].public_key()).unwrap();
            let msg = bitcoin::secp256k1::Message::from_digest(sighashes[i]);
            assert!(secp.verify_schnorr(&sig, &msg, &pk).is_ok());
        }
    }
}

#[test]
fn member_keys_differ() {
    let a = keyed(0).public_key();
    let b = keyed(1).public_key();
    assert_ne!(a, b);
    assert_eq!(a, keyed(0).public_key());
}

fn committee_of_three() -> (Vec<Validator>, axelar_btc::taproot::CommitteeScript) {
    let validators: Vec<Validator> = (0..3).map(keyed).collect();
    let spec = CommitteeSpec {
        members: validators.iter().map(|v| (v.public_key(), v.weight)).collect(),
        threshold: 2,
    };
    let committee = create_committee_script(&spec, &create_unspendable_key().unwrap());
    (validators, committee)
}

#[test]
fn witness_with_no_signatures_has_empty_slots() {
    let (_, committee) = committee_of_three();
    let (tx, _) = sample_tx(1);
    let signed = finalize_tx_witness(tx.clone(), &vec![vec![None, None, None]], &committee);
    let w = &signed.input[0].witness;
    assert_eq!(w.len(), 5);
    assert!(w[0].is_empty() && w[1].is_empty() && w[2].is_empty());
    assert_eq!(w[3], committee.script);
    assert_eq!(w[4], committee.control_block);
    assert_eq!(signed.output, tx.output);
    assert_eq!(signed.input[0].previous_output, tx.input[0].previous_output);
}

#[test]
fn witness_reverses_committee_order() {
    let (validators, committee) = committee_of_three();
    let (tx, prevouts) = sample_tx(2);
    let sighashes = taproot_sighashes(&tx, &prevouts, &committee.script);
    let full = collect_signatures(&sighashes, &validators);
    let partial: Vec<Vec<Option<[u8; 64]>>> = full.iter().map(|row| vec![row[0], None, row[2]]).collect();
    let signed = finalize_tx_witness(tx, &partial, &committee);
    for (i, input) in signed.input.iter().enumerate() {
        let w = &input.witness;
        assert_eq!(w.len(), 3 + 2);
        assert_eq!(w[0], full[i][2].unwrap().to_vec());
        assert!(w[1].is_empty());
        assert_eq!(w[2], full[i][0].unwrap().to_vec());
        assert_eq!(w[3], committee.script);
        assert_eq!(w[4], committee.control_block);
    }
}

#[test]
fn admission_needs_every_candidate() {
    assert!(all_admitted(&vec![true, true, true]));
    assert!(!all_admitted(&vec![true, false, true]));
    assert!(!all_admitted(&vec![true, true, false]));
    assert!(all_admitted(&vec![]));
}

#[test]
fn sign_sighash_verifies_under_public_key() {
    let v = keyed(5);
    let h = [0x42u8; 32];
    let sig = v.sign_sighash(&h);
    let secp = bitcoin::key::Secp256k1::verification_only();
    let pk = bitcoin::XOnlyPublicKey::from_slice(&v.public_key()).unwrap();
    let s = bitcoin::secp256k1::schnorr::Signature::from_slice(&sig).unwrap();
    assert!(secp.verify_schnorr(&s, &bitcoin::secp256k1::Message::from_digest(h), &pk).is_ok());
    let other = bitcoin::secp256k1::Message::from_digest([0x43u8; 32]);
    assert!(secp.verify_schnorr(&s, &other, &pk).is_err());
}

#[test]
fn private_key_depends_on_seed_and_network() {
    let a = get_private_key(3, bitcoin::Network::Regtest).unwrap();
    let b = get_private_key(3, bitcoin::Network::Regtest).unwrap();
    assert_eq!(a, b);
    assert_ne!(a, get_private_key(4, bitcoin::Network::Regtest).unwrap());
    assert_eq!(
        a,
        bitcoin::bip32::Xpriv::new_master(bitcoin::Network::Regtest, &[3]).unwrap()
    );
}
