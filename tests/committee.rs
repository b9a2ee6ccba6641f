use axelar_btc::script::{committee_script, CommitteeSpec};
use axelar_btc::taproot::{create_committee, create_committee_script, create_unspendable_key};
use axelar_btc::validator::{
    get_multisig_setup, select_chain_maintainers, set_threshold_and_weights, SetupError, Validator,
};
use axelar_btc::{handover_input_size, MAX_BTC_INT};

fn validator(address: &str, weight: i64) -> Validator {
    Validator { operator_address: address.to_string(), weight, key: None }
}

fn three_member_spec() -> CommitteeSpec {
    CommitteeSpec { members: vec![([1u8; 32], 1), ([2u8; 32], 1), ([3u8; 32], 1)], threshold: 2 }
}

fn member_block(key: u8, weight_push: &[u8]) -> Vec<u8> {
    let mut b = vec![0x7c, 0x20];
    b.extend_from_slice(&[key; 32]);
    b.extend_from_slice(&[0xac, 0x63]);
    b.extend_from_slice(weight_push);
    b.extend_from_slice(&[0x67, 0x00, 0x68, 0x93]);
    b
}

#[test]
fn script_bytes_fixture() {
    let script = committee_script(&three_member_spec());
    let mut expected = vec![0x00];
    for k in 1..=3u8 {
        expected.extend(member_block(k, &[0x51]));
    }
    expected.extend_from_slice(&[0x52, 0xa2]);
    assert_eq!(script, expected);
}

#[test]
fn script_pushes_large_weights_as_numbers() {
    let spec = CommitteeSpec {
        members: vec![([7u8; 32], 17), ([8u8; 32], 128), ([9u8; 32], MAX_BTC_INT)],
        threshold: MAX_BTC_INT,
    };
    let script = committee_script(&spec);
    let mut expected = vec![0x00];
    expected.extend(member_block(7, &[0x01, 0x11]));
    expected.extend(member_block(8, &[0x02, 0x80, 0x00]));
    expected.extend(member_block(9, &[0x04, 0xff, 0xff, 0xff, 0x7f]));
    expected.extend_from_slice(&[0x04, 0xff, 0xff, 0xff, 0x7f, 0xa2]);
    assert_eq!(script, expected);
}

#[test]
fn script_of_zero_weight_member_pushes_zero() {
    let spec = CommitteeSpec { members: vec![([5u8; 32], 0), ([6u8; 32], 16)], threshold: 16 };
    let script = committee_script(&spec);
    let mut expected = vec![0x00];
    expected.extend(member_block(5, &[0x00]));
    expected.extend(member_block(6, &[0x60]));
    expected.extend_from_slice(&[0x60, 0xa2]);
    assert_eq!(script, expected);
}

#[test]
fn unspendable_key_is_generator_x_plus_one() {
    let key = create_unspendable_key().expect("a point");
    let mut expected = [
        0x79, 0xbe, 0x66, 0x7e, 0xf9, 0xdc, 0xbb, 0xac, 0x55, 0xa0, 0x62, 0x95, 0xce, 0x87, 0x0b, 0x07,
        0x02, 0x9b, 0xfc, 0xdb, 0x2d, 0xce, 0x28, 0xd9, 0x59, 0xf2, 0x81, 0x5b, 0x16, 0xf8, 0x17, 0x98,
    ];
    expected[31] += 1;
    assert_eq!(key, expected);
    assert!(bitcoin::XOnlyPublicKey::from_slice(&key).is_ok());
}

#[test]
fn committee_output_matches_taproot_commitment() {
    let internal = create_unspendable_key().unwrap();
    let spec = three_member_spec();
    let committee = create_committee_script(&spec, &internal);
    assert_eq!(committee.script, committee_script(&spec));
    assert_eq!(committee.internal_key, internal);

    let secp = bitcoin::key::Secp256k1::verification_only();
    let key = bitcoin::XOnlyPublicKey::from_slice(&internal).unwrap();
    let info = bitcoin::taproot::TaprootBuilder::new()
        .add_leaf(0, bitcoin::ScriptBuf::from_bytes(committee.script.clone()))
        .unwrap()
        .finalize(&secp, key)
        .unwrap();
    let expected = bitcoin::ScriptBuf::new_p2tr_tweaked(info.output_key());
    assert_eq!(committee.script_pubkey, expected.to_bytes());
    assert_eq!(committee.script_pubkey.len(), 34);
    assert_ne!(committee.script_pubkey[2..].to_vec(), internal.to_vec());

    let leaf = (bitcoin::ScriptBuf::from_bytes(committee.script.clone()), bitcoin::taproot::LeafVersion::TapScript);
    let control = info.control_block(&leaf).unwrap();
    assert_eq!(committee.control_block, control.serialize());
}

#[test]
fn committee_script_is_pure() {
    let internal = create_unspendable_key().unwrap();
    let a = create_committee_script(&three_member_spec(), &internal);
    let b = create_committee_script(&three_member_spec(), &internal);
    assert_eq!(a.script, b.script);
    assert_eq!(a.script_pubkey, b.script_pubkey);
    let other = CommitteeSpec { members: vec![([1u8; 32], 1), ([2u8; 32], 1), ([3u8; 32], 1)], threshold: 3 };
    let c = create_committee_script(&other, &internal);
    assert_ne!(a.script, c.script);
    assert_ne!(a.script_pubkey, c.script_pubkey);
}

#[test]
fn calibration_overflow_shifts_once() {
    let w = 1i64 << 30;
    let mut vs = vec![validator("a", w), validator("b", w), validator("c", w)];
    let threshold = set_threshold_and_weights(&mut vs).unwrap();
    assert_eq!(threshold, 1i64 << 30);
    for v in &vs {
        assert_eq!(v.weight, 1i64 << 29);
    }
    assert_eq!(vs[0].operator_address, "a");
    assert_eq!(vs[2].operator_address, "c");
}

#[test]
fn calibration_without_overflow_keeps_weights() {
    let mut vs = vec![validator("a", 10), validator("b", 20), validator("c", 1)];
    let threshold = set_threshold_and_weights(&mut vs).unwrap();
    assert_eq!(threshold, 31 / 3 * 2);
    assert_eq!(vs.iter().map(|v| v.weight).collect::<Vec<_>>(), vec![10, 20, 1]);
}

#[test]
fn calibration_of_huge_weights_fits_script_numbers() {
    let mut vs = vec![validator("a", i64::MAX / 2), validator("b", i64::MAX / 4), validator("c", 3)];
    let threshold = set_threshold_and_weights(&mut vs).unwrap();
    let sum: i64 = vs.iter().map(|v| v.weight).sum();
    assert!(0 <= threshold && threshold <= MAX_BTC_INT);
    assert!(sum >= threshold);
    assert!(threshold >= 2 * sum / 3 - 1);
    assert_eq!(vs[2].weight, 0);
}

#[test]
fn calibration_shifts_an_oversized_weight() {
    let mut vs = vec![validator("big", 3 * (1i64 << 30) - 1)];
    let threshold = set_threshold_and_weights(&mut vs).unwrap();
    assert_eq!(vs[0].weight, 1_610_612_735);
    assert!(vs[0].weight <= MAX_BTC_INT);
    assert_eq!(threshold, 1_073_741_822);
}

#[test]
fn calibration_of_empty_committee() {
    let mut vs: Vec<Validator> = vec![];
    assert_eq!(set_threshold_and_weights(&mut vs), Err(SetupError::CalibrationImpossible));
    let mut zeros = vec![validator("a", 0), validator("b", 0)];
    assert_eq!(set_threshold_and_weights(&mut zeros), Err(SetupError::CalibrationImpossible));
    assert_eq!(zeros[1].weight, 0);
}

#[test]
fn multisig_setup_calibrates() {
    let w = 1i64 << 31;
    let (committee, threshold) = get_multisig_setup(vec![validator("x", w), validator("y", w)]).unwrap();
    assert_eq!(threshold, 1_431_655_764);
    assert_eq!(committee[0].weight, 1i64 << 30);
    assert_eq!(committee[1].weight, 1i64 << 30);
}

#[test]
fn multisig_setup_refuses_zero_weight() {
    let r = get_multisig_setup(vec![validator("x", 0), validator("y", 0)]);
    assert_eq!(r.err(), Some(SetupError::CalibrationImpossible));
    assert_eq!(get_multisig_setup(vec![]).err(), Some(SetupError::CalibrationImpossible));
    let (_, threshold) = get_multisig_setup(vec![validator("x", 0), validator("y", 1)]).unwrap();
    assert_eq!(threshold, 0);
}

#[test]
fn maintainers_are_selected_in_order() {
    let vs = vec![validator("v1", 1), validator("v2", 2), validator("v3", 3), validator("v4", 4)];
    let maintainers = vec!["v4".to_string(), "v2".to_string(), "nobody".to_string()];
    let selected = select_chain_maintainers(vs, &maintainers);
    let names: Vec<&str> = selected.iter().map(|v| v.operator_address.as_str()).collect();
    assert_eq!(names, vec!["v2", "v4"]);
    assert!(select_chain_maintainers(vec![validator("v1", 1)], &vec![]).is_empty());
}

#[test]
fn handover_input_size_formula() {
    assert_eq!(handover_input_size(75), 64 * 75 + 42 + 42);
    assert_eq!(handover_input_size(0), 84);
}

#[test]
fn committee_uses_the_unspendable_key() {
    let spec = three_member_spec();
    let committee = create_committee(&spec).unwrap();
    assert_eq!(committee.internal_key, create_unspendable_key().unwrap());
    assert_eq!(committee.script, committee_script(&spec));
    let direct = create_committee_script(&spec, &committee.internal_key);
    assert_eq!(committee.script_pubkey, direct.script_pubkey);
    assert_eq!(committee.control_block[1..].to_vec(), committee.internal_key.to_vec());
    assert!(committee.control_block[0] == 0xc0 || committee.control_block[0] == 0xc1);
}
