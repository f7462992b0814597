//! Library-wide properties exercised on concrete values: the basis
//! bijection, the correction bound, over-threshold rejection, determinism,
//! and full restoration of a corrupted block.
use ccsds_rs::dual_basis::{to_conv, to_dual};
use ccsds_rs::{correct_message, has_errors, RSState};

// RS message, no pn
const FIXTURE_MSG: &[u8; 255] = &[
    0x67, 0xc4, 0x6b, 0xa7, 0x3e, 0xbe, 0x4c, 0x33, 0x6c, 0xb2, 0x23, 0x3a, 0x74, 0x06, 0x2b,
    0x18, 0xab, 0xb8, 0x09, 0xe6, 0x7d, 0xaf, 0x5d, 0xe5, 0xdf, 0x76, 0x25, 0x3f, 0xb9, 0x14,
    0xee, 0xec, 0xd1, 0xa3, 0x39, 0x5f, 0x38, 0x68, 0xf0, 0x26, 0xa6, 0x8a, 0xcb, 0x09, 0xaf,
    0x4e, 0xf8, 0x93, 0xf7, 0x45, 0x4b, 0x0d, 0xa9, 0xb8, 0x74, 0x0e, 0xf3, 0xc7, 0xed, 0x6e,
    0xa3, 0x0f, 0xf6, 0x79, 0x94, 0x16, 0xe2, 0x7f, 0xad, 0x91, 0x91, 0x04, 0xac, 0xa4, 0xae,
    0xb4, 0x51, 0x76, 0x2f, 0x62, 0x03, 0x5e, 0xa1, 0xe5, 0x5c, 0x45, 0xf8, 0x1f, 0x7a, 0x7b,
    0xe8, 0x35, 0xd8, 0xcc, 0x51, 0x0e, 0xae, 0x3a, 0x2a, 0x64, 0x1d, 0x03, 0x10, 0xcd, 0x18,
    0xe6, 0x7f, 0xef, 0xba, 0xd9, 0xe8, 0x98, 0x47, 0x82, 0x9c, 0xa1, 0x58, 0x47, 0x25, 0xdf,
    0x41, 0xd2, 0x01, 0x62, 0x3c, 0x24, 0x88, 0x90, 0xe9, 0xd7, 0x38, 0x1b, 0xa0, 0xa2, 0xb4,
    0x23, 0xea, 0x7e, 0x58, 0x0d, 0xf4, 0x61, 0x24, 0x14, 0xb0, 0x41, 0x90, 0x0c, 0xb7, 0xbb,
    0x5c, 0x59, 0x1b, 0xc6, 0x69, 0x24, 0x0f, 0xb6, 0x0e, 0x14, 0xa1, 0xb1, 0x8e, 0x48, 0x0f,
    0x17, 0x1d, 0xfb, 0x0f, 0x38, 0x42, 0xe3, 0x24, 0x58, 0xab, 0x82, 0xa8, 0xfd, 0xdf, 0xac,
    0x68, 0x93, 0x3d, 0x0d, 0x8f, 0x50, 0x52, 0x44, 0x6c, 0xba, 0xd3, 0x51, 0x99, 0x9c, 0x3e,
    0xad, 0xd5, 0xa8, 0xd7, 0x9d, 0xc7, 0x7f, 0x9f, 0xc9, 0x2a, 0xac, 0xe5, 0xc2, 0xcd, 0x9a,
    0x9b, 0xfa, 0x2d, 0x72, 0xab, 0x6b, 0xa4, 0x6b, 0x8b, 0x7d, 0xfa, 0x6c, 0x83, 0x63, 0x77,
    0x9f, 0x4e, 0x9a, 0x20, 0x35, 0xd2, 0x91, 0xce, 0xf4, 0x21, 0x1a, 0x97, 0x3c, 0x1a, 0x15,
    0x9d, 0xfc, 0x98, 0xba, 0x72, 0x1b, 0x9a, 0xa2, 0xe9, 0xc9, 0x46, 0x68, 0xce, 0xad, 0x27,
];

#[test]
fn basis_roundtrip_all_bytes() {
    for x in 0..=255u8 {
        let one = [x];
        assert_eq!(to_dual(&to_conv(&one)), vec![x]);
        assert_eq!(to_conv(&to_dual(&one)), vec![x]);
    }
}

#[test]
fn detection_matches_correction() {
    assert!(!has_errors(FIXTURE_MSG));
    let mut msg = FIXTURE_MSG.clone();
    msg[100] ^= 0x55;
    assert!(has_errors(&msg));
}

#[test]
fn corrected_block_restores_original() {
    let mut msg = FIXTURE_MSG.clone();
    msg[0] = 0;
    msg[2] = 2;
    msg[4] = 2;
    msg[6] = 2;

    let block = correct_message(&msg);
    assert_eq!(block.state, RSState::Corrected(4));
    assert_eq!(block.message.unwrap(), FIXTURE_MSG.to_vec());
}

#[test]
fn correction_bound_up_to_sixteen() {
    // exactly 16 corrupted symbols at distinct positions are repaired
    let mut msg = FIXTURE_MSG.clone();
    for k in 0..16 {
        msg[5 * k] ^= (k as u8) + 1;
    }
    let block = correct_message(&msg);
    assert_eq!(block.state, RSState::Corrected(16));
    assert_eq!(block.message.unwrap(), FIXTURE_MSG.to_vec());
}

#[test]
fn over_threshold_is_uncorrectable() {
    let mut msg = FIXTURE_MSG.clone();
    for k in 0..20 {
        msg[7 * k] ^= 0xa5;
    }
    let block = correct_message(&msg);
    assert!(matches!(block.state, RSState::Uncorrectable(_)));
    assert!(block.message.is_none());
}

#[test]
fn decode_is_deterministic() {
    let mut msg = FIXTURE_MSG.clone();
    msg[10] ^= 0x0f;
    msg[200] ^= 0xf0;
    let b1 = correct_message(&msg);
    let b2 = correct_message(&msg);
    assert_eq!(b1.state, b2.state);
    assert_eq!(b1.message, b2.message);
}

#[test]
fn wrong_length_is_rejected() {
    let short = [0u8; 10];
    let block = correct_message(&short);
    assert_eq!(
        block.state,
        RSState::Uncorrectable("invalid input".to_string())
    );
    assert!(block.message.is_none());

    let long = [0u8; 256];
    let block = correct_message(&long);
    assert_eq!(
        block.state,
        RSState::Uncorrectable("invalid input".to_string())
    );
    assert!(block.message.is_none());
}

#[test]
fn over_threshold_reason_names_the_count() {
    // enough corruption that the locator's degree itself exceeds the bound
    let mut msg = FIXTURE_MSG.clone();
    for k in 0..100 {
        msg[2 * k] ^= 0x3c;
    }
    let block = correct_message(&msg);
    match block.state {
        RSState::Uncorrectable(reason) => {
            assert!(
                reason.starts_with("too many errors to correct; expected no more than 16, found ")
                    || reason.starts_with("failed to generate error positions; expected ")
                    || reason == "failed to correct all errors"
                    || reason == "failed to find error magnitude",
                "unexpected reason: {}",
                reason
            );
        }
        other => panic!("expected an uncorrectable block, got {:?}", other),
    }
    assert!(block.message.is_none());
}
