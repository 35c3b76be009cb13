//! Tests of the dispatcher, the assembler, and the verification boundary's
//! preparation and conclusion steps.

use stark_boundary::bundle::assemble;
use stark_boundary::errors::{DecodeError, VerifyError};
use stark_boundary::wire::{decode_record, encode_record, WireRecord};
use stark_boundary::{
    conclude_verification, parse_vm_type, prepare_verification, MachineOutcome, VMType,
};

fn bundle_bytes(segments: Vec<Vec<u8>>, keys: Vec<Vec<u8>>, pv: Option<Vec<u8>>) -> Vec<u8> {
    encode_record(&WireRecord { segments, verifying_keys: keys, public_values: pv })
}

fn key_bytes(key: Vec<u8>) -> Vec<u8> {
    stark_boundary::wire::encode_key(&key)
}

#[test]
fn known_tags_resolve() {
    assert_eq!(parse_vm_type("Pico"), Ok(VMType::Pico));
    assert_eq!(parse_vm_type("PicoPrism"), Ok(VMType::PicoPrism));
}

#[test]
fn unknown_tag_rejected() {
    assert_eq!(parse_vm_type("UnknownTag"), Err(VerifyError::UnsupportedVariant));
    assert_eq!(parse_vm_type(""), Err(VerifyError::UnsupportedVariant));
    // tags are case-sensitive literals
    assert_eq!(parse_vm_type("pico"), Err(VerifyError::UnsupportedVariant));
    assert_eq!(parse_vm_type("PICOPRISM"), Err(VerifyError::UnsupportedVariant));
}

#[test]
fn unknown_tag_rejected_whatever_the_bytes() {
    // the tag is checked first: arbitrary junk bytes never change the error
    let r = prepare_verification("UnknownTag", &[1u8, 2, 3], &[4u8]);
    assert_eq!(r, Err(VerifyError::UnsupportedVariant));
    let valid = bundle_bytes(vec![vec![1u8]], vec![vec![2u8]], None);
    let r2 = prepare_verification("UnknownTag", &valid, &key_bytes(vec![9u8]));
    assert_eq!(r2, Err(VerifyError::UnsupportedVariant));
}

#[test]
fn prepare_succeeds_on_well_formed_input() {
    let proof = bundle_bytes(
        vec![vec![1u8, 2], vec![3u8]],
        vec![vec![10u8], vec![20u8, 30]],
        Some(vec![5u8, 5]),
    );
    let vk = key_bytes(vec![77u8, 88]);
    let req = prepare_verification("Pico", &proof, &vk).expect("well-formed input must prepare");
    assert_eq!(req.vm_type, VMType::Pico);
    assert_eq!(req.bundle.segments, vec![vec![1u8, 2], vec![3u8]]);
    assert_eq!(req.bundle.verifying_keys, vec![vec![10u8], vec![20u8, 30]]);
    assert_eq!(req.bundle.public_values, Some(vec![5u8, 5]));
    assert_eq!(req.riscv_vk, vec![77u8, 88]);

    let req2 = prepare_verification("PicoPrism", &proof, &vk).expect("must prepare");
    assert_eq!(req2.vm_type, VMType::PicoPrism);
}

#[test]
fn prepare_rejects_malformed_proof_bytes() {
    let vk = key_bytes(vec![1u8]);
    let r = prepare_verification("Pico", &[0u8, 1, 2], &vk);
    assert_eq!(r, Err(VerifyError::Decode(DecodeError::UnexpectedEnd)));
}

#[test]
fn prepare_rejects_malformed_key_bytes() {
    let proof = bundle_bytes(vec![vec![1u8]], vec![vec![2u8]], None);
    let r = prepare_verification("Pico", &proof, &[0u8, 1, 2]);
    assert_eq!(r, Err(VerifyError::Decode(DecodeError::UnexpectedEnd)));
}

#[test]
fn assembly_fails_on_count_mismatch() {
    let proof = bundle_bytes(vec![vec![1u8], vec![2u8]], vec![vec![3u8]], None);
    let vk = key_bytes(vec![9u8]);
    let r = prepare_verification("Pico", &proof, &vk);
    assert_eq!(r, Err(VerifyError::Assembly { segment_count: 2, key_count: 1 }));

    let record = decode_record(&proof).expect("outer frame decodes");
    let direct = assemble(record);
    assert_eq!(direct, Err(VerifyError::Assembly { segment_count: 2, key_count: 1 }));
}

#[test]
fn assembly_succeeds_when_counts_match() {
    let proof = bundle_bytes(vec![vec![1u8], vec![2u8]], vec![vec![3u8], vec![4u8]], None);
    let record = decode_record(&proof).expect("outer frame decodes");
    let bundle = assemble(record).expect("matching counts must assemble");
    assert_eq!(bundle.segment_count(), 2);
    assert_eq!(bundle.segments, vec![vec![1u8], vec![2u8]]);
    assert_eq!(bundle.verifying_keys, vec![vec![3u8], vec![4u8]]);
}

#[test]
fn conclude_maps_each_outcome() {
    assert_eq!(conclude_verification(MachineOutcome::Accepted), Ok(true));
    assert_eq!(conclude_verification(MachineOutcome::Rejected), Ok(false));
    assert_eq!(
        conclude_verification(MachineOutcome::Failed(String::from("constraint mismatch"))),
        Err(VerifyError::VerificationFailure(String::from("constraint mismatch")))
    );
}

#[test]
fn prepare_is_idempotent() {
    let proof = bundle_bytes(vec![vec![6u8]], vec![vec![7u8]], Some(vec![8u8]));
    let vk = key_bytes(vec![3u8]);
    assert_eq!(
        prepare_verification("Pico", &proof, &vk),
        prepare_verification("Pico", &proof, &vk)
    );
    assert_eq!(
        prepare_verification("Nope", &proof, &vk),
        prepare_verification("Nope", &proof, &vk)
    );
    let junk: Vec<u8> = vec![1u8, 2, 3];
    assert_eq!(
        prepare_verification("Pico", &junk, &vk),
        prepare_verification("Pico", &junk, &vk)
    );
    assert_eq!(
        conclude_verification(MachineOutcome::Rejected),
        conclude_verification(MachineOutcome::Rejected)
    );
}

#[test]
fn corrupted_segment_reaches_the_machine_differently() {
    // flipping one byte inside a segment leaves the outer frame intact: the
    // bundle still prepares, but the segment handed to the machine differs,
    // so only the machine's own verdict can make the proof pass
    let proof = bundle_bytes(vec![vec![1u8, 2, 3, 4]], vec![vec![9u8]], None);
    let vk = key_bytes(vec![9u8]);
    let clean = prepare_verification("Pico", &proof, &vk).expect("must prepare");

    let mut flipped = proof.clone();
    let len: usize = flipped.len();
    // the first segment's bytes start after the list count frame (8 bytes)
    // and the segment's own length frame (8 bytes)
    flipped[16] ^= 0xffu8;
    assert_eq!(len, flipped.len());
    let corrupt = prepare_verification("Pico", &flipped, &vk).expect("frame is still intact");
    assert_ne!(clean.bundle.segments, corrupt.bundle.segments);
}
