//! Verification boundary for multi-segment STARK proof bundles.
//!
//! The library decodes a length-prefixed wire encoding of a proof bundle
//! (proof segments, their verifying keys, and optional public values) and of
//! a stand-alone verifying key, assembles the bundle while checking its
//! segment/key pairing invariant, and resolves a caller-supplied variant tag
//! to the supported VM family. The cryptographic check itself is done by an
//! external verification machine; the boundary prepares its input and maps
//! its outcome, so the embedding runtime only runs the machine between
//! [`prepare_verification`] and [`conclude_verification`].

use vstd::prelude::*;

pub mod bundle;
pub mod errors;
pub mod wire;

use crate::bundle::{spec_assemble, assemble, ProofBundle};
use crate::errors::VerifyError;
use crate::wire::{decode_key, decode_record, spec_decode_key, spec_decode_record, WireModel};

verus! {

/// The supported VM families: single-device proving and the multi-device
/// (distributed) proving variant.
#[derive(Debug, Clone, Copy, PartialEq, Eq, Structural)]
pub enum VMType {
    Pico,
    PicoPrism,
}

/// What [`parse_vm_type`] returns for a given tag: the two recognized tags
/// are the literal, case-sensitive family names; everything else is rejected
/// before any byte is looked at.
pub open spec fn spec_parse_vm_type(tag: Seq<char>) -> Result<VMType, VerifyError> {
    if tag == "Pico"@ {
        Ok(VMType::Pico)
    } else if tag == "PicoPrism"@ {
        Ok(VMType::PicoPrism)
    } else {
        Err(VerifyError::UnsupportedVariant)
    }
}

/// Resolve a caller-supplied variant tag to a VM family, or fail with
/// `UnsupportedVariant`.
pub fn parse_vm_type(tag: &str) -> (r: Result<VMType, VerifyError>)
    ensures
        r == spec_parse_vm_type(tag@),
{
    let owned = tag.to_owned();
    if owned == "Pico".to_owned() {
        Ok(VMType::Pico)
    } else if owned == "PicoPrism".to_owned() {
        Ok(VMType::PicoPrism)
    } else {
        Err(VerifyError::UnsupportedVariant)
    }
}

/// Everything the external verification machine needs for one call, as
/// mathematical values.
pub ghost struct RequestModel {
    pub vm_type: VMType,
    pub bundle: WireModel,
    pub riscv_vk: Seq<u8>,
}

/// Everything the external verification machine needs for one call: the
/// resolved VM family, the assembled proof bundle, and the decoded RISC-V
/// verifying key.
#[derive(Debug, Clone, PartialEq, Eq)]
pub struct VerificationRequest {
    pub vm_type: VMType,
    pub bundle: ProofBundle,
    pub riscv_vk: Vec<u8>,
}

impl View for VerificationRequest {
    type V = RequestModel;

    open spec fn view(&self) -> RequestModel {
        RequestModel { vm_type: self.vm_type, bundle: self.bundle@, riscv_vk: self.riscv_vk@ }
    }
}

/// What [`prepare_verification`] returns: the variant is resolved first —
/// an unknown tag is rejected before either byte string is decoded — then
/// the bundle bytes are decoded, then the key bytes, then the bundle is
/// assembled; the first failure is the result.
pub open spec fn spec_prepare(
    tag: Seq<char>,
    proof_bytes: Seq<u8>,
    vk_bytes: Seq<u8>,
) -> Result<RequestModel, VerifyError> {
    match spec_parse_vm_type(tag) {
        Err(e) => Err(e),
        Ok(vm) => match spec_decode_record(proof_bytes) {
            Err(e) => Err(VerifyError::Decode(e)),
            Ok(rec) => match spec_decode_key(vk_bytes) {
                Err(e) => Err(VerifyError::Decode(e)),
                Ok(key) => match spec_assemble(rec) {
                    Err(e) => Err(e),
                    Ok(b) => Ok(RequestModel { vm_type: vm, bundle: b, riscv_vk: key }),
                },
            },
        },
    }
}

/// Resolve the variant tag, decode the proof-bundle and verifying-key byte
/// strings, and assemble the bundle, failing fast in that order; on success
/// the request holds exactly what stood in the two byte strings.
pub fn prepare_verification(
    vm_type: &str,
    proof_bytes: &[u8],
    riscv_vk_bytes: &[u8],
) -> (r: Result<VerificationRequest, VerifyError>)
    ensures
        match r {
            Ok(req) => spec_prepare(vm_type@, proof_bytes@, riscv_vk_bytes@) == Ok::<
                _,
                VerifyError,
            >(req@),
            Err(e) => spec_prepare(vm_type@, proof_bytes@, riscv_vk_bytes@) == Err::<
                RequestModel,
                _,
            >(e),
        },
{
    let vm = match parse_vm_type(vm_type) {
        Ok(v) => v,
        Err(e) => {
            return Err(e);
        },
    };
    let record = match decode_record(proof_bytes) {
        Ok(rec) => rec,
        Err(e) => {
            return Err(VerifyError::Decode(e));
        },
    };
    let key = match decode_key(riscv_vk_bytes) {
        Ok(k) => k,
        Err(e) => {
            return Err(VerifyError::Decode(e));
        },
    };
    let bundle = match assemble(record) {
        Ok(b) => b,
        Err(e) => {
            return Err(e);
        },
    };
    Ok(VerificationRequest { vm_type: vm, bundle, riscv_vk: key })
}

/// What the external verification machine reported for one call.
#[derive(Debug, Clone, PartialEq, Eq)]
pub enum MachineOutcome {
    /// The machine accepted the proof for the key.
    Accepted,
    /// The machine ran to completion and found the proof invalid.
    Rejected,
    /// The machine stopped with an internal fault; its message is carried
    /// verbatim.
    Failed(String),
}

/// What [`conclude_verification`] returns: the boolean validity verdict for
/// a machine that reached one, and a `VerificationFailure` carrying the
/// machine's message for a machine that faulted — a fault is propagated as
/// an error, never collapsed into `false`.
pub open spec fn spec_conclude(outcome: MachineOutcome) -> Result<bool, VerifyError> {
    match outcome {
        MachineOutcome::Accepted => Ok(true),
        MachineOutcome::Rejected => Ok(false),
        MachineOutcome::Failed(m) => Err(VerifyError::VerificationFailure(m)),
    }
}

/// Map the machine's outcome into the boundary's result.
pub fn conclude_verification(outcome: MachineOutcome) -> (r: Result<bool, VerifyError>)
    ensures
        r == spec_conclude(outcome),
{
    match outcome {
        MachineOutcome::Accepted => Ok(true),
        MachineOutcome::Rejected => Ok(false),
        MachineOutcome::Failed(m) => Err(VerifyError::VerificationFailure(m)),
    }
}

/// The whole boundary as a function of its inputs and of what the machine
/// answered when it was consulted: preparation failures are surfaced as they
/// are, and otherwise the machine's outcome decides.
pub open spec fn spec_verify_stark(
    tag: Seq<char>,
    proof_bytes: Seq<u8>,
    vk_bytes: Seq<u8>,
    outcome: MachineOutcome,
) -> Result<bool, VerifyError> {
    match spec_prepare(tag, proof_bytes, vk_bytes) {
        Err(e) => Err(e),
        Ok(_) => spec_conclude(outcome),
    }
}

/// An unknown variant tag is rejected with `UnsupportedVariant`, whatever
/// the proof and key bytes hold and whatever a machine might have answered:
/// the tag is checked before anything else is looked at.
pub proof fn lemma_unknown_tag_rejected(
    tag: Seq<char>,
    proof_bytes: Seq<u8>,
    vk_bytes: Seq<u8>,
    outcome: MachineOutcome,
)
    requires
        spec_parse_vm_type(tag) is Err,
    ensures
        spec_verify_stark(tag, proof_bytes, vk_bytes, outcome) == Err::<bool, _>(
            VerifyError::UnsupportedVariant,
        ),
{
}

/// The boundary is a pure function: two runs over the same inputs in which
/// the machine answered the same way return the same result.
pub proof fn lemma_verify_stark_idempotent(
    tag: Seq<char>,
    proof_bytes: Seq<u8>,
    vk_bytes: Seq<u8>,
    outcome1: MachineOutcome,
    outcome2: MachineOutcome,
)
    requires
        outcome1 == outcome2,
    ensures
        spec_verify_stark(tag, proof_bytes, vk_bytes, outcome1) == spec_verify_stark(
            tag,
            proof_bytes,
            vk_bytes,
            outcome2,
        ),
{
}

/// The boundary reports a proof valid only on the machine's word: every run
/// that returns `Ok(true)` is one in which the machine accepted.
pub proof fn lemma_valid_only_if_machine_accepted(
    tag: Seq<char>,
    proof_bytes: Seq<u8>,
    vk_bytes: Seq<u8>,
    outcome: MachineOutcome,
)
    requires
        spec_verify_stark(tag, proof_bytes, vk_bytes, outcome) == Ok::<_, VerifyError>(true),
    ensures
        outcome == MachineOutcome::Accepted,
{
}

} // verus!
