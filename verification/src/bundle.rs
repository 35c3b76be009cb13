//! The bundle assembler: from a decoded wire record to an immutable,
//! ready-to-verify proof bundle.
//!
//! Assembly keeps the decoded segment and key sequences exactly as they
//! stood on the wire — segment *i* must be checked against key *i*, so
//! reordering or filtering would change the bundle's meaning — and fails
//! when the two counts differ, since no pairing exists then.

use vstd::prelude::*;

use crate::errors::VerifyError;
use crate::wire::{WireModel, WireRecord};

verus! {

/// A fully assembled proof bundle: the proof segments, the verifying key of
/// each segment at the same position, and the optional public-value bytes.
#[derive(Debug, Clone, PartialEq, Eq)]
pub struct ProofBundle {
    pub segments: Vec<Vec<u8>>,
    pub verifying_keys: Vec<Vec<u8>>,
    pub public_values: Option<Vec<u8>>,
}

impl View for ProofBundle {
    type V = WireModel;

    open spec fn view(&self) -> WireModel {
        WireModel {
            segments: self.segments.deep_view(),
            verifying_keys: self.verifying_keys.deep_view(),
            public_values: self.public_values.deep_view(),
        }
    }
}

/// The bundle invariant: one verifying key per segment, in the same order.
pub open spec fn bundle_wf(m: WireModel) -> bool {
    m.segments.len() == m.verifying_keys.len()
}

/// What assembly returns: the record itself when its counts match, and an
/// `Assembly` error naming both counts when they do not.
pub open spec fn spec_assemble(m: WireModel) -> Result<WireModel, VerifyError> {
    if m.segments.len() == m.verifying_keys.len() {
        Ok(m)
    } else {
        Err(
            VerifyError::Assembly {
                segment_count: m.segments.len() as usize,
                key_count: m.verifying_keys.len() as usize,
            },
        )
    }
}

impl ProofBundle {
    /// How many proof segments (and so how many verifying keys) the bundle
    /// holds.
    pub fn segment_count(&self) -> (n: usize)
        ensures
            n == self@.segments.len(),
    {
        self.segments.len()
    }
}

/// Assemble a decoded record into a proof bundle, checking the segment/key
/// pairing invariant and changing nothing else.
pub fn assemble(record: WireRecord) -> (r: Result<ProofBundle, VerifyError>)
    ensures
        match r {
            Ok(b) => spec_assemble(record@) == Ok::<_, VerifyError>(b@) && bundle_wf(b@),
            Err(e) => spec_assemble(record@) == Err::<WireModel, _>(e),
        },
{
    let segment_count = record.segments.len();
    let key_count = record.verifying_keys.len();
    if segment_count == key_count {
        Ok(
            ProofBundle {
                segments: record.segments,
                verifying_keys: record.verifying_keys,
                public_values: record.public_values,
            },
        )
    } else {
        Err(VerifyError::Assembly { segment_count, key_count })
    }
}

/// Assembly succeeds exactly when the decoded segment and key counts match,
/// and then returns the record unchanged: same segments, same keys, same
/// public values, in the same order.
pub proof fn lemma_assemble_iff_counts_match(m: WireModel)
    requires
        m.segments.len() <= usize::MAX,
        m.verifying_keys.len() <= usize::MAX,
    ensures
        (m.segments.len() == m.verifying_keys.len()) <==> (spec_assemble(m) is Ok),
        spec_assemble(m) is Ok ==> spec_assemble(m) == Ok::<_, VerifyError>(m),
        m.segments.len() != m.verifying_keys.len() ==> spec_assemble(m) == Err::<WireModel, _>(
            VerifyError::Assembly {
                segment_count: m.segments.len() as usize,
                key_count: m.verifying_keys.len() as usize,
            },
        ),
{
}

} // verus!
