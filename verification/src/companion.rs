//! Asset version negotiation and delta patch synchronization state machine.
use vstd::prelude::*;

use crate::error::ZoneId;

verus! {

/// Fixed 16-byte digest identifying asset container state.
#[derive(Debug, Clone, Copy, PartialEq, Eq, Default, Hash)]
pub struct AssetManifestDigest(pub [u8; 16]);

/// Little-endian byte at position `shift` (1, 256, 65536 or 16777216) of a 32-bit word.
pub open spec fn le_byte_u32(v: u32, shift: u32) -> u8 {
    ((v / shift) % 256) as u8
}

impl AssetManifestDigest {
    /// Creates a new asset manifest digest from raw 16 bytes.
    pub fn new(bytes: [u8; 16]) -> (d: Self)
        ensures
            d.0@ == bytes@,
    {
        AssetManifestDigest(bytes)
    }

    /// Synthetic digest of a 32-bit version: its little-endian bytes, the tag "EIPK", then zeros.
    pub open spec fn spec_from_version(version: u32) -> Seq<u8> {
        seq![
            le_byte_u32(version, 1), le_byte_u32(version, 256), le_byte_u32(version, 65536),
            le_byte_u32(version, 16777216), 0x45u8, 0x49u8, 0x50u8, 0x4Bu8,
            0u8, 0u8, 0u8, 0u8, 0u8, 0u8, 0u8, 0u8,
        ]
    }

    /// Constructs a synthetic digest from a 32-bit version number.
    pub fn from_version(version: u32) -> (d: Self)
        ensures
            d.0@ == Self::spec_from_version(version),
    {
        let b0 = ((version / 1) % 256) as u8;
        let b1 = ((version / 256) % 256) as u8;
        let b2 = ((version / 65536) % 256) as u8;
        let b3 = ((version / 16777216) % 256) as u8;
        let d = AssetManifestDigest([b0, b1, b2, b3, 0x45, 0x49, 0x50, 0x4B, 0, 0, 0, 0, 0, 0, 0, 0]);
        assert(d.0@ =~= Self::spec_from_version(version));
        d
    }

    /// Returns the byte representation of the digest.
    pub fn as_bytes(&self) -> (b: &[u8; 16])
        ensures
            b@ == self.0@,
    {
        &self.0
    }

    /// Returns true exactly when both digests hold the same 16 bytes.
    pub fn matches(&self, other: &Self) -> (m: bool)
        ensures
            m == (self.0@ == other.0@),
    {
        let mut i: usize = 0;
        while i < 16
            invariant
                i <= 16,
                forall|j: int| 0 <= j < i ==> self.0@[j] == other.0@[j],
            decreases 16 - i,
        {
            if self.0[i] != other.0[i] {
                return false;
            }
            i = i + 1;
        }
        assert(self.0@ =~= other.0@);
        true
    }
}

/// Asset requirement specification for a zone, dungeon, or live-service event.
#[derive(Debug, Clone, Copy, PartialEq, Eq)]
pub struct ZoneAssetRequirement {
    /// Target zone or dungeon identifier.
    pub zone_id: ZoneId,
    /// Unique asset container or bundle identifier.
    pub bundle_id: u32,
    /// Required target asset container digest.
    pub required_digest: AssetManifestDigest,
    /// Expected byte size of the differential patch if the client is outdated.
    pub estimated_delta_bytes: u32,
}

impl ZoneAssetRequirement {
    /// Creates a new zone asset requirement.
    pub fn new(
        zone_id: ZoneId,
        bundle_id: u32,
        required_digest: AssetManifestDigest,
        estimated_delta_bytes: u32,
    ) -> (r: Self)
        ensures
            r == (ZoneAssetRequirement { zone_id, bundle_id, required_digest, estimated_delta_bytes }),
    {
        ZoneAssetRequirement { zone_id, bundle_id, required_digest, estimated_delta_bytes }
    }
}

/// Lifecycle state machine for client companion asset synchronization.
#[derive(Debug, Clone, Copy, PartialEq, Eq)]
pub enum PatchNegotiationState {
    /// Evaluating client's local asset container version.
    CheckingVersion,
    /// Client requires a byte-level micro-patch before entry.
    DeltaRequired {
        /// Required manifest digest after patch application.
        target_digest: AssetManifestDigest,
        /// Differential patch download byte payload.
        delta_bytes: u32,
    },
    /// Client is actively applying the byte delta.
    ApplyingPatch {
        /// Patch application progress percentage (0..=100).
        progress_pct: u8,
    },
    /// Asset container verified and synchronized with server state.
    Synchronized,
}

/// Negotiator managing the transition from asset patching to active gameplay replication.
#[derive(Debug, Clone, Copy)]
pub struct PatchNegotiator {
    requirement: ZoneAssetRequirement,
    state: PatchNegotiationState,
}

impl PatchNegotiator {
    /// The requirement being negotiated.
    pub closed spec fn spec_requirement(&self) -> ZoneAssetRequirement {
        self.requirement
    }

    /// The current negotiation state.
    pub closed spec fn spec_state(&self) -> PatchNegotiationState {
        self.state
    }

    /// Constructs a new patch negotiator in the `CheckingVersion` state.
    pub fn new(requirement: ZoneAssetRequirement) -> (n: Self)
        ensures
            n.spec_requirement() == requirement,
            n.spec_state() == PatchNegotiationState::CheckingVersion,
    {
        PatchNegotiator { requirement, state: PatchNegotiationState::CheckingVersion }
    }

    /// Returns the active negotiation lifecycle state.
    pub fn state(&self) -> (s: PatchNegotiationState)
        ensures
            s == self.spec_state(),
    {
        self.state
    }

    /// Returns true if the client assets are fully synchronized.
    pub fn is_synchronized(&self) -> (b: bool)
        ensures
            b == (self.spec_state() is Synchronized),
    {
        match self.state {
            PatchNegotiationState::Synchronized => true,
            _ => false,
        }
    }

    /// Evaluates the client's reported digest: a match synchronizes, anything else requires a delta.
    pub fn evaluate_client_manifest(&mut self, client_digest: AssetManifestDigest) -> (m: bool)
        ensures
            final(self).spec_requirement() == old(self).spec_requirement(),
            m == (old(self).spec_requirement().required_digest.0@ == client_digest.0@),
            m ==> final(self).spec_state() == PatchNegotiationState::Synchronized,
            !m ==> final(self).spec_state() == (PatchNegotiationState::DeltaRequired {
                target_digest: old(self).spec_requirement().required_digest,
                delta_bytes: old(self).spec_requirement().estimated_delta_bytes,
            }),
    {
        if self.requirement.required_digest.matches(&client_digest) {
            self.state = PatchNegotiationState::Synchronized;
            true
        } else {
            self.state = PatchNegotiationState::DeltaRequired {
                target_digest: self.requirement.required_digest,
                delta_bytes: self.requirement.estimated_delta_bytes,
            };
            false
        }
    }

    /// Reports patch progress; only accepted while a delta is required or being applied.
    pub fn update_progress(&mut self, progress_pct: u8) -> (r: Result<(), &'static str>)
        ensures
            final(self).spec_requirement() == old(self).spec_requirement(),
            r is Ok <==> (old(self).spec_state() is DeltaRequired || old(self).spec_state() is ApplyingPatch),
            r is Ok ==> final(self).spec_state() == (PatchNegotiationState::ApplyingPatch {
                progress_pct: if progress_pct > 100 { 100 } else { progress_pct },
            }),
            r is Err ==> final(self).spec_state() == old(self).spec_state(),
    {
        match self.state {
            PatchNegotiationState::DeltaRequired { .. }
            | PatchNegotiationState::ApplyingPatch { .. } => {
                let clamped = if progress_pct > 100 { 100 } else { progress_pct };
                self.state = PatchNegotiationState::ApplyingPatch { progress_pct: clamped };
                Ok(())
            },
            _ => Err("Invalid state transition for patch progress update"),
        }
    }

    /// Completes patch application: a matching digest synchronizes, a mismatch changes nothing.
    pub fn complete_patch(&mut self, new_client_digest: AssetManifestDigest) -> (r: Result<
        bool,
        &'static str,
    >)
        ensures
            final(self).spec_requirement() == old(self).spec_requirement(),
            r == Ok::<bool, &'static str>(old(self).spec_requirement().required_digest.0@ == new_client_digest.0@),
            r == Ok::<bool, &'static str>(true) ==> final(self).spec_state() == PatchNegotiationState::Synchronized,
            r == Ok::<bool, &'static str>(false) ==> final(self).spec_state() == old(self).spec_state(),
    {
        if !self.requirement.required_digest.matches(&new_client_digest) {
            return Ok(false);
        }
        self.state = PatchNegotiationState::Synchronized;
        Ok(true)
    }
}

/// Distinct versions give distinct synthetic digests.
pub proof fn lemma_from_version_injective(a: u32, b: u32)
    requires
        AssetManifestDigest::spec_from_version(a) == AssetManifestDigest::spec_from_version(b),
    ensures
        a == b,
{
    let sa = AssetManifestDigest::spec_from_version(a);
    let sb = AssetManifestDigest::spec_from_version(b);
    assert(sa[0] == sb[0] && sa[1] == sb[1] && sa[2] == sb[2] && sa[3] == sb[3]);
    assert(a % 256 == b % 256);
    assert((a / 256) % 256 == (b / 256) % 256);
    assert((a / 65536) % 256 == (b / 65536) % 256);
    assert((a / 16777216) % 256 == (b / 16777216) % 256);
    assert(a == (a % 256) + 256 * ((a / 256) % 256) + 65536 * ((a / 65536) % 256) + 16777216 * (
    (a / 16777216) % 256)) by (bit_vector);
    assert(b == (b % 256) + 256 * ((b / 256) % 256) + 65536 * ((b / 65536) % 256) + 16777216 * (
    (b / 16777216) % 256)) by (bit_vector);
}

} // verus!
