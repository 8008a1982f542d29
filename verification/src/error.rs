//! The error kinds of the verifier, one set per entry point. Each kind
//! has an exit code between 1 and 32.

use vstd::prelude::*;

verus! {

/// Why a client bootstrap was rejected.
#[derive(Clone, Copy, Debug, PartialEq, Eq, Structural)]
pub enum ClientBootstrapError {
    /// The bootstrap header is an empty header.
    HeaderIsEmpty,
    /// The committee is not that of the period of the header.
    IncorrectPeriod,
    /// The committee does not have 512 members.
    UnexpectedSyncCommitteeSize,
    /// The branch does not prove the committee in the state of the header.
    InvalidSyncCommitteeBranch,
    /// No error: the bound that every exit code stays under.
    Unreachable,
}

impl ClientBootstrapError {
    /// The exit code of the kind.
    pub open spec fn spec_code(self) -> i8 {
        match self {
            ClientBootstrapError::HeaderIsEmpty => 1,
            ClientBootstrapError::IncorrectPeriod => 2,
            ClientBootstrapError::UnexpectedSyncCommitteeSize => 3,
            ClientBootstrapError::InvalidSyncCommitteeBranch => 4,
            ClientBootstrapError::Unreachable => 32,
        }
    }

    /// The exit code of the kind: between 1 and 32, and another for each kind.
    pub fn code(&self) -> (code: i8)
        ensures
            code == self.spec_code(),
            1 <= code <= 32,
    {
        match self {
            ClientBootstrapError::HeaderIsEmpty => 1,
            ClientBootstrapError::IncorrectPeriod => 2,
            ClientBootstrapError::UnexpectedSyncCommitteeSize => 3,
            ClientBootstrapError::InvalidSyncCommitteeBranch => 4,
            ClientBootstrapError::Unreachable => 32,
        }
    }

    /// Two kinds with the same exit code are the same kind.
    pub proof fn lemma_code_injective(a: Self, b: Self)
        requires
            a.spec_code() == b.spec_code(),
        ensures
            a == b,
    {
    }
}

/// Why a client update was rejected.
#[derive(Clone, Copy, Debug, PartialEq, Eq, Structural)]
pub enum ClientUpdateError {
    /// The attested header is an empty header.
    AttestedHeaderIsEmpty,
    /// The signature slot is not after the attested slot.
    BadSignatureSlot,
    /// The update carries no header.
    EmptyHeaders,
    /// The first header does not follow the last slot of the client.
    FirstHeaderSlot,
    /// The first header does not build on the tip of the client.
    FirstHeaderParentRoot,
    /// Two neighbouring headers are not one slot apart.
    UncontinuousSlot,
    /// A header does not build on the last header before it that is not empty.
    UnmatchedParentRoot,
    /// The mountain-range proof does not lead from the old root to the new one.
    HeadersMmrProof,
    /// The last header, the finalized one, is an empty header.
    FinalizedHeaderIsEmpty,
    /// The new client has another id.
    ClientIdChanged,
    /// The new client has another first slot.
    ClientMinimalSlotChanged,
    /// The last slot of the new client is not that of the last header.
    ClientMaximalSlot,
    /// The tip of the new client is not the last header that is not empty.
    ClientTipHeaderRoot,
    /// The committee is not that of the period of the signature slot.
    MismatchedSyncCommittee,
    /// Fewer than two thirds of the committee signed.
    NotSupermajorityParticipation,
    /// The aggregate signature does not sign the attested header.
    FailedToVerifyTheAttestedHeader,
    /// The finalized header is not older than the attested header.
    FinalizedShouldBeAfterAttested,
    /// The branch does not prove the finalized header in the attested state.
    InvalidFinalityBranch,
    /// The mountain-range proof is malformed.
    MmrError,
    /// A public key of the committee is no valid key.
    BlsPublicKeyBytesError,
    /// The aggregate signature is no valid signature.
    BlsAggregateSignatureError,
    /// No error: the bound that every exit code stays under.
    Unreachable,
}

impl ClientUpdateError {
    /// The exit code of the kind.
    pub open spec fn spec_code(self) -> i8 {
        match self {
            ClientUpdateError::AttestedHeaderIsEmpty => 1,
            ClientUpdateError::BadSignatureSlot => 2,
            ClientUpdateError::EmptyHeaders => 3,
            ClientUpdateError::FirstHeaderSlot => 4,
            ClientUpdateError::FirstHeaderParentRoot => 5,
            ClientUpdateError::UncontinuousSlot => 6,
            ClientUpdateError::UnmatchedParentRoot => 7,
            ClientUpdateError::HeadersMmrProof => 8,
            ClientUpdateError::FinalizedHeaderIsEmpty => 9,
            ClientUpdateError::ClientIdChanged => 10,
            ClientUpdateError::ClientMinimalSlotChanged => 11,
            ClientUpdateError::ClientMaximalSlot => 12,
            ClientUpdateError::ClientTipHeaderRoot => 13,
            ClientUpdateError::MismatchedSyncCommittee => 14,
            ClientUpdateError::NotSupermajorityParticipation => 15,
            ClientUpdateError::FailedToVerifyTheAttestedHeader => 16,
            ClientUpdateError::FinalizedShouldBeAfterAttested => 17,
            ClientUpdateError::InvalidFinalityBranch => 18,
            ClientUpdateError::MmrError => 19,
            ClientUpdateError::BlsPublicKeyBytesError => 20,
            ClientUpdateError::BlsAggregateSignatureError => 21,
            ClientUpdateError::Unreachable => 32,
        }
    }

    /// The exit code of the kind: between 1 and 32, and another for each kind.
    pub fn code(&self) -> (code: i8)
        ensures
            code == self.spec_code(),
            1 <= code <= 32,
    {
        match self {
            ClientUpdateError::AttestedHeaderIsEmpty => 1,
            ClientUpdateError::BadSignatureSlot => 2,
            ClientUpdateError::EmptyHeaders => 3,
            ClientUpdateError::FirstHeaderSlot => 4,
            ClientUpdateError::FirstHeaderParentRoot => 5,
            ClientUpdateError::UncontinuousSlot => 6,
            ClientUpdateError::UnmatchedParentRoot => 7,
            ClientUpdateError::HeadersMmrProof => 8,
            ClientUpdateError::FinalizedHeaderIsEmpty => 9,
            ClientUpdateError::ClientIdChanged => 10,
            ClientUpdateError::ClientMinimalSlotChanged => 11,
            ClientUpdateError::ClientMaximalSlot => 12,
            ClientUpdateError::ClientTipHeaderRoot => 13,
            ClientUpdateError::MismatchedSyncCommittee => 14,
            ClientUpdateError::NotSupermajorityParticipation => 15,
            ClientUpdateError::FailedToVerifyTheAttestedHeader => 16,
            ClientUpdateError::FinalizedShouldBeAfterAttested => 17,
            ClientUpdateError::InvalidFinalityBranch => 18,
            ClientUpdateError::MmrError => 19,
            ClientUpdateError::BlsPublicKeyBytesError => 20,
            ClientUpdateError::BlsAggregateSignatureError => 21,
            ClientUpdateError::Unreachable => 32,
        }
    }

    /// Two kinds with the same exit code are the same kind.
    pub proof fn lemma_code_injective(a: Self, b: Self)
        requires
            a.spec_code() == b.spec_code(),
        ensures
            a == b,
    {
    }
}

/// Why a sync-committee update was rejected.
#[derive(Clone, Copy, Debug, PartialEq, Eq, Structural)]
pub enum SyncCommitteeUpdateError {
    /// The attested header is an empty header.
    AttestedHeaderIsEmpty,
    /// The signature slot is not after the attested slot.
    BadSignatureSlot,
    /// The current committee is not that of the last slot of the client.
    BadCurrentPeriod,
    /// The signature slot lies in another period than the current committee.
    SignatureInNextPeriod,
    /// Fewer than two thirds of the committee signed.
    NotSupermajorityParticipation,
    /// The aggregate signature does not sign the attested header.
    FailedToVerifyTheAttestedHeader,
    /// The next committee is not that of the following period.
    NoncontinuousPeriods,
    /// The next committee does not have 512 members.
    UnexpectedNextSyncCommitteeSize,
    /// The branch does not prove the next committee in the attested state.
    InvalidNextSyncCommitteeBranch,
    /// A public key of the committee is no valid key.
    BlsPublicKeyBytesError,
    /// The aggregate signature is no valid signature.
    BlsAggregateSignatureError,
    /// No error: the bound that every exit code stays under.
    Unreachable,
}

impl SyncCommitteeUpdateError {
    /// The exit code of the kind.
    pub open spec fn spec_code(self) -> i8 {
        match self {
            SyncCommitteeUpdateError::AttestedHeaderIsEmpty => 1,
            SyncCommitteeUpdateError::BadSignatureSlot => 2,
            SyncCommitteeUpdateError::BadCurrentPeriod => 3,
            SyncCommitteeUpdateError::SignatureInNextPeriod => 4,
            SyncCommitteeUpdateError::NotSupermajorityParticipation => 5,
            SyncCommitteeUpdateError::FailedToVerifyTheAttestedHeader => 6,
            SyncCommitteeUpdateError::NoncontinuousPeriods => 7,
            SyncCommitteeUpdateError::UnexpectedNextSyncCommitteeSize => 8,
            SyncCommitteeUpdateError::InvalidNextSyncCommitteeBranch => 9,
            SyncCommitteeUpdateError::BlsPublicKeyBytesError => 10,
            SyncCommitteeUpdateError::BlsAggregateSignatureError => 11,
            SyncCommitteeUpdateError::Unreachable => 32,
        }
    }

    /// The exit code of the kind: between 1 and 32, and another for each kind.
    pub fn code(&self) -> (code: i8)
        ensures
            code == self.spec_code(),
            1 <= code <= 32,
    {
        match self {
            SyncCommitteeUpdateError::AttestedHeaderIsEmpty => 1,
            SyncCommitteeUpdateError::BadSignatureSlot => 2,
            SyncCommitteeUpdateError::BadCurrentPeriod => 3,
            SyncCommitteeUpdateError::SignatureInNextPeriod => 4,
            SyncCommitteeUpdateError::NotSupermajorityParticipation => 5,
            SyncCommitteeUpdateError::FailedToVerifyTheAttestedHeader => 6,
            SyncCommitteeUpdateError::NoncontinuousPeriods => 7,
            SyncCommitteeUpdateError::UnexpectedNextSyncCommitteeSize => 8,
            SyncCommitteeUpdateError::InvalidNextSyncCommitteeBranch => 9,
            SyncCommitteeUpdateError::BlsPublicKeyBytesError => 10,
            SyncCommitteeUpdateError::BlsAggregateSignatureError => 11,
            SyncCommitteeUpdateError::Unreachable => 32,
        }
    }

    /// Two kinds with the same exit code are the same kind.
    pub proof fn lemma_code_injective(a: Self, b: Self)
        requires
            a.spec_code() == b.spec_code(),
        ensures
            a == b,
    {
    }
}

/// Why a transaction proof or payload was rejected.
#[derive(Clone, Copy, Debug, PartialEq, Eq, Structural)]
pub enum TxVerificationError {
    /// The header lies outside the slots of the client.
    Unsynchronized,
    /// The mountain-range proof does not prove the header.
    HeaderMmrProof,
    /// The branch does not prove the transaction in the block body.
    TransactionSszProof,
    /// The trie proof does not prove the receipt under the receipts root.
    ReceiptMptProof,
    /// The branch does not prove the receipts root in the block body.
    ReceiptsRootSszProof,
    /// The mountain-range proof is malformed.
    MmrError,
    /// The transaction is longer than a transaction may be.
    SszError,
    /// No error: the bound that every exit code stays under.
    Unreachable,
}

impl TxVerificationError {
    /// The exit code of the kind.
    pub open spec fn spec_code(self) -> i8 {
        match self {
            TxVerificationError::Unsynchronized => 1,
            TxVerificationError::HeaderMmrProof => 2,
            TxVerificationError::TransactionSszProof => 3,
            TxVerificationError::ReceiptMptProof => 4,
            TxVerificationError::ReceiptsRootSszProof => 5,
            TxVerificationError::MmrError => 6,
            TxVerificationError::SszError => 7,
            TxVerificationError::Unreachable => 32,
        }
    }

    /// The exit code of the kind: between 1 and 32, and another for each kind.
    pub fn code(&self) -> (code: i8)
        ensures
            code == self.spec_code(),
            1 <= code <= 32,
    {
        match self {
            TxVerificationError::Unsynchronized => 1,
            TxVerificationError::HeaderMmrProof => 2,
            TxVerificationError::TransactionSszProof => 3,
            TxVerificationError::ReceiptMptProof => 4,
            TxVerificationError::ReceiptsRootSszProof => 5,
            TxVerificationError::MmrError => 6,
            TxVerificationError::SszError => 7,
            TxVerificationError::Unreachable => 32,
        }
    }

    /// Two kinds with the same exit code are the same kind.
    pub proof fn lemma_code_injective(a: Self, b: Self)
        requires
            a.spec_code() == b.spec_code(),
        ensures
            a == b,
    {
    }
}

} // verus!
