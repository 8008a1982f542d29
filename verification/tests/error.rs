use eth_light_client::error::{ClientBootstrapError, ClientUpdateError, SyncCommitteeUpdateError, TxVerificationError};

#[test]
fn exit_codes_are_distinct_and_at_most_32() {
    let update = [
        ClientUpdateError::AttestedHeaderIsEmpty,
        ClientUpdateError::BadSignatureSlot,
        ClientUpdateError::EmptyHeaders,
        ClientUpdateError::FirstHeaderSlot,
        ClientUpdateError::FirstHeaderParentRoot,
        ClientUpdateError::UncontinuousSlot,
        ClientUpdateError::UnmatchedParentRoot,
        ClientUpdateError::HeadersMmrProof,
        ClientUpdateError::FinalizedHeaderIsEmpty,
        ClientUpdateError::ClientIdChanged,
        ClientUpdateError::ClientMinimalSlotChanged,
        ClientUpdateError::ClientMaximalSlot,
        ClientUpdateError::ClientTipHeaderRoot,
        ClientUpdateError::MismatchedSyncCommittee,
        ClientUpdateError::NotSupermajorityParticipation,
        ClientUpdateError::FailedToVerifyTheAttestedHeader,
        ClientUpdateError::FinalizedShouldBeAfterAttested,
        ClientUpdateError::InvalidFinalityBranch,
        ClientUpdateError::MmrError,
        ClientUpdateError::BlsPublicKeyBytesError,
        ClientUpdateError::BlsAggregateSignatureError,
    ];
    for (i, kind) in update.iter().enumerate() {
        assert_eq!(kind.code() as usize, i + 1);
    }
    assert_eq!(ClientUpdateError::Unreachable.code(), 32);

    let bootstrap = [
        ClientBootstrapError::HeaderIsEmpty,
        ClientBootstrapError::IncorrectPeriod,
        ClientBootstrapError::UnexpectedSyncCommitteeSize,
        ClientBootstrapError::InvalidSyncCommitteeBranch,
    ];
    for (i, kind) in bootstrap.iter().enumerate() {
        assert_eq!(kind.code() as usize, i + 1);
    }
    assert_eq!(ClientBootstrapError::Unreachable.code(), 32);

    let rotation = [
        SyncCommitteeUpdateError::AttestedHeaderIsEmpty,
        SyncCommitteeUpdateError::BadSignatureSlot,
        SyncCommitteeUpdateError::BadCurrentPeriod,
        SyncCommitteeUpdateError::SignatureInNextPeriod,
        SyncCommitteeUpdateError::NotSupermajorityParticipation,
        SyncCommitteeUpdateError::FailedToVerifyTheAttestedHeader,
        SyncCommitteeUpdateError::NoncontinuousPeriods,
        SyncCommitteeUpdateError::UnexpectedNextSyncCommitteeSize,
        SyncCommitteeUpdateError::InvalidNextSyncCommitteeBranch,
        SyncCommitteeUpdateError::BlsPublicKeyBytesError,
        SyncCommitteeUpdateError::BlsAggregateSignatureError,
    ];
    for (i, kind) in rotation.iter().enumerate() {
        assert_eq!(kind.code() as usize, i + 1);
    }
    assert_eq!(SyncCommitteeUpdateError::Unreachable.code(), 32);

    let transaction = [
        TxVerificationError::Unsynchronized,
        TxVerificationError::HeaderMmrProof,
        TxVerificationError::TransactionSszProof,
        TxVerificationError::ReceiptMptProof,
        TxVerificationError::ReceiptsRootSszProof,
        TxVerificationError::MmrError,
        TxVerificationError::SszError,
    ];
    for (i, kind) in transaction.iter().enumerate() {
        assert_eq!(kind.code() as usize, i + 1);
    }
    assert_eq!(TxVerificationError::Unreachable.code(), 32);
}
