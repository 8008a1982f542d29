//! BLS12-381 signatures of sync committees and the roots that they sign.

use vstd::arithmetic::power2::{lemma2_to64, lemma_pow2_unfold, pow2};
use vstd::prelude::*;

use crate::consensus_specs::forks::{phase0, spec_fork_at_epoch, spec_fork_version};
use crate::consensus_specs::helpers::{compute_epoch_at_slot, compute_fork_version};
use crate::types::records::{BlsPubkey, BlsSignature, SyncAggregate, SyncCommittee, SyncCommitteeBits};
use crate::utilities::hash::{hash32_concat, sha256};
use crate::utilities::ssz::Hash256;
use crate::utilities::tree_hash::zeros;

verus! {

/// Whether 48 bytes are the compressed form of a public key that passes
/// key validation: a point of the group that is not the point at infinity.
pub uninterp spec fn bls_public_key_valid(compressed: Seq<u8>) -> bool;

/// What fast aggregate verification says of a signature, a message, a
/// domain separation tag and public keys, all as bytes: `None` where the
/// signature or a key cannot be read as a point of its curve, else
/// whether the signature is valid for the message under the sum of the
/// keys.
pub uninterp spec fn bls_fast_aggregate_verification(
    signature: Seq<u8>,
    message: Seq<u8>,
    tag: Seq<u8>,
    public_keys: Seq<Seq<u8>>,
) -> Option<bool>;

/// Why a BLS operation failed.
#[derive(Clone, Copy, Debug, PartialEq, Eq, Structural)]
pub enum BlsError {
    /// The bytes are no valid public key.
    InvalidPublicKey,
    /// The bytes are no signature.
    InvalidSignature,
}

/// A public key that passed key validation, kept in compressed form.
#[derive(Clone, Copy, Debug, PartialEq, Eq)]
pub struct PublicKey {
    compressed: BlsPubkey,
}

/// The compressed bytes of each key.
pub open spec fn keys_view(keys: Seq<PublicKey>) -> Seq<Seq<u8>> {
    Seq::new(keys.len(), |i: int| keys[i]@)
}

/// Calls `blst::min_pk::PublicKey::key_validate` and says whether it
/// accepted the bytes. Nothing of the curve arithmetic is verified here.
#[verifier::external_body]
fn bls_key_validate(compressed: &BlsPubkey) -> (valid: bool)
    ensures
        valid == bls_public_key_valid(compressed@),
{
    blst::min_pk::PublicKey::key_validate(compressed).is_ok()
}

/// Reads the signature and the keys with `from_bytes` of
/// `blst::min_pk`, and calls `Signature::fast_aggregate_verify` with
/// the group check of the signature switched on. The outcome is taken as
/// a function of the bytes; none of it is verified here.
#[verifier::external_body]
fn bls_fast_aggregate_verify(
    signature: &BlsSignature,
    message: &Hash256,
    tag: &[u8],
    public_keys: &[PublicKey],
) -> (outcome: Option<bool>)
    ensures
        outcome == bls_fast_aggregate_verification(signature@, message@, tag@, keys_view(public_keys@)),
{
    let signature = blst::min_pk::Signature::from_bytes(signature).ok()?;
    let keys: Vec<blst::min_pk::PublicKey> = public_keys
        .iter()
        .map(|key| blst::min_pk::PublicKey::from_bytes(&key.compressed))
        .collect::<Result<_, _>>()
        .ok()?;
    let key_refs: Vec<&blst::min_pk::PublicKey> = keys.iter().collect();
    Some(signature.fast_aggregate_verify(true, message, tag, &key_refs) == blst::BLST_ERROR::BLST_SUCCESS)
}

impl View for PublicKey {
    type V = Seq<u8>;

    closed spec fn view(&self) -> Seq<u8> {
        self.compressed@
    }
}

impl PublicKey {
    /// Validates a compressed public key.
    pub fn decompress(compressed: &BlsPubkey) -> (key: Option<PublicKey>)
        ensures
            key is Some <==> bls_public_key_valid(compressed@),
            key is Some ==> key.unwrap()@ == compressed@,
    {
        if bls_key_validate(compressed) {
            Some(PublicKey { compressed: *compressed })
        } else {
            None
        }
    }

    /// The compressed bytes of the key.
    pub fn to_bytes(&self) -> (compressed: BlsPubkey)
        ensures
            compressed@ == self@,
    {
        self.compressed
    }
}

/// The domain separation tag of Ethereum's signature scheme,
/// `BLS_SIG_BLS12381G2_XMD:SHA-256_SSWU_RO_POP_`.
pub const DOMAIN_SEPARATION_TAG: [u8; 43] = [
    66, 76, 83, 95, 83, 73, 71, 95, 66, 76, 83, 49, 50, 51, 56, 49, 71, 50, 95, 88, 77, 68, 58, 83, 72,
    65, 45, 50, 53, 54, 95, 83, 83, 87, 85, 95, 82, 79, 95, 80, 79, 80, 95,
];

/// Whether `signature` is the compressed point at infinity: `0xc0`, then
/// zero bytes.
pub open spec fn spec_is_infinity_signature(signature: Seq<u8>) -> bool {
    signature == seq![0xc0u8] + zeros(95)
}

/// Whether `signature` is the compressed point at infinity.
pub fn is_infinity_signature(signature: &BlsSignature) -> (infinity: bool)
    ensures
        infinity == spec_is_infinity_signature(signature@),
{
    let mut i: usize = 1;
    if signature[0] != 0xc0 {
        return false;
    }
    while i < 96
        invariant
            1 <= i <= 96,
            signature@[0] == 0xc0u8,
            forall|j: int| 1 <= j < i ==> signature@[j] == 0u8,
        decreases 96 - i,
    {
        if signature[i] != 0 {
            proof {
                assert((seq![0xc0u8] + zeros(95))[i as int] == 0u8);
            }
            return false;
        }
        i = i + 1;
    }
    proof {
        assert(signature@ =~= seq![0xc0u8] + zeros(95));
    }
    true
}

/// Whether member `i` of the committee took part: bit `i % 8` of byte
/// `i / 8`.
pub open spec fn participates(bits: Seq<u8>, i: int) -> bool {
    (bits[i / 8] as nat / pow2((i % 8) as nat)) % 2 == 1
}

/// How many of the first `n` members took part.
pub open spec fn participants_count(bits: Seq<u8>, n: nat) -> nat
    decreases n,
{
    if n == 0 {
        0
    } else {
        participants_count(bits, (n - 1) as nat) + if participates(bits, n - 1) {
            1nat
        } else {
            0nat
        }
    }
}

/// Those of the first `n` items whose member took part, in order.
pub open spec fn participants<T>(items: Seq<T>, bits: Seq<u8>, n: nat) -> Seq<T>
    decreases n,
{
    if n == 0 {
        Seq::empty()
    } else if participates(bits, n - 1) {
        participants(items, bits, (n - 1) as nat).push(items[n - 1])
    } else {
        participants(items, bits, (n - 1) as nat)
    }
}

/// There are as many participants as bits are set.
pub proof fn lemma_participants_len<T>(items: Seq<T>, bits: Seq<u8>, n: nat)
    ensures
        participants(items, bits, n).len() == participants_count(bits, n),
        participants_count(bits, n) <= n,
    decreases n,
{
    if n > 0 {
        lemma_participants_len(items, bits, (n - 1) as nat);
    }
}

/// Filtering keys and taking their bytes commute.
pub proof fn lemma_participants_view(keys: Seq<PublicKey>, bits: Seq<u8>, n: nat)
    requires
        n <= keys.len(),
    ensures
        keys_view(participants(keys, bits, n)) == participants(keys_view(keys), bits, n),
    decreases n,
{
    if n > 0 {
        lemma_participants_view(keys, bits, (n - 1) as nat);
        let before = participants(keys, bits, (n - 1) as nat);
        if participates(bits, n - 1) {
            assert(keys_view(before.push(keys[n - 1])) =~= keys_view(before).push(keys[n - 1]@));
        }
    } else {
        assert(keys_view(Seq::<PublicKey>::empty()) =~= Seq::<Seq<u8>>::empty());
    }
}

/// Whether member `i` took part.
pub fn participant_bit(bits: &SyncCommitteeBits, i: usize) -> (set: bool)
    requires
        i < 512,
    ensures
        set == participates(bits@, i as int),
{
    let byte = bits[i / 8];
    let shift = i % 8;
    let mut power: u8 = 1;
    let mut k: usize = 0;
    proof {
        lemma2_to64();
    }
    while k < shift
        invariant
            k <= shift < 8,
            power == pow2(k as nat),
            power <= 128,
            k < 7 ==> power <= 64,
        decreases shift - k,
    {
        proof {
            lemma_pow2_unfold((k + 1) as nat);
            lemma2_to64();
        }
        power = power * 2;
        k = k + 1;
    }
    (byte / power) % 2 == 1
}

impl SyncCommittee {
    /// The validated keys of the members.
    pub open spec fn spec_decompress_all_pubkeys(self) -> Result<Seq<Seq<u8>>, BlsError> {
        if forall|i: int| 0 <= i < self.pubkeys.len() ==> bls_public_key_valid(#[trigger] self.pubkeys[i]@) {
            Ok(Seq::new(self.pubkeys@.len(), |i: int| self.pubkeys[i]@))
        } else {
            Err(BlsError::InvalidPublicKey)
        }
    }

    /// Validates the keys of all members: the keys in order if each is
    /// valid, an error if one is not.
    pub fn decompress_all_pubkeys(&self) -> (keys: Result<Vec<PublicKey>, BlsError>)
        ensures
            keys is Ok <==> self.spec_decompress_all_pubkeys() is Ok,
            keys matches Ok(k) ==> self.spec_decompress_all_pubkeys() == Ok::<Seq<Seq<u8>>, BlsError>(
                keys_view(k@),
            ) && k.len() == self.pubkeys.len(),
            keys matches Err(e) ==> e == BlsError::InvalidPublicKey,
    {
        let mut keys: Vec<PublicKey> = Vec::new();
        let mut i: usize = 0;
        while i < self.pubkeys.len()
            invariant
                i <= self.pubkeys.len(),
                keys.len() == i,
                forall|j: int| 0 <= j < i ==> bls_public_key_valid(#[trigger] self.pubkeys[j]@),
                forall|j: int| 0 <= j < i ==> (#[trigger] keys[j])@ == self.pubkeys[j]@,
            decreases self.pubkeys.len() - i,
        {
            match PublicKey::decompress(&self.pubkeys[i]) {
                Some(key) => {
                    keys.push(key);
                },
                None => {
                    return Err(BlsError::InvalidPublicKey);
                },
            }
            i = i + 1;
        }
        proof {
            assert(keys_view(keys@) =~= Seq::new(self.pubkeys@.len(), |i: int| self.pubkeys[i]@));
        }
        Ok(keys)
    }
}

impl SyncAggregate {
    /// What verification of the aggregate signature gives for the 512
    /// keys of a committee, in bytes, and a message. The point at
    /// infinity signs nothing; a signature that cannot be read is an
    /// error; with no participant nothing is signed.
    pub open spec fn spec_fast_aggregate_verify(self, pubkeys: Seq<Seq<u8>>, message: Seq<u8>) -> Result<
        bool,
        BlsError,
    > {
        let signers = participants(pubkeys, self.sync_committee_bits@, 512);
        if spec_is_infinity_signature(self.sync_committee_signature@) {
            Ok(false)
        } else {
            match bls_fast_aggregate_verification(
                self.sync_committee_signature@,
                message,
                DOMAIN_SEPARATION_TAG@,
                signers,
            ) {
                None => Err(BlsError::InvalidSignature),
                Some(valid) => Ok(signers.len() > 0 && valid),
            }
        }
    }

    /// Verifies the aggregate signature over `message` against those of
    /// `pubkeys` whose bit is set.
    pub fn fast_aggregate_verify(&self, pubkeys: &[PublicKey], message: Hash256) -> (verified: Result<
        bool,
        BlsError,
    >)
        requires
            pubkeys.len() == 512,
        ensures
            verified == self.spec_fast_aggregate_verify(keys_view(pubkeys@), message@),
    {
        let signers = self.filter_participant_pubkeys(pubkeys);
        proof {
            lemma_participants_view(pubkeys@, self.sync_committee_bits@, 512);
        }
        if is_infinity_signature(&self.sync_committee_signature) {
            return Ok(false);
        }
        let tag = DOMAIN_SEPARATION_TAG;
        match bls_fast_aggregate_verify(
            &self.sync_committee_signature,
            &message,
            tag.as_slice(),
            signers.as_slice(),
        ) {
            None => Err(BlsError::InvalidSignature),
            Some(valid) => Ok(signers.len() > 0 && valid),
        }
    }

    /// The keys of the members who took part, in the order of the
    /// committee.
    pub fn filter_participant_pubkeys(&self, pubkeys: &[PublicKey]) -> (signers: Vec<PublicKey>)
        requires
            pubkeys.len() == 512,
        ensures
            signers@ == participants(pubkeys@, self.sync_committee_bits@, 512),
            signers@.len() == participants_count(self.sync_committee_bits@, 512),
    {
        proof {
            lemma_participants_len(pubkeys@, self.sync_committee_bits@, 512);
        }
        let mut signers: Vec<PublicKey> = Vec::new();
        let mut i: usize = 0;
        while i < 512
            invariant
                i <= 512,
                pubkeys.len() == 512,
                signers@ == participants(pubkeys@, self.sync_committee_bits@, i as nat),
            decreases 512 - i,
        {
            if participant_bit(&self.sync_committee_bits, i) {
                signers.push(pubkeys[i]);
            }
            i = i + 1;
        }
        signers
    }
}

/// The object whose root a validator signs.
#[derive(Clone, Copy, Debug, PartialEq, Eq)]
pub struct SigningData {
    pub object_root: Hash256,
    pub domain: Hash256,
}

impl SigningData {
    /// Root of the two fields.
    pub open spec fn spec_tree_hash_root(self) -> Seq<u8> {
        sha256(self.object_root@ + self.domain@)
    }

    /// Root of the two fields.
    pub fn tree_hash_root(&self) -> (root: Hash256)
        ensures
            root@ == self.spec_tree_hash_root(),
    {
        hash32_concat(&self.object_root, &self.domain)
    }
}

/// The version of a fork on one chain.
#[derive(Clone, Copy, Debug, PartialEq, Eq)]
pub struct ForkData {
    pub current_version: [u8; 4],
    pub genesis_validators_root: Hash256,
}

impl ForkData {
    /// The fork data of a version on the chain with the given genesis.
    pub fn new(version: &[u8; 4], genesis_validators_root: Hash256) -> (data: ForkData)
        ensures
            data.current_version == *version,
            data.genesis_validators_root == genesis_validators_root,
    {
        ForkData { current_version: *version, genesis_validators_root }
    }

    /// Root of the two fields; the version fills the start of a chunk.
    pub open spec fn spec_tree_hash_root(self) -> Seq<u8> {
        sha256(self.current_version@ + zeros(28) + self.genesis_validators_root@)
    }

    /// Root of the two fields.
    pub fn tree_hash_root(&self) -> (root: Hash256)
        ensures
            root@ == self.spec_tree_hash_root(),
    {
        let mut chunk: Hash256 = [0u8; 32];
        let mut i: usize = 0;
        while i < 4
            invariant
                i <= 4,
                forall|j: int| 0 <= j < i ==> chunk@[j] == self.current_version@[j],
                forall|j: int| i <= j < 32 ==> chunk@[j] == 0u8,
            decreases 4 - i,
        {
            chunk[i] = self.current_version[i];
            i = i + 1;
        }
        proof {
            assert(chunk@ =~= self.current_version@ + zeros(28));
        }
        hash32_concat(&chunk, &self.genesis_validators_root)
    }
}

/// Root of the fork data of a version and a genesis.
pub open spec fn spec_compute_fork_data_root(current_version: Seq<u8>, genesis_validators_root: Seq<u8>) -> Seq<
    u8,
> {
    sha256(current_version + zeros(28) + genesis_validators_root)
}

/// Root of the fork data of a version and a genesis.
pub fn compute_fork_data_root(current_version: &[u8; 4], genesis_validators_root: Hash256) -> (root: Hash256)
    ensures
        root@ == spec_compute_fork_data_root(current_version@, genesis_validators_root@),
{
    ForkData::new(current_version, genesis_validators_root).tree_hash_root()
}

/// The domain of a signature: the domain type, then the first 28 bytes of
/// the root of the fork data.
pub open spec fn spec_compute_domain(
    domain_type: Seq<u8>,
    fork_version: Seq<u8>,
    genesis_validators_root: Seq<u8>,
) -> Seq<u8> {
    domain_type + spec_compute_fork_data_root(fork_version, genesis_validators_root).subrange(0, 28)
}

/// The domain of a signature.
pub fn compute_domain(domain_type: &[u8; 4], fork_version: &[u8; 4], genesis_validators_root: Hash256) -> (domain:
    Hash256)
    ensures
        domain@ == spec_compute_domain(domain_type@, fork_version@, genesis_validators_root@),
{
    let fork_data_root = compute_fork_data_root(fork_version, genesis_validators_root);
    let mut domain: Hash256 = [0u8; 32];
    let mut i: usize = 0;
    while i < 32
        invariant
            i <= 32,
            forall|j: int| 0 <= j < i && j < 4 ==> domain@[j] == domain_type@[j],
            forall|j: int| 4 <= j < i ==> domain@[j] == fork_data_root@[j - 4],
        decreases 32 - i,
    {
        if i < 4 {
            domain[i] = domain_type[i];
        } else {
            domain[i] = fork_data_root[i - 4];
        }
        i = i + 1;
    }
    proof {
        assert(domain@ =~= domain_type@ + fork_data_root@.subrange(0, 28));
    }
    domain
}

/// The root that is signed for an object under a domain.
pub open spec fn spec_compute_signing_root(object_root: Seq<u8>, domain: Seq<u8>) -> Seq<u8> {
    sha256(object_root + domain)
}

/// The root that is signed for an object under a domain.
pub fn compute_signing_root(object_root: Hash256, domain: Hash256) -> (root: Hash256)
    ensures
        root@ == spec_compute_signing_root(object_root@, domain@),
{
    SigningData { object_root, domain }.tree_hash_root()
}

/// The slot whose fork version a signature made at `signature_slot`
/// uses: the slot before, and slot 0 for slot 0.
pub open spec fn spec_fork_version_slot(signature_slot: u64) -> u64 {
    if signature_slot > 0 {
        (signature_slot - 1) as u64
    } else {
        0
    }
}

/// The root that is signed at `signature_slot` for an object, under the
/// fork version of the slot before.
pub open spec fn spec_compute_signing_root_at_signature_slot(
    signed_root: Seq<u8>,
    signature_slot: u64,
    domain_type: Seq<u8>,
    genesis_validators_root: Seq<u8>,
) -> Seq<u8> {
    let epoch = (spec_fork_version_slot(signature_slot) / phase0::SLOTS_PER_EPOCH) as u64;
    let version = spec_fork_version(spec_fork_at_epoch(epoch));
    spec_compute_signing_root(signed_root, spec_compute_domain(domain_type, version@, genesis_validators_root))
}

/// The root that is signed at `signature_slot` for an object.
pub fn compute_signing_root_at_signature_slot(
    signed_root: Hash256,
    signature_slot: u64,
    domain_type: &[u8; 4],
    genesis_validators_root: Hash256,
) -> (root: Hash256)
    ensures
        root@ == spec_compute_signing_root_at_signature_slot(
            signed_root@,
            signature_slot,
            domain_type@,
            genesis_validators_root@,
        ),
{
    let fork_version_slot = if signature_slot > 0 {
        signature_slot - 1
    } else {
        0
    };
    let fork_version = compute_fork_version(compute_epoch_at_slot(fork_version_slot));
    let domain = compute_domain(domain_type, &fork_version, genesis_validators_root);
    compute_signing_root(signed_root, domain)
}

} // verus!
