//! A beacon block with the roots of all its fields, from which the
//! prover builds the SSZ branches of its transactions and of its
//! receipts root.

use vstd::arithmetic::power2::{lemma2_to64, pow2};
use vstd::prelude::*;

use crate::consensus_specs::forks::{bellatrix, fork_of, layout_of, spec_fork_of, spec_layout_of, Fork};
use crate::types::records::TransactionProof;
use crate::utilities::endian::le_bytes;
use crate::utilities::hash::{hash32_concat, sha256};
use crate::utilities::merkle_tree::{
    lemma_branch_proves_leaf,
    merkle_tree_branch,
    merkle_tree_root,
    node_at,
    nodes_view,
    tree_branch,
    tree_root,
};
use crate::utilities::ssz::{
    branch_root,
    lemma_branch_root_concat,
    lemma_branch_root_low_bits,
    lemma_floor_depth_unique,
    length_hash,
    spec_floor_depth,
    Hash256,
};
use crate::utilities::tree_hash::{byte_list_root, ssz_byte_list_root};

verus! {

/// What the prover reads of a beacon block: its slot, the number and the
/// transactions of its execution payload, and the roots of the other
/// fields of the block body and of the execution payload.
#[derive(Clone, Debug, PartialEq, Eq)]
pub struct BeaconBlockSummary {
    pub slot: u64,
    pub block_number: u64,
    pub randao_reveal_root: Hash256,
    pub eth1_data_root: Hash256,
    pub graffiti_root: Hash256,
    pub proposer_slashings_root: Hash256,
    pub attester_slashings_root: Hash256,
    pub attestations_root: Hash256,
    pub deposits_root: Hash256,
    pub voluntary_exits_root: Hash256,
    pub sync_aggregate_root: Hash256,
    pub parent_hash_root: Hash256,
    pub fee_recipient_root: Hash256,
    pub state_root: Hash256,
    pub receipts_root: Hash256,
    pub logs_bloom_root: Hash256,
    pub prev_randao_root: Hash256,
    pub block_number_root: Hash256,
    pub gas_limit_root: Hash256,
    pub gas_used_root: Hash256,
    pub timestamp_root: Hash256,
    pub extra_data_root: Hash256,
    pub base_fee_per_gas_root: Hash256,
    pub block_hash_root: Hash256,
    pub transactions: Vec<Vec<u8>>,
    /// Root of the withdrawals, from Capella on.
    pub withdrawals_root: Option<Hash256>,
    /// Root of the changes of withdrawal credentials, from Capella on.
    pub bls_to_execution_changes_root: Option<Hash256>,
}

/// A beacon block with the roots of its fields.
#[derive(Clone, Debug, PartialEq, Eq)]
pub struct CachedBeaconBlock {
    pub body_root: Hash256,
    pub execution_payload_root: Hash256,
    pub transactions_root: Hash256,
    pub transactions_depth: usize,
    pub transactions_data_root: Hash256,
    pub transaction_hashes: Vec<Hash256>,
    pub original: BeaconBlockSummary,
}

/// The roots of the transactions.
pub open spec fn transaction_roots(transactions: Seq<Vec<u8>>) -> Seq<Seq<u8>> {
    Seq::new(transactions.len(), |i: int| ssz_byte_list_root(transactions[i]@))
}

/// Appends the nodes of `more` to `proof`.
fn extend_proof(proof: &mut Vec<Hash256>, more: &Vec<Hash256>)
    ensures
        final(proof)@ == old(proof)@ + more@,
{
    let mut i: usize = 0;
    while i < more.len()
        invariant
            i <= more.len(),
            proof@ == old(proof)@ + more@.take(i as int),
        decreases more.len() - i,
    {
        proof.push(more[i]);
        proof {
            assert(proof@ =~= old(proof)@ + more@.take(i + 1));
        }
        i = i + 1;
    }
    proof {
        assert(more@.take(more@.len() as int) =~= more@);
    }
}

impl BeaconBlockSummary {
    /// Whether the block belongs to Capella or a later fork.
    pub open spec fn is_capella(self) -> bool {
        spec_fork_of(self.slot) == Fork::Capella
    }

    /// The roots of the fields of the execution payload, in order, where
    /// the transactions have the given root: fourteen before Capella,
    /// and the withdrawals as the fifteenth from Capella on.
    pub open spec fn payload_leaves(self, transactions_root: Seq<u8>) -> Seq<Seq<u8>> {
        let leaves = seq![
            self.parent_hash_root@,
            self.fee_recipient_root@,
            self.state_root@,
            self.receipts_root@,
            self.logs_bloom_root@,
            self.prev_randao_root@,
            self.block_number_root@,
            self.gas_limit_root@,
            self.gas_used_root@,
            self.timestamp_root@,
            self.extra_data_root@,
            self.base_fee_per_gas_root@,
            self.block_hash_root@,
            transactions_root,
        ];
        if self.is_capella() {
            leaves.push(self.withdrawals_root.unwrap()@)
        } else {
            leaves
        }
    }

    /// The roots of the fields of the block body, in order, where the
    /// execution payload has the given root: ten before Capella, and the
    /// changes of withdrawal credentials as the eleventh from Capella on.
    pub open spec fn body_leaves(self, execution_payload_root: Seq<u8>) -> Seq<Seq<u8>> {
        let leaves = seq![
            self.randao_reveal_root@,
            self.eth1_data_root@,
            self.graffiti_root@,
            self.proposer_slashings_root@,
            self.attester_slashings_root@,
            self.attestations_root@,
            self.deposits_root@,
            self.voluntary_exits_root@,
            self.sync_aggregate_root@,
            execution_payload_root,
        ];
        if self.is_capella() {
            leaves.push(self.bls_to_execution_changes_root.unwrap()@)
        } else {
            leaves
        }
    }

    /// A summary can be cached if it has the fields of its fork, no more
    /// transactions than a payload may hold, and none longer than a
    /// transaction may be.
    pub open spec fn cacheable(self) -> bool {
        &&& self.transactions.len() <= bellatrix::MAX_TRANSACTIONS_PER_PAYLOAD
        &&& forall|i: int|
            0 <= i < self.transactions.len() ==> (#[trigger] self.transactions[i])@.len()
                <= bellatrix::MAX_BYTES_PER_TRANSACTION
        &&& self.is_capella() ==> self.withdrawals_root is Some && self.bls_to_execution_changes_root is Some
    }

    fn payload_leaves_vec(&self, transactions_root: &Hash256) -> (leaves: Vec<Hash256>)
        requires
            self.is_capella() ==> self.withdrawals_root is Some,
        ensures
            nodes_view(leaves@) == self.payload_leaves(transactions_root@),
            leaves.len() == spec_layout_of(self.slot).execution_payload_fields_count,
    {
        let mut leaves: Vec<Hash256> = Vec::new();
        leaves.push(self.parent_hash_root);
        leaves.push(self.fee_recipient_root);
        leaves.push(self.state_root);
        leaves.push(self.receipts_root);
        leaves.push(self.logs_bloom_root);
        leaves.push(self.prev_randao_root);
        leaves.push(self.block_number_root);
        leaves.push(self.gas_limit_root);
        leaves.push(self.gas_used_root);
        leaves.push(self.timestamp_root);
        leaves.push(self.extra_data_root);
        leaves.push(self.base_fee_per_gas_root);
        leaves.push(self.block_hash_root);
        leaves.push(*transactions_root);
        match fork_of(self.slot) {
            Fork::Capella => {
                match self.withdrawals_root {
                    Some(root) => {
                        leaves.push(root);
                    },
                    None => {},
                }
            },
            _ => {},
        }
        proof {
            assert(nodes_view(leaves@) =~= self.payload_leaves(transactions_root@));
        }
        leaves
    }

    fn body_leaves_vec(&self, execution_payload_root: &Hash256) -> (leaves: Vec<Hash256>)
        requires
            self.is_capella() ==> self.bls_to_execution_changes_root is Some,
        ensures
            nodes_view(leaves@) == self.body_leaves(execution_payload_root@),
            leaves.len() == spec_layout_of(self.slot).block_body_fields_count,
    {
        let mut leaves: Vec<Hash256> = Vec::new();
        leaves.push(self.randao_reveal_root);
        leaves.push(self.eth1_data_root);
        leaves.push(self.graffiti_root);
        leaves.push(self.proposer_slashings_root);
        leaves.push(self.attester_slashings_root);
        leaves.push(self.attestations_root);
        leaves.push(self.deposits_root);
        leaves.push(self.voluntary_exits_root);
        leaves.push(self.sync_aggregate_root);
        leaves.push(*execution_payload_root);
        match fork_of(self.slot) {
            Fork::Capella => {
                match self.bls_to_execution_changes_root {
                    Some(root) => {
                        leaves.push(root);
                    },
                    None => {},
                }
            },
            _ => {},
        }
        proof {
            assert(nodes_view(leaves@) =~= self.body_leaves(execution_payload_root@));
        }
        leaves
    }
}

impl CachedBeaconBlock {
    /// The cached roots are those of the block: every transaction hash
    /// is the root of its transaction, and each root above is the root
    /// of the tree over the roots below.
    pub open spec fn wf(self) -> bool {
        &&& self.original.cacheable()
        &&& self.transactions_depth == 20
        &&& nodes_view(self.transaction_hashes@) == transaction_roots(self.original.transactions@)
        &&& self.transactions_data_root@ == tree_root(nodes_view(self.transaction_hashes@), 20)
        &&& self.transactions_root@ == sha256(
            self.transactions_data_root@ + le_bytes(self.transaction_hashes@.len(), 32),
        )
        &&& self.execution_payload_root@ == tree_root(self.original.payload_leaves(self.transactions_root@), 4)
        &&& self.body_root@ == tree_root(self.original.body_leaves(self.execution_payload_root@), 4)
    }

    /// Hashes the transactions and the trees above them. `None` where
    /// the summary cannot be cached.
    pub fn from_summary(block: BeaconBlockSummary) -> (cached: Option<CachedBeaconBlock>)
        ensures
            cached is Some <==> block.cacheable(),
            cached matches Some(c) ==> c.wf() && c.original == block,
    {
        if block.transactions.len() > bellatrix::MAX_TRANSACTIONS_PER_PAYLOAD {
            return None;
        }
        match fork_of(block.slot) {
            Fork::Capella => {
                if block.withdrawals_root.is_none() || block.bls_to_execution_changes_root.is_none() {
                    return None;
                }
            },
            _ => {},
        }
        let mut transaction_hashes: Vec<Hash256> = Vec::new();
        let mut i: usize = 0;
        while i < block.transactions.len()
            invariant
                i <= block.transactions.len(),
                transaction_hashes.len() == i,
                forall|j: int|
                    0 <= j < i ==> (#[trigger] block.transactions[j])@.len()
                        <= bellatrix::MAX_BYTES_PER_TRANSACTION,
                forall|j: int|
                    0 <= j < i ==> (#[trigger] transaction_hashes[j])@ == ssz_byte_list_root(
                        block.transactions[j]@,
                    ),
            decreases block.transactions.len() - i,
        {
            match byte_list_root(block.transactions[i].as_slice()) {
                Some(root) => {
                    transaction_hashes.push(root);
                },
                None => {
                    return None;
                },
            }
            i = i + 1;
        }
        proof {
            assert(nodes_view(transaction_hashes@) =~= transaction_roots(block.transactions@));
        }
        let transactions_depth: usize = 20;
        let transactions_data_root = merkle_tree_root(transaction_hashes.as_slice(), transactions_depth);
        let length = length_hash(transaction_hashes.len());
        let transactions_root = hash32_concat(&transactions_data_root, &length);
        let payload_leaves = block.payload_leaves_vec(&transactions_root);
        let execution_payload_root = merkle_tree_root(payload_leaves.as_slice(), 4);
        let body_leaves = block.body_leaves_vec(&execution_payload_root);
        let body_root = merkle_tree_root(body_leaves.as_slice(), 4);
        Some(
            CachedBeaconBlock {
                body_root,
                execution_payload_root,
                transactions_root,
                transactions_depth,
                transactions_data_root,
                transaction_hashes,
                original: block,
            },
        )
    }

    /// What the block was cached from.
    pub fn original(&self) -> (block: &BeaconBlockSummary)
        ensures
            *block == self.original,
    {
        &self.original
    }

    /// The slot of the block.
    pub fn slot(&self) -> (slot: u64)
        ensures
            slot == self.original.slot,
    {
        self.original.slot
    }

    /// The number of the execution block.
    pub fn number(&self) -> (number: u64)
        ensures
            number == self.original.block_number,
    {
        self.original.block_number
    }

    /// How many transactions the block holds.
    pub fn transactions_count(&self) -> (count: usize)
        ensures
            count == self.original.transactions.len(),
    {
        self.original.transactions.len()
    }

    /// The bytes of transaction `index`, if there is one.
    pub fn transaction(&self, index: usize) -> (transaction: Option<&Vec<u8>>)
        ensures
            transaction is Some <==> index < self.original.transactions.len(),
            transaction is Some ==> *transaction.unwrap() == self.original.transactions[index as int],
    {
        if index < self.original.transactions.len() {
            Some(&self.original.transactions[index])
        } else {
            None
        }
    }

    /// The root of the block body.
    pub fn body_root(&self) -> (root: Hash256)
        ensures
            root == self.body_root,
    {
        self.body_root
    }

    /// The root of the execution payload.
    pub fn execution_payload_root(&self) -> (root: Hash256)
        ensures
            root == self.execution_payload_root,
    {
        self.execution_payload_root
    }

    /// The root of the list of transactions.
    pub fn transactions_root(&self) -> (root: Hash256)
        ensures
            root == self.transactions_root,
    {
        self.transactions_root
    }

    /// The root of the tree over the transactions, before the length is
    /// mixed in.
    pub fn transactions_data_root(&self) -> (root: Hash256)
        ensures
            root == self.transactions_data_root,
    {
        self.transactions_data_root
    }

    /// The branch of transaction `index` in the tree over the
    /// transactions.
    pub open spec fn spec_transaction_proof_for_transactions_data(self, index: nat) -> Seq<Seq<u8>> {
        tree_branch(nodes_view(self.transaction_hashes@), 20, index)
    }

    /// The branch of transaction `index` up to the root of the list: the
    /// length of the list is the last sibling.
    pub open spec fn spec_transaction_proof_for_transactions(self, index: nat) -> Seq<Seq<u8>> {
        self.spec_transaction_proof_for_transactions_data(index).push(
            le_bytes(self.transaction_hashes@.len(), 32),
        )
    }

    /// The branch of the transactions among the fields of the payload.
    pub open spec fn spec_transactions_field_proof(self) -> Seq<Seq<u8>> {
        tree_branch(self.original.payload_leaves(self.transactions_root@), 4, 13)
    }

    /// The branch of the receipts root among the fields of the payload.
    pub open spec fn spec_receipts_root_proof_for_execution_payload(self) -> Seq<Seq<u8>> {
        tree_branch(self.original.payload_leaves(self.transactions_root@), 4, 3)
    }

    /// The branch of the payload among the fields of the block body.
    pub open spec fn spec_payload_field_proof(self) -> Seq<Seq<u8>> {
        tree_branch(self.original.body_leaves(self.execution_payload_root@), 4, 9)
    }

    /// The branch of transaction `index` up to the root of the payload.
    pub open spec fn spec_transaction_proof_for_execution_payload(self, index: nat) -> Seq<Seq<u8>> {
        self.spec_transaction_proof_for_transactions(index) + self.spec_transactions_field_proof()
    }

    /// The branch of transaction `index` up to the root of the block body.
    pub open spec fn spec_transaction_proof_for_block_body(self, index: nat) -> Seq<Seq<u8>> {
        self.spec_transaction_proof_for_execution_payload(index) + self.spec_payload_field_proof()
    }

    /// The branch of the receipts root up to the root of the block body.
    pub open spec fn spec_receipts_root_proof_for_block_body(self) -> Seq<Seq<u8>> {
        self.spec_receipts_root_proof_for_execution_payload() + self.spec_payload_field_proof()
    }

    /// Builds the branch of transaction `index` in the tree over the
    /// transactions.
    pub fn generate_transaction_proof_for_transactions_data(&self, index: usize) -> (proof: Vec<Hash256>)
        requires
            self.wf(),
        ensures
            nodes_view(proof@) == self.spec_transaction_proof_for_transactions_data(index as nat),
    {
        merkle_tree_branch(self.transaction_hashes.as_slice(), self.transactions_depth, index)
    }

    /// Builds the branch of transaction `index` up to the root of the
    /// list of transactions.
    pub fn generate_transaction_proof_for_transactions(&self, index: usize) -> (proof: Vec<Hash256>)
        requires
            self.wf(),
        ensures
            nodes_view(proof@) == self.spec_transaction_proof_for_transactions(index as nat),
    {
        let mut proof = self.generate_transaction_proof_for_transactions_data(index);
        let item = length_hash(self.transaction_hashes.len());
        proof.push(item);
        proof {
            assert(nodes_view(proof@) =~= self.spec_transaction_proof_for_transactions(index as nat));
        }
        proof
    }

    fn payload_field_branch(&self, field_index: usize) -> (branch: Vec<Hash256>)
        requires
            self.wf(),
        ensures
            nodes_view(branch@) == tree_branch(
                self.original.payload_leaves(self.transactions_root@),
                4,
                field_index as nat,
            ),
    {
        let leaves = self.original.payload_leaves_vec(&self.transactions_root);
        merkle_tree_branch(leaves.as_slice(), bellatrix::EXECUTION_PAYLOAD_DEPTH as usize, field_index)
    }

    fn body_field_branch(&self, field_index: usize) -> (branch: Vec<Hash256>)
        requires
            self.wf(),
        ensures
            nodes_view(branch@) == tree_branch(
                self.original.body_leaves(self.execution_payload_root@),
                4,
                field_index as nat,
            ),
    {
        let leaves = self.original.body_leaves_vec(&self.execution_payload_root);
        merkle_tree_branch(leaves.as_slice(), bellatrix::BLOCK_BODY_DEPTH as usize, field_index)
    }

    /// Builds the branch of transaction `index` up to the root of the
    /// execution payload.
    pub fn generate_transaction_proof_for_execution_payload(&self, index: usize) -> (proof: Vec<Hash256>)
        requires
            self.wf(),
        ensures
            nodes_view(proof@) == self.spec_transaction_proof_for_execution_payload(index as nat),
    {
        let mut proof = self.generate_transaction_proof_for_transactions(index);
        let layout = layout_of(self.original.slot);
        let fields_proof = self.payload_field_branch(layout.transactions_in_execution_payload_index);
        extend_proof(&mut proof, &fields_proof);
        proof {
            assert(nodes_view(proof@) =~= self.spec_transaction_proof_for_execution_payload(index as nat));
        }
        proof
    }

    /// Builds the branch of transaction `index` up to the root of the
    /// block body.
    pub fn generate_transaction_proof_for_block_body(&self, index: usize) -> (proof: Vec<Hash256>)
        requires
            self.wf(),
        ensures
            nodes_view(proof@) == self.spec_transaction_proof_for_block_body(index as nat),
    {
        let mut proof = self.generate_transaction_proof_for_execution_payload(index);
        let layout = layout_of(self.original.slot);
        let fields_proof = self.body_field_branch(layout.execution_payload_in_block_body_index);
        extend_proof(&mut proof, &fields_proof);
        proof {
            assert(nodes_view(proof@) =~= self.spec_transaction_proof_for_block_body(index as nat));
        }
        proof
    }

    /// Builds the branch of the receipts root up to the root of the
    /// execution payload.
    pub fn generate_receipts_root_proof_for_execution_payload(&self) -> (proof: Vec<Hash256>)
        requires
            self.wf(),
        ensures
            nodes_view(proof@) == self.spec_receipts_root_proof_for_execution_payload(),
    {
        let layout = layout_of(self.original.slot);
        self.payload_field_branch(layout.receipts_root_in_execution_payload_index)
    }

    /// Builds the branch of the receipts root up to the root of the block
    /// body.
    pub fn generate_receipts_root_proof_for_block_body(&self) -> (proof: Vec<Hash256>)
        requires
            self.wf(),
        ensures
            nodes_view(proof@) == self.spec_receipts_root_proof_for_block_body(),
    {
        let mut proof = self.generate_receipts_root_proof_for_execution_payload();
        let layout = layout_of(self.original.slot);
        let fields_proof = self.body_field_branch(layout.execution_payload_in_block_body_index);
        extend_proof(&mut proof, &fields_proof);
        proof {
            assert(nodes_view(proof@) =~= self.spec_receipts_root_proof_for_block_body());
        }
        proof
    }
}

/// The four parts of a branch of 29 nodes: the levels of the
/// transactions, of the length, of the payload and of the block body.
proof fn lemma_split_transaction_branch(proof: Seq<Hash256>)
    requires
        proof.len() == 29,
    ensures
        proof == ((proof.subrange(0, 20) + proof.subrange(20, 21)) + proof.subrange(21, 25)) + proof.subrange(
            25,
            29,
        ),
{
    assert(proof =~= ((proof.subrange(0, 20) + proof.subrange(20, 21)) + proof.subrange(21, 25))
        + proof.subrange(25, 29));
}

impl CachedBeaconBlock {
    /// The branch that the prover builds for a transaction proves the
    /// transaction under the body root: it has the length of the path of
    /// the generalized index of the transaction, and folding the root of
    /// the transaction through it gives the body root.
    pub proof fn lemma_transaction_branch_proves(self, index: nat, proof: Seq<Hash256>)
        requires
            self.wf(),
            index < self.original.transactions.len(),
            nodes_view(proof) == self.spec_transaction_proof_for_block_body(index),
        ensures
            proof.len() == 29,
            spec_floor_depth(bellatrix::TRANSACTION_IN_BLOCK_BODY_OFFSET as nat + index) == 29,
            branch_root(
                ssz_byte_list_root(self.original.transactions[index as int]@),
                proof,
                29,
                bellatrix::TRANSACTION_IN_BLOCK_BODY_OFFSET as nat + index,
            ) == self.body_root@,
    {
        lemma2_to64();
        let g: nat = 866_123_776 + index;
        let leaf = ssz_byte_list_root(self.original.transactions[index as int]@);
        let hashes = nodes_view(self.transaction_hashes@);
        let payload = self.original.payload_leaves(self.transactions_root@);
        let body = self.original.body_leaves(self.execution_payload_root@);
        assert(nodes_view(proof).len() == 29);
        lemma_floor_depth_unique(g, 29);
        lemma_split_transaction_branch(proof);
        let a = proof.subrange(0, 20);
        let l = proof.subrange(20, 21);
        let b = proof.subrange(21, 25);
        let c = proof.subrange(25, 29);
        lemma_branch_root_concat(leaf, (a + l) + b, c, g);
        lemma_branch_root_concat(leaf, a + l, b, g);
        lemma_branch_root_concat(leaf, a, l, g);
        // The transaction in the tree over the transactions.
        assert(g % pow2(20) == index % pow2(20));
        lemma_branch_root_low_bits(leaf, a, 20, g, index);
        assert forall|j: int| 0 <= j < 20 implies (#[trigger] a[j])@ == tree_branch(hashes, 20, index)[j] by {
            assert(nodes_view(proof)[j] == proof[j]@);
        }
        assert(node_at(hashes, 0, index as int) == leaf);
        lemma_branch_proves_leaf(hashes, 20, index, a);
        let data_root = branch_root(leaf, a, 20, g);
        assert(data_root == self.transactions_data_root@);
        // The length of the list.
        assert(g / pow2(20) == 826);
        assert(nodes_view(proof)[20] == proof[20]@);
        assert(l[0]@ == le_bytes(self.transaction_hashes@.len(), 32));
        assert(branch_root(data_root, l, 0, 826) == data_root);
        let list_root = branch_root(data_root, l, 1, 826);
        assert(pow2(0) == 1);
        assert((826nat / pow2(0)) % 2 == 0);
        assert(list_root == sha256(data_root + l[0]@));
        assert(list_root == self.transactions_root@);
        // The transactions among the fields of the payload.
        assert(g / pow2(21) == 413);
        lemma_branch_root_low_bits(list_root, b, 4, 413, 13);
        assert forall|j: int| 0 <= j < 4 implies (#[trigger] b[j])@ == tree_branch(payload, 4, 13)[j] by {
            assert(nodes_view(proof)[21 + j] == proof[21 + j]@);
        }
        assert(node_at(payload, 0, 13) == list_root);
        lemma_branch_proves_leaf(payload, 4, 13, b);
        let payload_root = branch_root(list_root, b, 4, 413);
        assert(payload_root == self.execution_payload_root@);
        // The payload among the fields of the block body.
        assert(g / pow2(25) == 25);
        lemma_branch_root_low_bits(payload_root, c, 4, 25, 9);
        assert forall|j: int| 0 <= j < 4 implies (#[trigger] c[j])@ == tree_branch(body, 4, 9)[j] by {
            assert(nodes_view(proof)[25 + j] == proof[25 + j]@);
        }
        assert(node_at(body, 0, 9) == payload_root);
        lemma_branch_proves_leaf(body, 4, 9, c);
    }

    /// The branch that the prover builds for the receipts root proves it
    /// under the body root, at the generalized index of the receipts
    /// root.
    pub proof fn lemma_receipts_root_branch_proves(self, proof: Seq<Hash256>)
        requires
            self.wf(),
            nodes_view(proof) == self.spec_receipts_root_proof_for_block_body(),
        ensures
            proof.len() == 8,
            spec_floor_depth(bellatrix::RECEIPTS_ROOT_IN_BLOCK_BODY as nat) == 8,
            branch_root(self.original.receipts_root@, proof, 8, bellatrix::RECEIPTS_ROOT_IN_BLOCK_BODY as nat)
                == self.body_root@,
    {
        lemma2_to64();
        let leaf = self.original.receipts_root@;
        let payload = self.original.payload_leaves(self.transactions_root@);
        let body = self.original.body_leaves(self.execution_payload_root@);
        assert(nodes_view(proof).len() == 8);
        lemma_floor_depth_unique(403, 8);
        let b = proof.subrange(0, 4);
        let c = proof.subrange(4, 8);
        assert(proof =~= b + c);
        lemma_branch_root_concat(leaf, b, c, 403);
        lemma_branch_root_low_bits(leaf, b, 4, 403, 3);
        assert forall|j: int| 0 <= j < 4 implies (#[trigger] b[j])@ == tree_branch(payload, 4, 3)[j] by {
            assert(nodes_view(proof)[j] == proof[j]@);
        }
        assert(node_at(payload, 0, 3) == leaf);
        lemma_branch_proves_leaf(payload, 4, 3, b);
        let payload_root = branch_root(leaf, b, 4, 403);
        assert(payload_root == self.execution_payload_root@);
        assert(403nat / pow2(4) == 25);
        lemma_branch_root_low_bits(payload_root, c, 4, 25, 9);
        assert forall|j: int| 0 <= j < 4 implies (#[trigger] c[j])@ == tree_branch(body, 4, 9)[j] by {
            assert(nodes_view(proof)[4 + j] == proof[4 + j]@);
        }
        assert(node_at(body, 0, 9) == payload_root);
        lemma_branch_proves_leaf(body, 4, 9, c);
    }

    /// A transaction proof that carries the body root of the block, the
    /// index of one of its transactions and the branch built for it is
    /// accepted for the bytes of that transaction.
    pub proof fn lemma_built_transaction_proof_verifies(self, tx_proof: TransactionProof, index: nat)
        requires
            self.wf(),
            index < self.original.transactions.len(),
            tx_proof.header.body_root == self.body_root,
            tx_proof.transaction_index == index,
            nodes_view(tx_proof.transaction_ssz_proof@) == self.spec_transaction_proof_for_block_body(index),
        ensures
            tx_proof.spec_verify_transaction(self.original.transactions[index as int]@) is Ok,
    {
        self.lemma_transaction_branch_proves(index, tx_proof.transaction_ssz_proof@);
    }

    /// A transaction proof that carries the body root and the receipts
    /// root of the block and the branch built for the receipts root
    /// passes the check of the receipts root under the body root.
    pub proof fn lemma_built_receipts_root_proof_verifies(self, tx_proof: TransactionProof)
        requires
            self.wf(),
            tx_proof.header.body_root == self.body_root,
            tx_proof.receipts_root == self.original.receipts_root,
            nodes_view(tx_proof.receipts_root_ssz_proof@) == self.spec_receipts_root_proof_for_block_body(),
        ensures
            forall|receipt: Seq<u8>|
                tx_proof.spec_verify_receipt(receipt) != Err::<(), crate::error::TxVerificationError>(
                    crate::error::TxVerificationError::ReceiptsRootSszProof,
                ),
    {
        self.lemma_receipts_root_branch_proves(tx_proof.receipts_root_ssz_proof@);
    }
}

} // verus!
