//! The receipts of an execution block: their encoding, the trie that
//! holds them by index, and the proofs out of that trie.

use cita_trie::Trie;
use std::sync::Arc;
use vstd::prelude::*;

use crate::utilities::rlp_encoding::{
    lemma_rlp_bytes_nonempty,
    lemma_rlp_list_nonempty,
    rlp_encode_bytes,
    rlp_encode_list,
    rlp_encode_u64,
    spec_rlp_bytes,
    spec_rlp_list,
    spec_rlp_uint,
    strings_view,
    RLP_LENGTH_LIMIT,
};
use crate::utilities::ssz::Hash256;

verus! {

/// A log of a transaction.
#[derive(Clone, Debug, PartialEq, Eq)]
pub struct Log {
    pub address: [u8; 20],
    pub topics: Vec<[u8; 32]>,
    pub data: Vec<u8>,
}

/// What the encoding reads of the receipt of a transaction.
#[derive(Clone, Debug, PartialEq, Eq)]
pub struct Receipt {
    /// 1 for success, 0 for failure.
    pub status: u64,
    /// The gas used in the block up to and with the transaction, as a
    /// number of 256 bits in big-endian order.
    pub cumulative_gas_used: [u8; 32],
    pub logs_bloom: [u8; 256],
    pub logs: Vec<Log>,
    /// The type of the transaction; none for a legacy transaction.
    pub transaction_type: Option<u64>,
}

/// `bytes` without its leading zero bytes.
pub open spec fn strip_leading_zeros(bytes: Seq<u8>) -> Seq<u8>
    decreases bytes.len(),
{
    if bytes.len() > 0 && bytes[0] == 0 {
        strip_leading_zeros(bytes.drop_first())
    } else {
        bytes
    }
}

/// The encoded topics, one after the other.
pub open spec fn topics_payload(topics: Seq<[u8; 32]>) -> Seq<u8>
    decreases topics.len(),
{
    if topics.len() == 0 {
        Seq::empty()
    } else {
        topics_payload(topics.drop_last()) + spec_rlp_bytes(topics.last()@)
    }
}

/// The three encoded fields of a log: address, topics, data.
pub open spec fn spec_log_payload(log: Log) -> Seq<u8> {
    spec_rlp_bytes(log.address@) + spec_rlp_list(topics_payload(log.topics@)) + spec_rlp_bytes(log.data@)
}

/// The encoding of a log: the list of its three fields.
pub open spec fn spec_encode_log(log: Log) -> Seq<u8> {
    spec_rlp_list(spec_log_payload(log))
}

/// The encoded logs, one after the other.
pub open spec fn logs_payload(logs: Seq<Log>) -> Seq<u8>
    decreases logs.len(),
{
    if logs.len() == 0 {
        Seq::empty()
    } else {
        logs_payload(logs.drop_last()) + spec_encode_log(logs.last())
    }
}

/// The four encoded fields of a receipt: status, cumulative gas used,
/// logs bloom, logs.
pub open spec fn spec_receipt_payload(receipt: Receipt) -> Seq<u8> {
    spec_rlp_uint(receipt.status) + spec_rlp_bytes(strip_leading_zeros(receipt.cumulative_gas_used@))
        + spec_rlp_bytes(receipt.logs_bloom@) + spec_rlp_list(logs_payload(receipt.logs@))
}

/// The encoding of a receipt: the list of its four fields, after the
/// byte of the transaction type for the types 1 and 2.
pub open spec fn spec_encode_receipt(receipt: Receipt) -> Seq<u8> {
    let legacy = spec_rlp_list(spec_receipt_payload(receipt));
    match receipt.transaction_type {
        Some(t) => if t == 1 || t == 2 {
            seq![t as u8] + legacy
        } else {
            legacy
        },
        None => legacy,
    }
}

/// Whether every part of a log is short enough for a length of 32 bits.
pub open spec fn log_encodable(log: Log) -> bool {
    &&& log.data@.len() < RLP_LENGTH_LIMIT
    &&& topics_payload(log.topics@).len() < RLP_LENGTH_LIMIT
    &&& spec_log_payload(log).len() < RLP_LENGTH_LIMIT
}

/// Whether every part of a receipt is short enough for a length of 32
/// bits.
pub open spec fn receipt_encodable(receipt: Receipt) -> bool {
    &&& forall|i: int| 0 <= i < receipt.logs@.len() ==> log_encodable(#[trigger] receipt.logs@[i])
    &&& logs_payload(receipt.logs@).len() < RLP_LENGTH_LIMIT
    &&& spec_receipt_payload(receipt).len() < RLP_LENGTH_LIMIT
}

/// The payload of the topics is empty only without topics, and grows
/// with them.
pub proof fn lemma_topics_payload_len(topics: Seq<[u8; 32]>, n: int)
    requires
        0 <= n <= topics.len(),
    ensures
        (topics_payload(topics).len() == 0) == (topics.len() == 0),
        topics_payload(topics.take(n)).len() <= topics_payload(topics).len(),
    decreases topics.len(),
{
    if topics.len() > 0 {
        lemma_rlp_bytes_nonempty(topics.last()@);
        if n < topics.len() {
            lemma_topics_payload_len(topics.drop_last(), n);
            assert(topics.drop_last().take(n) =~= topics.take(n));
        } else {
            assert(topics.take(n) =~= topics);
        }
    } else {
        assert(topics.take(n) =~= topics);
    }
}

/// The payload of the logs is empty only without logs, and grows with
/// them.
pub proof fn lemma_logs_payload_len(logs: Seq<Log>, n: int)
    requires
        0 <= n <= logs.len(),
    ensures
        (logs_payload(logs).len() == 0) == (logs.len() == 0),
        logs_payload(logs.take(n)).len() <= logs_payload(logs).len(),
    decreases logs.len(),
{
    if logs.len() > 0 {
        lemma_rlp_list_nonempty(spec_log_payload(logs.last()));
        if n < logs.len() {
            lemma_logs_payload_len(logs.drop_last(), n);
            assert(logs.drop_last().take(n) =~= logs.take(n));
        } else {
            assert(logs.take(n) =~= logs);
        }
    } else {
        assert(logs.take(n) =~= logs);
    }
}

/// Appends `more` to `out`.
pub fn append_bytes(out: &mut Vec<u8>, more: &[u8])
    ensures
        final(out)@ == old(out)@ + more@,
{
    let mut i: usize = 0;
    while i < more.len()
        invariant
            i <= more.len(),
            out@ == old(out)@ + more@.take(i as int),
        decreases more.len() - i,
    {
        out.push(more[i]);
        proof {
            assert(out@ =~= old(out)@ + more@.take(i + 1));
        }
        i = i + 1;
    }
    proof {
        assert(more@.take(more@.len() as int) =~= more@);
    }
}

/// Whether a length fits the 32 bits of an RLP length.
fn fits(length: usize) -> (short: bool)
    ensures
        short == (length < RLP_LENGTH_LIMIT),
{
    (length as u64) < RLP_LENGTH_LIMIT
}

/// The part of `bytes` after its leading zero bytes.
fn skip_leading_zeros(bytes: &[u8; 32]) -> (rest: Vec<u8>)
    ensures
        rest@ == strip_leading_zeros(bytes@),
        rest@.len() <= 32,
{
    let mut start: usize = 0;
    proof {
        assert(bytes@.skip(0) =~= bytes@);
    }
    while start < 32 && bytes[start] == 0
        invariant
            start <= 32,
            strip_leading_zeros(bytes@) == strip_leading_zeros(bytes@.skip(start as int)),
        decreases 32 - start,
    {
        proof {
            assert(bytes@.skip(start as int).drop_first() =~= bytes@.skip(start + 1));
        }
        start = start + 1;
    }
    let mut rest: Vec<u8> = Vec::new();
    let mut i: usize = start;
    while i < 32
        invariant
            start <= i <= 32,
            rest@ == bytes@.subrange(start as int, i as int),
        decreases 32 - i,
    {
        rest.push(bytes[i]);
        proof {
            assert(rest@ =~= bytes@.subrange(start as int, i + 1));
        }
        i = i + 1;
    }
    proof {
        assert(bytes@.subrange(start as int, 32) =~= bytes@.skip(start as int));
    }
    rest
}

/// Encodes a log as the list of its address, its topics and its data.
/// `None` where a part is too long for a length of 32 bits.
pub fn encode_log(log: &Log) -> (encoded: Option<Vec<u8>>)
    ensures
        encoded is Some <==> log_encodable(*log),
        encoded is Some ==> encoded.unwrap()@ == spec_encode_log(*log),
{
    if !fits(log.data.len()) {
        return None;
    }
    let mut topics: Vec<u8> = Vec::new();
    let mut i: usize = 0;
    proof {
        assert(log.topics@.take(0) =~= Seq::<[u8; 32]>::empty());
    }
    while i < log.topics.len()
        invariant
            i <= log.topics.len(),
            topics@ == topics_payload(log.topics@.take(i as int)),
            topics@.len() < RLP_LENGTH_LIMIT,
        decreases log.topics.len() - i,
    {
        let topic = rlp_encode_bytes(log.topics[i].as_slice());
        append_bytes(&mut topics, topic.as_slice());
        proof {
            assert(log.topics@.take(i + 1).drop_last() =~= log.topics@.take(i as int));
            assert(log.topics@.take(i + 1).last() == log.topics@[i as int]);
            lemma_topics_payload_len(log.topics@, i + 1);
        }
        if !fits(topics.len()) {
            return None;
        }
        i = i + 1;
    }
    proof {
        assert(log.topics@.take(log.topics@.len() as int) =~= log.topics@);
        lemma_topics_payload_len(log.topics@, 0);
    }
    let mut payload = rlp_encode_bytes(log.address.as_slice());
    let topics_list = rlp_encode_list(topics.as_slice(), log.topics.len());
    append_bytes(&mut payload, topics_list.as_slice());
    let data = rlp_encode_bytes(log.data.as_slice());
    append_bytes(&mut payload, data.as_slice());
    if !fits(payload.len()) {
        return None;
    }
    proof {
        lemma_rlp_bytes_nonempty(log.address@);
    }
    Some(rlp_encode_list(payload.as_slice(), 3))
}

/// Encodes the receipt of a transaction: the RLP list of status,
/// cumulative gas used, logs bloom and logs, after the byte of the
/// transaction type for the types 1 and 2. `None` where a part is too
/// long for a length of 32 bits.
pub fn encode_receipt(receipt: &Receipt) -> (encoded: Option<Vec<u8>>)
    ensures
        encoded is Some <==> receipt_encodable(*receipt),
        encoded is Some ==> encoded.unwrap()@ == spec_encode_receipt(*receipt),
{
    let mut logs: Vec<u8> = Vec::new();
    let mut i: usize = 0;
    proof {
        assert(receipt.logs@.take(0) =~= Seq::<Log>::empty());
    }
    while i < receipt.logs.len()
        invariant
            i <= receipt.logs.len(),
            logs@ == logs_payload(receipt.logs@.take(i as int)),
            logs@.len() < RLP_LENGTH_LIMIT,
            forall|j: int| 0 <= j < i ==> log_encodable(#[trigger] receipt.logs@[j]),
        decreases receipt.logs.len() - i,
    {
        let log = match encode_log(&receipt.logs[i]) {
            Some(log) => log,
            None => {
                return None;
            },
        };
        append_bytes(&mut logs, log.as_slice());
        proof {
            assert(receipt.logs@.take(i + 1).drop_last() =~= receipt.logs@.take(i as int));
            assert(receipt.logs@.take(i + 1).last() == receipt.logs@[i as int]);
            lemma_logs_payload_len(receipt.logs@, i + 1);
        }
        if !fits(logs.len()) {
            return None;
        }
        i = i + 1;
    }
    proof {
        assert(receipt.logs@.take(receipt.logs@.len() as int) =~= receipt.logs@);
        lemma_logs_payload_len(receipt.logs@, 0);
    }
    let mut payload = rlp_encode_u64(receipt.status);
    let used_gas = skip_leading_zeros(&receipt.cumulative_gas_used);
    let gas = rlp_encode_bytes(used_gas.as_slice());
    append_bytes(&mut payload, gas.as_slice());
    let bloom = rlp_encode_bytes(receipt.logs_bloom.as_slice());
    append_bytes(&mut payload, bloom.as_slice());
    let logs_list = rlp_encode_list(logs.as_slice(), receipt.logs.len());
    append_bytes(&mut payload, logs_list.as_slice());
    if !fits(payload.len()) {
        return None;
    }
    proof {
        lemma_rlp_bytes_nonempty(receipt.logs_bloom@);
    }
    let legacy_receipt = rlp_encode_list(payload.as_slice(), 4);
    match receipt.transaction_type {
        Some(tx_type) => {
            if tx_type == 1 || tx_type == 2 {
                let mut typed: Vec<u8> = Vec::new();
                typed.push(tx_type as u8);
                append_bytes(&mut typed, legacy_receipt.as_slice());
                proof {
                    assert(typed@ =~= seq![tx_type as u8] + legacy_receipt@);
                }
                Some(typed)
            } else {
                Some(legacy_receipt)
            }
        },
        None => Some(legacy_receipt),
    }
}

/// The Patricia trie of the trie crate over its in-memory database, with
/// its Keccak-256 hasher. Verified code sees none of its insides.
#[verifier::external_body]
pub struct ReceiptsTrie {
    inner: cita_trie::PatriciaTrie<cita_trie::MemoryDB, hasher::HasherKeccak>,
}

/// The values that a trie holds, by key.
pub uninterp spec fn trie_entries(trie: ReceiptsTrie) -> Map<Seq<u8>, Seq<u8>>;

/// Whether the nodes of a trie were written to its database. A trie
/// takes entries only before that, and gives proofs only after it.
pub uninterp spec fn trie_committed(trie: ReceiptsTrie) -> bool;

/// What writing the nodes of the trie that holds the given entries gives:
/// its root hash, or `None` where the trie cannot write or read back its
/// nodes.
pub uninterp spec fn trie_root_of(entries: Map<Seq<u8>, Seq<u8>>) -> Option<Seq<u8>>;

/// What the committed trie that holds the given entries gives as the
/// proof of `key`: the encoded nodes from its root down along the key, or
/// `None` where it cannot read a node.
pub uninterp spec fn trie_proof_of(entries: Map<Seq<u8>, Seq<u8>>, key: Seq<u8>) -> Option<Seq<Seq<u8>>>;

/// The entries of a trie with nothing in it.
pub open spec fn no_entries() -> Map<Seq<u8>, Seq<u8>> {
    Map::empty()
}

/// Makes a `PatriciaTrie` of the trie crate over a new `MemoryDB` with a
/// `HasherKeccak`: a trie that holds nothing and has written nothing.
#[verifier::external_body]
fn trie_new() -> (trie: ReceiptsTrie)
    ensures
        trie_entries(trie) == no_entries(),
        !trie_committed(trie),
{
    let database = Arc::new(cita_trie::MemoryDB::new(true));
    ReceiptsTrie { inner: cita_trie::PatriciaTrie::new(database, Arc::new(hasher::HasherKeccak::new())) }
}

/// Calls `insert` of the trie, which sets the value of the key. Only a
/// trie that has not written its nodes is handed in: all its nodes are
/// then in memory, where an insert of a value that is not empty walks
/// and rebuilds them and cannot fail.
#[verifier::external_body]
fn trie_insert(trie: &mut ReceiptsTrie, key: Vec<u8>, value: Vec<u8>) -> (inserted: bool)
    requires
        value@.len() > 0,
        !trie_committed(*old(trie)),
    ensures
        inserted,
        trie_entries(*final(trie)) == trie_entries(*old(trie)).insert(key@, value@),
        !trie_committed(*final(trie)),
{
    trie.inner.insert(key, value).is_ok()
}

/// Calls `root` of the trie, which writes the nodes to the database and
/// gives the root hash; the entries stay as they are. Whether it
/// succeeds, and the root hash, are taken as a function of the entries.
#[verifier::external_body]
fn trie_root(trie: &mut ReceiptsTrie) -> (root: Option<Vec<u8>>)
    ensures
        trie_entries(*final(trie)) == trie_entries(*old(trie)),
        root is Some <==> trie_root_of(trie_entries(*old(trie))) is Some,
        root is Some ==> trie_root_of(trie_entries(*old(trie))) == Some(root.unwrap()@) && trie_committed(
            *final(trie),
        ),
{
    trie.inner.root().ok()
}

/// Calls `get_proof` of the trie for a key. Whether a committed trie
/// hands out a proof, and its nodes, are taken as a function of the
/// entries and the key.
#[verifier::external_body]
fn trie_get_proof(trie: &ReceiptsTrie, key: &[u8]) -> (proof: Option<Vec<Vec<u8>>>)
    requires
        trie_committed(*trie),
    ensures
        proof is Some <==> trie_proof_of(trie_entries(*trie), key@) is Some,
        proof is Some ==> trie_proof_of(trie_entries(*trie), key@) == Some(strings_view(proof.unwrap()@)),
{
    trie.inner.get_proof(key).ok()
}

/// The entries of the trie of the first `n` receipts: each receipt,
/// encoded, under the RLP encoding of its index.
pub open spec fn receipt_entries(receipts: Seq<Receipt>, n: nat) -> Map<Seq<u8>, Seq<u8>>
    decreases n,
{
    if n == 0 {
        Map::empty()
    } else {
        receipt_entries(receipts, (n - 1) as nat).insert(
            spec_rlp_uint((n - 1) as u64),
            spec_encode_receipt(receipts[n - 1]),
        )
    }
}

/// Whether the trie of the receipts can be built: every receipt can be
/// encoded, and the trie that holds them all has a root hash of 32
/// bytes.
pub open spec fn receipts_trie_builds(receipts: Seq<Receipt>) -> bool {
    &&& forall|i: int| 0 <= i < receipts.len() ==> receipt_encodable(#[trigger] receipts[i])
    &&& trie_root_of(receipt_entries(receipts, receipts.len())) matches Some(root)
    &&& root.len() == 32
}

/// The receipts of a block and the trie over them.
pub struct Receipts {
    root: Hash256,
    trie: ReceiptsTrie,
    original: Vec<Receipt>,
}

impl Receipts {
    /// The receipts, in the order of their transactions.
    pub closed spec fn receipts(&self) -> Seq<Receipt> {
        self.original@
    }

    /// The entries of the trie.
    pub closed spec fn entries(&self) -> Map<Seq<u8>, Seq<u8>> {
        trie_entries(self.trie)
    }

    /// The root hash of the trie.
    pub closed spec fn spec_root(&self) -> Hash256 {
        self.root
    }

    /// The trie holds every receipt under its index, it is committed, and
    /// the root is its root hash.
    pub closed spec fn wf(&self) -> bool {
        &&& trie_committed(self.trie)
        &&& self.original@.len() <= u64::MAX
        &&& trie_entries(self.trie) == receipt_entries(self.original@, self.original@.len())
        &&& trie_root_of(trie_entries(self.trie)) == Some(self.root@)
        &&& forall|i: int| 0 <= i < self.original@.len() ==> receipt_encodable(#[trigger] self.original@[i])
    }

    /// What well-formedness means, in the terms of the accessors.
    pub proof fn lemma_wf(&self)
        requires
            self.wf(),
        ensures
            self.entries() == receipt_entries(self.receipts(), self.receipts().len()),
            trie_root_of(self.entries()) == Some(self.spec_root()@),
            forall|i: int| 0 <= i < self.receipts().len() ==> receipt_encodable(#[trigger] self.receipts()[i]),
    {
    }

    /// Builds the trie of the receipts: receipt `i`, encoded, goes under
    /// the RLP encoding of `i`, and the root is the root hash of the trie
    /// of all of them. `None` where a receipt cannot be encoded or the
    /// trie has no root hash of 32 bytes.
    pub fn from_receipts(receipts: Vec<Receipt>) -> (built: Option<Receipts>)
        ensures
            built is Some <==> receipts_trie_builds(receipts@),
            built matches Some(r) ==> {
                &&& r.wf()
                &&& r.receipts() == receipts@
                &&& r.entries() == receipt_entries(receipts@, receipts@.len())
                &&& trie_root_of(r.entries()) == Some(r.spec_root()@)
            },
    {
        let mut trie = trie_new();
        let mut i: usize = 0;
        while i < receipts.len()
            invariant
                i <= receipts.len(),
                !trie_committed(trie),
                trie_entries(trie) == receipt_entries(receipts@, i as nat),
                forall|j: int| 0 <= j < i ==> receipt_encodable(#[trigger] receipts@[j]),
            decreases receipts.len() - i,
        {
            let key = rlp_encode_u64(i as u64);
            let value = match encode_receipt(&receipts[i]) {
                Some(value) => value,
                None => {
                    return None;
                },
            };
            proof {
                lemma_rlp_list_nonempty(spec_receipt_payload(receipts@[i as int]));
            }
            trie_insert(&mut trie, key, value);
            i = i + 1;
        }
        let trie_root = match trie_root(&mut trie) {
            Some(root) => root,
            None => {
                return None;
            },
        };
        if trie_root.len() != 32 {
            return None;
        }
        let mut root: Hash256 = [0u8; 32];
        let mut k: usize = 0;
        while k < 32
            invariant
                k <= 32,
                trie_root.len() == 32,
                forall|j: int| 0 <= j < k ==> root@[j] == trie_root@[j],
            decreases 32 - k,
        {
            root[k] = trie_root[k];
            k = k + 1;
        }
        proof {
            assert(root@ =~= trie_root@);
        }
        Some(Receipts { root, trie, original: receipts })
    }

    /// The receipts that the trie was built from.
    pub fn original(&self) -> (receipts: &Vec<Receipt>)
        ensures
            receipts@ == self.receipts(),
    {
        &self.original
    }

    /// The root hash of the trie.
    pub fn root(&self) -> (root: Hash256)
        ensures
            root == self.spec_root(),
    {
        self.root
    }

    /// The proof of the receipt at `index`: what the trie gives for the
    /// key of the index, the encoded nodes from the root down along the
    /// key. `None` where the trie gives no proof.
    pub fn generate_proof(&self, index: usize) -> (proof: Option<Vec<Vec<u8>>>)
        requires
            self.wf(),
        ensures
            proof is Some <==> trie_proof_of(self.entries(), spec_rlp_uint(index as u64)) is Some,
            proof is Some ==> trie_proof_of(self.entries(), spec_rlp_uint(index as u64)) == Some(
                strings_view(proof.unwrap()@),
            ),
    {
        let key = rlp_encode_u64(index as u64);
        trie_get_proof(&self.trie, key.as_slice())
    }

    /// The encoding of the receipt at `index`.
    pub fn encode_data(&self, index: usize) -> (encoded: Vec<u8>)
        requires
            self.wf(),
            index < self.receipts().len(),
        ensures
            encoded@ == spec_encode_receipt(self.receipts()[index as int]),
    {
        match encode_receipt(&self.original[index]) {
            Some(encoded) => encoded,
            None => Vec::new(),
        }
    }
}

} // verus!
