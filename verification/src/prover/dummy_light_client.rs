//! A light client kept by the prover itself: it stores every header it
//! has seen and the mountain range over them, and builds the witnesses
//! of the updates that it applies.

use ckb_merkle_mountain_range::util::MemStore;
use std::collections::HashMap;
use vstd::prelude::*;

use crate::consensus_specs::helpers::spec_sync_committee_period_at_slot;
use crate::prover::light_client_bootstrap::{copy_hashes, LightClientBootstrap};
use crate::types::extension::tip_after;
use crate::types::records::{Client, ClientSyncCommittee, ClientUpdate, Header, HeaderDigest, SyncAggregate};
use crate::utilities::mmr::{
    digests_view,
    empty_store_nodes,
    leaf_index_to_mmr_size,
    leaf_index_to_pos,
    lemma_count_ones_bound,
    mem_store_new,
    mmr_gen_proof,
    mmr_get_root,
    mmr_proof_of,
    mmr_push,
    mmr_pushed,
    mmr_root_of,
    mmr_store_nodes,
    spec_leaf_index_to_mmr_size,
    spec_leaf_index_to_pos,
    HeaderWithCache,
    MAX_LEAF_INDEX,
};
use crate::utilities::ssz::Hash256;

verus! {

broadcast use vstd::std_specs::hash::group_hash_axioms;

/// A finality update as the consensus node gives it.
#[derive(Clone, Debug, PartialEq, Eq)]
pub struct FinalityUpdate {
    pub attested_header: Header,
    pub finality_branch: Vec<Hash256>,
    pub sync_aggregate: SyncAggregate,
    pub signature_slot: u64,
}

/// A light client of the prover's own.
pub struct DummyLightClient {
    client: Client,
    client_sync_committee: ClientSyncCommittee,
    store: MemStore<HeaderDigest>,
    headers: HashMap<u64, HeaderWithCache>,
}

/// The nodes and the size of a mountain range after the roots of
/// `headers` were pushed, one after the other, onto the range of
/// `mmr_size` nodes over `nodes`; `None` as soon as a push fails or the
/// range grows past what its arithmetic holds.
pub open spec fn pushed_all(nodes: Map<u64, Seq<u8>>, mmr_size: u64, headers: Seq<Header>) -> Option<
    (Map<u64, Seq<u8>>, u64),
>
    decreases headers.len(),
{
    if headers.len() == 0 {
        Some((nodes, mmr_size))
    } else {
        match pushed_all(nodes, mmr_size, headers.drop_last()) {
            None => None,
            Some((before, size)) => {
                if size >= 0x8000_0000_0000_0000 {
                    None
                } else {
                    mmr_pushed(before, size, headers.last().spec_tree_hash_root())
                }
            },
        }
    }
}

/// The positions in the mountain range of the leaves of `headers`, for
/// a client that starts at `minimal_slot`; `None` where a header lies
/// before the client or too far after its start.
pub open spec fn leaf_positions(minimal_slot: u64, headers: Seq<Header>) -> Option<Seq<u64>>
    decreases headers.len(),
{
    if headers.len() == 0 {
        Some(Seq::empty())
    } else {
        let last = headers.last();
        match leaf_positions(minimal_slot, headers.drop_last()) {
            None => None,
            Some(positions) => {
                if last.slot < minimal_slot || last.slot - minimal_slot > MAX_LEAF_INDEX {
                    None
                } else {
                    Some(positions.push(spec_leaf_index_to_pos((last.slot - minimal_slot) as u64) as u64))
                }
            },
        }
    }
}

/// The last of the first `n` headers that stands at `slot`, if any.
pub open spec fn last_at_slot(headers: Seq<Header>, n: nat, slot: u64) -> Option<int>
    decreases n,
{
    if n == 0 {
        None
    } else if headers[n - 1].slot == slot {
        Some(n - 1)
    } else {
        last_at_slot(headers, (n - 1) as nat, slot)
    }
}

/// What stands under `slot` after the first `n` headers were recorded:
/// the last of them at that slot, with its root; and what stood there
/// before, where none of them is at that slot.
pub open spec fn recorded_at(
    before: Map<u64, HeaderWithCache>,
    after: Map<u64, HeaderWithCache>,
    headers: Seq<Header>,
    n: nat,
    slot: u64,
) -> bool {
    match last_at_slot(headers, n, slot) {
        Some(i) => after.contains_key(slot) && after[slot].inner == headers[i] && after[slot].wf(),
        None => after.contains_key(slot) == before.contains_key(slot) && (before.contains_key(slot) ==> after[slot]
            == before[slot]),
    }
}

/// Whether `after` is `before` with the first `n` headers recorded, each
/// under its slot.
pub open spec fn headers_recorded(
    before: Map<u64, HeaderWithCache>,
    after: Map<u64, HeaderWithCache>,
    headers: Seq<Header>,
    n: nat,
) -> bool {
    forall|slot: u64| #[trigger] recorded_at(before, after, headers, n, slot)
}

/// A push that fails lets every longer run of pushes fail.
pub proof fn lemma_pushed_all_fails(nodes: Map<u64, Seq<u8>>, mmr_size: u64, headers: Seq<Header>, n: int)
    requires
        0 <= n <= headers.len(),
        pushed_all(nodes, mmr_size, headers.take(n)) is None || (pushed_all(nodes, mmr_size, headers.take(n))
            matches Some(grown) && grown.1 >= 0x8000_0000_0000_0000 && n < headers.len()),
    ensures
        pushed_all(nodes, mmr_size, headers) is None,
    decreases headers.len() - n,
{
    if n < headers.len() {
        assert(headers.take(n + 1).drop_last() =~= headers.take(n));
        lemma_pushed_all_fails(nodes, mmr_size, headers, n + 1);
    } else {
        assert(headers.take(n) =~= headers);
    }
}

/// A header without a position lets every longer run of headers be
/// without positions.
pub proof fn lemma_leaf_positions_fail(minimal_slot: u64, headers: Seq<Header>, n: int)
    requires
        0 <= n <= headers.len(),
        leaf_positions(minimal_slot, headers.take(n)) is None,
    ensures
        leaf_positions(minimal_slot, headers) is None,
    decreases headers.len() - n,
{
    if n < headers.len() {
        assert(headers.take(n + 1).drop_last() =~= headers.take(n));
        lemma_leaf_positions_fail(minimal_slot, headers, n + 1);
    } else {
        assert(headers.take(n) =~= headers);
    }
}

/// Whether a client over `nodes` can apply an update of `headers`: it
/// covers slots, few enough for a mountain range; every header has a
/// position; every push succeeds and keeps the range small enough; and
/// the grown range has a root and a proof for the new leaves.
pub open spec fn update_applies(before: Client, nodes: Map<u64, Seq<u8>>, headers: Seq<Header>) -> bool {
    &&& before.minimal_slot <= before.maximal_slot
    &&& before.maximal_slot - before.minimal_slot <= MAX_LEAF_INDEX
    &&& leaf_positions(before.minimal_slot, headers) matches Some(positions)
    &&& pushed_all(
        nodes,
        spec_leaf_index_to_mmr_size((before.maximal_slot - before.minimal_slot) as u64) as u64,
        headers,
    ) matches Some(grown)
    &&& grown.1 < 0x8000_0000_0000_0000
    &&& mmr_root_of(grown.0, grown.1) is Some
    &&& mmr_proof_of(grown.0, grown.1, positions) is Some
}

impl DummyLightClient {
    /// The client as it stands.
    pub closed spec fn spec_client(&self) -> Client {
        self.client
    }

    /// The sync committee of the client.
    pub closed spec fn spec_client_sync_committee(&self) -> ClientSyncCommittee {
        self.client_sync_committee
    }

    /// The nodes of the mountain range that the client keeps.
    pub closed spec fn nodes(&self) -> Map<u64, Seq<u8>> {
        mmr_store_nodes(self.store)
    }

    /// The headers that the client has seen, by slot.
    pub closed spec fn known_headers(&self) -> Map<u64, HeaderWithCache> {
        self.headers@
    }

    /// The size of the mountain range of the client, where its slots
    /// are few enough for one.
    pub open spec fn mmr_size(&self) -> u64 {
        spec_leaf_index_to_mmr_size(
            (self.spec_client().maximal_slot - self.spec_client().minimal_slot) as u64,
        ) as u64
    }

    /// Starts a client at a bootstrap: it covers the bootstrap slot, its
    /// mountain range holds the bootstrap header as its only leaf, it
    /// knows that header alone, and its sync committee is that of the
    /// bootstrap, with the period of the bootstrap slot. `None` where the
    /// mountain range refuses the leaf or has no root.
    pub fn new(bootstrap: &LightClientBootstrap) -> (started: Option<DummyLightClient>)
        ensures
            started matches Some(c) ==> {
                let header = bootstrap.original.header;
                &&& c.spec_client().id == 0
                &&& c.spec_client().minimal_slot == header.slot
                &&& c.spec_client().maximal_slot == header.slot
                &&& c.spec_client().tip_header_root@ == header.spec_tree_hash_root()
                &&& mmr_pushed(empty_store_nodes(), 0, header.spec_tree_hash_root()) matches Some(pushed)
                &&& c.nodes() == pushed.0
                &&& mmr_root_of(c.nodes(), pushed.1) == Some(c.spec_client().headers_mmr_root.children_hash@)
                &&& c.known_headers().dom() == set![header.slot]
                &&& c.known_headers()[header.slot].inner == header
                &&& c.known_headers()[header.slot].wf()
                &&& c.spec_client_sync_committee().period == spec_sync_committee_period_at_slot(header.slot)
                &&& c.spec_client_sync_committee().data.pubkeys@
                    == bootstrap.original.current_sync_committee.pubkeys@
                &&& c.spec_client_sync_committee().data.aggregate_pubkey
                    == bootstrap.original.current_sync_committee.aggregate_pubkey
            },
            started is None <==> {
                let header = bootstrap.original.header;
                match mmr_pushed(empty_store_nodes(), 0, header.spec_tree_hash_root()) {
                    None => true,
                    Some(pushed) => pushed.1 >= 0x8000_0000_0000_0000 || mmr_root_of(pushed.0, pushed.1) is None,
                }
            },
    {
        let mut headers: HashMap<u64, HeaderWithCache> = HashMap::new();
        let mut store = mem_store_new();
        let header_with_cache = bootstrap.original().header.calc_cache();
        let tip_header_root = header_with_cache.root;
        let size = match mmr_push(&mut store, 0, header_with_cache.digest()) {
            Some(size) => size,
            None => {
                return None;
            },
        };
        if size >= 0x8000_0000_0000_0000 {
            return None;
        }
        let headers_mmr_root = match mmr_get_root(&store, size) {
            Some(root) => root,
            None => {
                return None;
            },
        };
        let bootstrap_slot = bootstrap.slot();
        headers.insert(header_with_cache.inner.slot, header_with_cache);
        let client = Client {
            id: 0,
            minimal_slot: bootstrap_slot,
            maximal_slot: bootstrap_slot,
            tip_header_root,
            headers_mmr_root,
        };
        let client_sync_committee = bootstrap.build_client_sync_committee();
        proof {
            assert(headers@.dom() =~= set![bootstrap_slot]);
        }
        Some(DummyLightClient { client, client_sync_committee, store, headers })
    }

    /// The sync committee of the client.
    pub fn client_sync_committee(&self) -> (committee: &ClientSyncCommittee)
        ensures
            *committee == self.spec_client_sync_committee(),
    {
        &self.client_sync_committee
    }

    /// The client as it stands.
    pub fn client(&self) -> (client: &Client)
        ensures
            *client == self.spec_client(),
    {
        &self.client
    }

    /// The header that the client has seen at `slot`, if any.
    pub fn beacon_header_at_slot(&self, slot: u64) -> (header: Option<&HeaderWithCache>)
        ensures
            header is Some <==> self.known_headers().contains_key(slot),
            header is Some ==> *header.unwrap() == self.known_headers()[slot],
    {
        self.headers.get(&slot)
    }

    /// Builds the mountain-range proof of the header at `slot`: the
    /// items that the range of the client gives for the leaf of the
    /// slot. `None` where the slot lies before the client, the client
    /// covers more slots than a range holds, or the range has no proof.
    pub fn build_header_mmr_proof(&self, slot: u64) -> (proof: Option<Vec<HeaderDigest>>)
        ensures
            proof is Some ==> {
                let client = self.spec_client();
                &&& client.minimal_slot <= slot
                &&& client.minimal_slot <= client.maximal_slot
                &&& slot - client.minimal_slot <= MAX_LEAF_INDEX
                &&& client.maximal_slot - client.minimal_slot <= MAX_LEAF_INDEX
                &&& mmr_proof_of(
                    self.nodes(),
                    self.mmr_size(),
                    seq![spec_leaf_index_to_pos((slot - client.minimal_slot) as u64) as u64],
                ) == Some(digests_view(proof.unwrap()@))
            },
            proof is None ==> {
                let client = self.spec_client();
                ||| slot < client.minimal_slot
                ||| client.maximal_slot < client.minimal_slot
                ||| slot - client.minimal_slot > MAX_LEAF_INDEX
                ||| client.maximal_slot - client.minimal_slot > MAX_LEAF_INDEX
                ||| mmr_proof_of(
                    self.nodes(),
                    self.mmr_size(),
                    seq![spec_leaf_index_to_pos((slot - client.minimal_slot) as u64) as u64],
                ) is None
            },
    {
        if slot < self.client.minimal_slot || self.client.maximal_slot < self.client.minimal_slot {
            return None;
        }
        let index = slot - self.client.minimal_slot;
        let last_index = self.client.maximal_slot - self.client.minimal_slot;
        if index > MAX_LEAF_INDEX || last_index > MAX_LEAF_INDEX {
            return None;
        }
        proof {
            lemma_count_ones_bound((last_index + 1) as nat);
        }
        let position = leaf_index_to_pos(index);
        let mmr_size = leaf_index_to_mmr_size(last_index);
        let mut positions: Vec<u64> = Vec::new();
        positions.push(position);
        proof {
            assert(positions@ =~= seq![position]);
        }
        mmr_gen_proof(&self.store, mmr_size, positions)
    }

    /// Applies a finality update with the headers that it finalizes:
    /// records every header under its slot, pushes its root onto the
    /// mountain range, moves the client to the slot of the last header
    /// and to the root of the last header that is not empty, and builds
    /// the witness of the update, whose proof is the one that the grown
    /// range gives for the new leaves.
    ///
    /// `None` where the client covers more slots than a range holds, a
    /// header lies before the client or too far after its start, or the
    /// range refuses a push, has no root or no proof; the client is then
    /// as it was, but for the headers recorded and the pushes made up to
    /// there.
    pub fn apply_finality_update(&mut self, finality_update: &FinalityUpdate, headers: Vec<Header>) -> (update:
        Option<ClientUpdate>)
        ensures
            final(self).spec_client_sync_committee() == old(self).spec_client_sync_committee(),
            update is Some <==> update_applies(old(self).spec_client(), old(self).nodes(), headers@),
            update is None ==> final(self).spec_client() == old(self).spec_client(),
            update is None ==> exists|n: nat|
                n <= headers@.len() && #[trigger] headers_recorded(
                    old(self).known_headers(),
                    final(self).known_headers(),
                    headers@,
                    n,
                ),
            update matches Some(u) ==> {
                let before = old(self).spec_client();
                let after = final(self).spec_client();
                &&& before.minimal_slot <= before.maximal_slot
                &&& before.maximal_slot - before.minimal_slot <= MAX_LEAF_INDEX
                &&& u.attested_header == finality_update.attested_header
                &&& u.finality_branch@ == finality_update.finality_branch@
                &&& u.sync_aggregate == finality_update.sync_aggregate
                &&& u.signature_slot == finality_update.signature_slot
                &&& u.headers@ == headers@
                &&& after.id == before.id
                &&& after.minimal_slot == before.minimal_slot
                &&& headers@.len() > 0 ==> after.maximal_slot == headers@.last().slot
                &&& headers@.len() == 0 ==> after.maximal_slot == before.maximal_slot
                &&& after.tip_header_root@ == tip_after(headers@, before.tip_header_root@, headers@.len())
                &&& headers_recorded(
                    old(self).known_headers(),
                    final(self).known_headers(),
                    headers@,
                    headers@.len(),
                )
                &&& pushed_all(old(self).nodes(), old(self).mmr_size(), headers@) matches Some(grown)
                &&& final(self).nodes() == grown.0
                &&& mmr_root_of(grown.0, grown.1) == Some(after.headers_mmr_root.children_hash@)
                &&& leaf_positions(before.minimal_slot, headers@) matches Some(positions)
                &&& mmr_proof_of(grown.0, grown.1, positions) == Some(digests_view(u.new_headers_mmr_proof@))
            },
    {
        let ghost known = self.headers@;
        proof {
            assert forall|slot: u64| #[trigger] recorded_at(known, known, headers@, 0, slot) by {}
            assert(headers_recorded(old(self).known_headers(), self.known_headers(), headers@, 0));
        }
        if self.client.maximal_slot < self.client.minimal_slot {
            return None;
        }
        let last_index = self.client.maximal_slot - self.client.minimal_slot;
        if last_index > MAX_LEAF_INDEX {
            return None;
        }
        proof {
            lemma_count_ones_bound((last_index + 1) as nat);
        }
        let mut mmr_size = leaf_index_to_mmr_size(last_index);
        let mut positions: Vec<u64> = Vec::new();
        let mut maximal_slot = self.client.maximal_slot;
        let mut tip_header_root = self.client.tip_header_root;
        let minimal_slot = self.client.minimal_slot;
        let ghost old_nodes = self.nodes();
        let ghost old_size = mmr_size;
        let mut i: usize = 0;
        proof {
            assert(headers@.take(0) =~= Seq::<Header>::empty());
        }
        while i < headers.len()
            invariant
                i <= headers.len(),
                self.client == old(self).client,
                self.client_sync_committee == old(self).client_sync_committee,
                minimal_slot == self.client.minimal_slot,
                mmr_size < 0x8000_0000_0000_0000,
                old_nodes == old(self).nodes(),
                old_size == old(self).mmr_size(),
                self.client.minimal_slot <= self.client.maximal_slot,
                self.client.maximal_slot - self.client.minimal_slot <= MAX_LEAF_INDEX,
                pushed_all(old_nodes, old_size, headers@.take(i as int)) == Some((self.nodes(), mmr_size)),
                leaf_positions(minimal_slot, headers@.take(i as int)) == Some(positions@),
                i > 0 ==> maximal_slot == headers@[i - 1].slot,
                i == 0 ==> maximal_slot == self.client.maximal_slot,
                tip_header_root@ == tip_after(headers@, self.client.tip_header_root@, i as nat),
                known == old(self).known_headers(),
                headers_recorded(known, self.headers@, headers@, i as nat),
            decreases headers.len() - i,
        {
            let header = headers[i];
            proof {
                assert(headers@.take(i + 1).drop_last() =~= headers@.take(i as int));
                assert(headers@.take(i + 1).last() == header);
            }
            if header.slot < minimal_slot || header.slot - minimal_slot > MAX_LEAF_INDEX {
                proof {
                    lemma_leaf_positions_fail(minimal_slot, headers@, i + 1);
                    assert(headers_recorded(old(self).known_headers(), self.known_headers(), headers@, i as nat));
                }
                return None;
            }
            let index = header.slot - minimal_slot;
            let position = leaf_index_to_pos(index);
            let header_with_cache = header.calc_cache();
            let ghost recorded = self.headers@;
            self.headers.insert(header_with_cache.inner.slot, header_with_cache);
            proof {
                assert forall|slot: u64| #[trigger] recorded_at(
                    known,
                    self.headers@,
                    headers@,
                    (i + 1) as nat,
                    slot,
                ) by {
                    assert(recorded_at(known, recorded, headers@, i as nat, slot));
                }
                assert(headers_recorded(known, self.headers@, headers@, (i + 1) as nat));
            }
            let new_size = match mmr_push(&mut self.store, mmr_size, header_with_cache.digest()) {
                Some(size) => size,
                None => {
                    proof {
                        lemma_pushed_all_fails(old_nodes, old_size, headers@, i + 1);
                        assert(headers_recorded(
                            old(self).known_headers(),
                            self.known_headers(),
                            headers@,
                            (i + 1) as nat,
                        ));
                    }
                    return None;
                },
            };
            if new_size >= 0x8000_0000_0000_0000 {
                proof {
                    if i + 1 < headers@.len() {
                        lemma_pushed_all_fails(old_nodes, old_size, headers@, i + 1);
                    } else {
                        assert(headers@.take(i + 1) =~= headers@);
                    }
                    assert(headers_recorded(
                        old(self).known_headers(),
                        self.known_headers(),
                        headers@,
                        (i + 1) as nat,
                    ));
                }
                return None;
            }
            mmr_size = new_size;
            maximal_slot = header.slot;
            if !header.is_empty() {
                tip_header_root = header_with_cache.root;
            }
            positions.push(position);
            i = i + 1;
        }
        proof {
            assert(headers@.take(headers@.len() as int) =~= headers@);
        }
        proof {
            assert(headers_recorded(old(self).known_headers(), self.known_headers(), headers@, headers@.len()));
        }
        let headers_mmr_root = match mmr_get_root(&self.store, mmr_size) {
            Some(root) => root,
            None => {
                return None;
            },
        };
        let new_headers_mmr_proof = match mmr_gen_proof(&self.store, mmr_size, positions) {
            Some(items) => items,
            None => {
                return None;
            },
        };
        self.client.maximal_slot = maximal_slot;
        self.client.tip_header_root = tip_header_root;
        self.client.headers_mmr_root = headers_mmr_root;
        Some(
            ClientUpdate {
                attested_header: finality_update.attested_header,
                finality_branch: copy_hashes(&finality_update.finality_branch),
                sync_aggregate: finality_update.sync_aggregate,
                signature_slot: finality_update.signature_slot,
                new_headers_mmr_proof,
                headers,
            },
        )
    }
}

} // verus!
