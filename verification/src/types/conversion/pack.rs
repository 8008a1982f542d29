//! Packed forms of the records that vary in size: a proof of nodes that
//! vary in size, and the tables.

use vstd::prelude::*;

use crate::types::conversion::table::{
    bounded_parts,
    bounds_rise,
    framable,
    frame,
    frame_parts,
    lemma_bounds_order,
    lemma_frame_injective,
    split_frame,
};
use crate::types::conversion::vector::vector_encoding;
use crate::types::prelude::Pack;
use crate::types::records::{
    ClientBootstrap,
    ClientSyncCommittee,
    ClientUpdate,
    Header,
    HeaderDigest,
    SyncAggregate,
    SyncCommittee,
    SyncCommitteeUpdate,
    TransactionPayload,
    TransactionProof,
};
use crate::utilities::rlp_encoding::strings_view;

verus! {

/// The packed forms of the nodes of a proof.
pub open spec fn nodes_parts(nodes: Seq<Vec<u8>>) -> Seq<Seq<u8>> {
    Seq::new(nodes.len(), |i: int| vector_encoding(nodes[i]@))
}

impl Pack for Vec<Vec<u8>> {
    open spec fn spec_pack(&self) -> Seq<u8> {
        frame(nodes_parts(self@))
    }

    open spec fn packable(&self) -> bool {
        &&& forall|i: int| 0 <= i < self@.len() ==> (#[trigger] self@[i]).packable()
        &&& framable(nodes_parts(self@))
    }

    open spec fn same(&self, other: &Self) -> bool {
        &&& self@.len() == other@.len()
        &&& forall|i: int| 0 <= i < self@.len() ==> (#[trigger] self@[i])@ == other@[i]@
    }

    proof fn lemma_pack_injective(&self, other: &Self) {
        lemma_frame_injective(nodes_parts(self@), nodes_parts(other@));
        assert forall|i: int| 0 <= i < self@.len() implies (#[trigger] self@[i])@ == other@[i]@ by {
            assert(nodes_parts(self@)[i] == nodes_parts(other@)[i]);
            self@[i].lemma_pack_injective(&other@[i]);
        }
    }

    fn pack(&self) -> (packed: Vec<u8>) {
        let mut parts: Vec<Vec<u8>> = Vec::new();
        let mut i: usize = 0;
        while i < self.len()
            invariant
                i <= self.len(),
                parts@.len() == i,
                forall|j: int| 0 <= j < self@.len() ==> (#[trigger] self@[j]).packable(),
                forall|j: int| 0 <= j < i ==> (#[trigger] parts@[j])@ == vector_encoding(self@[j]@),
            decreases self.len() - i,
        {
            assert(self@[i as int].packable());
            parts.push(self[i].pack());
            i = i + 1;
        }
        proof {
            assert(strings_view(parts@) =~= nodes_parts(self@));
        }
        frame_parts(&parts)
    }

    fn unpack_from(bytes: &[u8], start: usize, end: usize) -> (value: Option<Self>) {
        let ghost region = bytes@.subrange(start as int, end as int);
        let bounds = match split_frame(bytes, start, end) {
            Some(bounds) => bounds,
            None => {
                proof {
                    assert forall|x: Self| x.packable() implies #[trigger] x.spec_pack() != region by {
                        assert(framable(nodes_parts(x@)));
                    }
                }
                return None;
            },
        };
        let ghost parts = bounded_parts(bytes@, bounds@);
        let count = bounds.len() - 1;
        let mut nodes: Vec<Vec<u8>> = Vec::new();
        let mut i: usize = 0;
        while i < count
            invariant
                i <= count,
                count == bounds@.len() - 1,
                bounds_rise(bytes@, bounds@),
                parts == bounded_parts(bytes@, bounds@),
                framable(parts),
                frame(parts) == region,
                region == bytes@.subrange(start as int, end as int),
                nodes@.len() == i,
                forall|j: int| 0 <= j < i ==> (#[trigger] nodes@[j]).packable(),
                forall|j: int| 0 <= j < i ==> vector_encoding((#[trigger] nodes@[j])@) == parts[j],
            decreases count - i,
        {
            proof {
                lemma_bounds_order(bytes@, bounds@, i + 1, count as int);
                assert(bounds@[i as int] <= bounds@[i + 1]);
            }
            let node: Option<Vec<u8>> = Pack::unpack_from(bytes, bounds[i], bounds[i + 1]);
            match node {
                Some(node) => {
                    nodes.push(node);
                },
                None => {
                    proof {
                        assert forall|x: Self| x.packable() implies #[trigger] x.spec_pack() != region by {
                            if x.spec_pack() == region {
                                lemma_frame_injective(nodes_parts(x@), parts);
                                assert(nodes_parts(x@)[i as int] == parts[i as int]);
                                assert(x@[i as int].packable());
                                assert(x@[i as int].spec_pack() == parts[i as int]);
                            }
                        }
                    }
                    return None;
                },
            }
            i = i + 1;
        }
        proof {
            assert(nodes_parts(nodes@) =~= parts);
        }
        Some(nodes)
    }
}

impl SyncCommittee {
    /// The packed forms of the fields, in order.
    pub open spec fn spec_parts(&self) -> Seq<Seq<u8>> {
        seq![self.pubkeys.spec_pack(), self.aggregate_pubkey.spec_pack()]
    }
}

impl Pack for SyncCommittee {
    open spec fn spec_pack(&self) -> Seq<u8> {
        frame(self.spec_parts())
    }

    open spec fn packable(&self) -> bool {
        &&& self.pubkeys.packable()
        &&& self.aggregate_pubkey.packable()
        &&& framable(self.spec_parts())
    }

    open spec fn same(&self, other: &Self) -> bool {
        &&& self.pubkeys.same(&other.pubkeys)
        &&& self.aggregate_pubkey.same(&other.aggregate_pubkey)
    }

    proof fn lemma_pack_injective(&self, other: &Self) {
        lemma_frame_injective(self.spec_parts(), other.spec_parts());
        assert(self.spec_parts()[0] == other.spec_parts()[0]);
        self.pubkeys.lemma_pack_injective(&other.pubkeys);
        assert(self.spec_parts()[1] == other.spec_parts()[1]);
        self.aggregate_pubkey.lemma_pack_injective(&other.aggregate_pubkey);
    }

    fn pack(&self) -> (packed: Vec<u8>) {
        let mut parts: Vec<Vec<u8>> = Vec::new();
        parts.push(self.pubkeys.pack());
        parts.push(self.aggregate_pubkey.pack());
        proof {
            assert(strings_view(parts@) =~= self.spec_parts());
        }
        frame_parts(&parts)
    }

    fn unpack_from(bytes: &[u8], start: usize, end: usize) -> (value: Option<Self>) {
        let ghost region = bytes@.subrange(start as int, end as int);
        let bounds = match split_frame(bytes, start, end) {
            Some(bounds) => bounds,
            None => {
                proof {
                    assert forall|x: Self| x.packable() implies #[trigger] x.spec_pack() != region by {
                        assert(framable(x.spec_parts()));
                    }
                }
                return None;
            },
        };
        let ghost parts = bounded_parts(bytes@, bounds@);
        if bounds.len() != 3 {
            proof {
                assert forall|x: Self| x.packable() implies #[trigger] x.spec_pack() != region by {
                    if x.spec_pack() == region {
                        lemma_frame_injective(x.spec_parts(), parts);
                    }
                }
            }
            return None;
        }
        proof {
            lemma_bounds_order(bytes@, bounds@, 1, 2);
            assert(bounds@[0] <= bounds@[1]);
            lemma_bounds_order(bytes@, bounds@, 2, 2);
            assert(bounds@[1] <= bounds@[2]);
        }
        let pubkeys: Option<Vec<[u8; 48]>> = Pack::unpack_from(bytes, bounds[0], bounds[1]);
        let pubkeys = match pubkeys {
            Some(field) => field,
            None => {
                proof {
                    assert forall|x: Self| x.packable() implies #[trigger] x.spec_pack() != region by {
                        if x.spec_pack() == region {
                            lemma_frame_injective(x.spec_parts(), parts);
                            assert(x.spec_parts()[0] == parts[0]);
                            assert(x.pubkeys.packable());
                            assert(x.pubkeys.spec_pack() == parts[0]);
                        }
                    }
                }
                return None;
            },
        };
        let aggregate_pubkey: Option<[u8; 48]> = Pack::unpack_from(bytes, bounds[1], bounds[2]);
        let aggregate_pubkey = match aggregate_pubkey {
            Some(field) => field,
            None => {
                proof {
                    assert forall|x: Self| x.packable() implies #[trigger] x.spec_pack() != region by {
                        if x.spec_pack() == region {
                            lemma_frame_injective(x.spec_parts(), parts);
                            assert(x.spec_parts()[1] == parts[1]);
                            assert(x.aggregate_pubkey.packable());
                            assert(x.aggregate_pubkey.spec_pack() == parts[1]);
                        }
                    }
                }
                return None;
            },
        };
        let value = SyncCommittee { pubkeys, aggregate_pubkey };
        proof {
            assert(value.spec_parts() =~= parts);
        }
        Some(value)
    }
}

impl ClientBootstrap {
    /// The packed forms of the fields, in order.
    pub open spec fn spec_parts(&self) -> Seq<Seq<u8>> {
        seq![self.header.spec_pack(), self.current_sync_committee_branch.spec_pack()]
    }
}

impl Pack for ClientBootstrap {
    open spec fn spec_pack(&self) -> Seq<u8> {
        frame(self.spec_parts())
    }

    open spec fn packable(&self) -> bool {
        &&& self.header.packable()
        &&& self.current_sync_committee_branch.packable()
        &&& framable(self.spec_parts())
    }

    open spec fn same(&self, other: &Self) -> bool {
        &&& self.header.same(&other.header)
        &&& self.current_sync_committee_branch.same(&other.current_sync_committee_branch)
    }

    proof fn lemma_pack_injective(&self, other: &Self) {
        lemma_frame_injective(self.spec_parts(), other.spec_parts());
        assert(self.spec_parts()[0] == other.spec_parts()[0]);
        self.header.lemma_pack_injective(&other.header);
        assert(self.spec_parts()[1] == other.spec_parts()[1]);
        self.current_sync_committee_branch.lemma_pack_injective(&other.current_sync_committee_branch);
    }

    fn pack(&self) -> (packed: Vec<u8>) {
        let mut parts: Vec<Vec<u8>> = Vec::new();
        parts.push(self.header.pack());
        parts.push(self.current_sync_committee_branch.pack());
        proof {
            assert(strings_view(parts@) =~= self.spec_parts());
        }
        frame_parts(&parts)
    }

    fn unpack_from(bytes: &[u8], start: usize, end: usize) -> (value: Option<Self>) {
        let ghost region = bytes@.subrange(start as int, end as int);
        let bounds = match split_frame(bytes, start, end) {
            Some(bounds) => bounds,
            None => {
                proof {
                    assert forall|x: Self| x.packable() implies #[trigger] x.spec_pack() != region by {
                        assert(framable(x.spec_parts()));
                    }
                }
                return None;
            },
        };
        let ghost parts = bounded_parts(bytes@, bounds@);
        if bounds.len() != 3 {
            proof {
                assert forall|x: Self| x.packable() implies #[trigger] x.spec_pack() != region by {
                    if x.spec_pack() == region {
                        lemma_frame_injective(x.spec_parts(), parts);
                    }
                }
            }
            return None;
        }
        proof {
            lemma_bounds_order(bytes@, bounds@, 1, 2);
            assert(bounds@[0] <= bounds@[1]);
            lemma_bounds_order(bytes@, bounds@, 2, 2);
            assert(bounds@[1] <= bounds@[2]);
        }
        let header: Option<Header> = Pack::unpack_from(bytes, bounds[0], bounds[1]);
        let header = match header {
            Some(field) => field,
            None => {
                proof {
                    assert forall|x: Self| x.packable() implies #[trigger] x.spec_pack() != region by {
                        if x.spec_pack() == region {
                            lemma_frame_injective(x.spec_parts(), parts);
                            assert(x.spec_parts()[0] == parts[0]);
                            assert(x.header.packable());
                            assert(x.header.spec_pack() == parts[0]);
                        }
                    }
                }
                return None;
            },
        };
        let current_sync_committee_branch: Option<Vec<[u8; 32]>> = Pack::unpack_from(bytes, bounds[1], bounds[2]);
        let current_sync_committee_branch = match current_sync_committee_branch {
            Some(field) => field,
            None => {
                proof {
                    assert forall|x: Self| x.packable() implies #[trigger] x.spec_pack() != region by {
                        if x.spec_pack() == region {
                            lemma_frame_injective(x.spec_parts(), parts);
                            assert(x.spec_parts()[1] == parts[1]);
                            assert(x.current_sync_committee_branch.packable());
                            assert(x.current_sync_committee_branch.spec_pack() == parts[1]);
                        }
                    }
                }
                return None;
            },
        };
        let value = ClientBootstrap { header, current_sync_committee_branch };
        proof {
            assert(value.spec_parts() =~= parts);
        }
        Some(value)
    }
}

impl ClientUpdate {
    /// The packed forms of the fields, in order.
    pub open spec fn spec_parts(&self) -> Seq<Seq<u8>> {
        seq![
            self.attested_header.spec_pack(),
            self.finality_branch.spec_pack(),
            self.sync_aggregate.spec_pack(),
            self.signature_slot.spec_pack(),
            self.new_headers_mmr_proof.spec_pack(),
            self.headers.spec_pack(),
        ]
    }
}

impl Pack for ClientUpdate {
    open spec fn spec_pack(&self) -> Seq<u8> {
        frame(self.spec_parts())
    }

    open spec fn packable(&self) -> bool {
        &&& self.attested_header.packable()
        &&& self.finality_branch.packable()
        &&& self.sync_aggregate.packable()
        &&& self.signature_slot.packable()
        &&& self.new_headers_mmr_proof.packable()
        &&& self.headers.packable()
        &&& framable(self.spec_parts())
    }

    open spec fn same(&self, other: &Self) -> bool {
        &&& self.attested_header.same(&other.attested_header)
        &&& self.finality_branch.same(&other.finality_branch)
        &&& self.sync_aggregate.same(&other.sync_aggregate)
        &&& self.signature_slot.same(&other.signature_slot)
        &&& self.new_headers_mmr_proof.same(&other.new_headers_mmr_proof)
        &&& self.headers.same(&other.headers)
    }

    proof fn lemma_pack_injective(&self, other: &Self) {
        lemma_frame_injective(self.spec_parts(), other.spec_parts());
        assert(self.spec_parts()[0] == other.spec_parts()[0]);
        self.attested_header.lemma_pack_injective(&other.attested_header);
        assert(self.spec_parts()[1] == other.spec_parts()[1]);
        self.finality_branch.lemma_pack_injective(&other.finality_branch);
        assert(self.spec_parts()[2] == other.spec_parts()[2]);
        self.sync_aggregate.lemma_pack_injective(&other.sync_aggregate);
        assert(self.spec_parts()[3] == other.spec_parts()[3]);
        self.signature_slot.lemma_pack_injective(&other.signature_slot);
        assert(self.spec_parts()[4] == other.spec_parts()[4]);
        self.new_headers_mmr_proof.lemma_pack_injective(&other.new_headers_mmr_proof);
        assert(self.spec_parts()[5] == other.spec_parts()[5]);
        self.headers.lemma_pack_injective(&other.headers);
    }

    fn pack(&self) -> (packed: Vec<u8>) {
        let mut parts: Vec<Vec<u8>> = Vec::new();
        parts.push(self.attested_header.pack());
        parts.push(self.finality_branch.pack());
        parts.push(self.sync_aggregate.pack());
        parts.push(self.signature_slot.pack());
        parts.push(self.new_headers_mmr_proof.pack());
        parts.push(self.headers.pack());
        proof {
            assert(strings_view(parts@) =~= self.spec_parts());
        }
        frame_parts(&parts)
    }

    fn unpack_from(bytes: &[u8], start: usize, end: usize) -> (value: Option<Self>) {
        let ghost region = bytes@.subrange(start as int, end as int);
        let bounds = match split_frame(bytes, start, end) {
            Some(bounds) => bounds,
            None => {
                proof {
                    assert forall|x: Self| x.packable() implies #[trigger] x.spec_pack() != region by {
                        assert(framable(x.spec_parts()));
                    }
                }
                return None;
            },
        };
        let ghost parts = bounded_parts(bytes@, bounds@);
        if bounds.len() != 7 {
            proof {
                assert forall|x: Self| x.packable() implies #[trigger] x.spec_pack() != region by {
                    if x.spec_pack() == region {
                        lemma_frame_injective(x.spec_parts(), parts);
                    }
                }
            }
            return None;
        }
        proof {
            lemma_bounds_order(bytes@, bounds@, 1, 6);
            assert(bounds@[0] <= bounds@[1]);
            lemma_bounds_order(bytes@, bounds@, 2, 6);
            assert(bounds@[1] <= bounds@[2]);
            lemma_bounds_order(bytes@, bounds@, 3, 6);
            assert(bounds@[2] <= bounds@[3]);
            lemma_bounds_order(bytes@, bounds@, 4, 6);
            assert(bounds@[3] <= bounds@[4]);
            lemma_bounds_order(bytes@, bounds@, 5, 6);
            assert(bounds@[4] <= bounds@[5]);
            lemma_bounds_order(bytes@, bounds@, 6, 6);
            assert(bounds@[5] <= bounds@[6]);
        }
        let attested_header: Option<Header> = Pack::unpack_from(bytes, bounds[0], bounds[1]);
        let attested_header = match attested_header {
            Some(field) => field,
            None => {
                proof {
                    assert forall|x: Self| x.packable() implies #[trigger] x.spec_pack() != region by {
                        if x.spec_pack() == region {
                            lemma_frame_injective(x.spec_parts(), parts);
                            assert(x.spec_parts()[0] == parts[0]);
                            assert(x.attested_header.packable());
                            assert(x.attested_header.spec_pack() == parts[0]);
                        }
                    }
                }
                return None;
            },
        };
        let finality_branch: Option<Vec<[u8; 32]>> = Pack::unpack_from(bytes, bounds[1], bounds[2]);
        let finality_branch = match finality_branch {
            Some(field) => field,
            None => {
                proof {
                    assert forall|x: Self| x.packable() implies #[trigger] x.spec_pack() != region by {
                        if x.spec_pack() == region {
                            lemma_frame_injective(x.spec_parts(), parts);
                            assert(x.spec_parts()[1] == parts[1]);
                            assert(x.finality_branch.packable());
                            assert(x.finality_branch.spec_pack() == parts[1]);
                        }
                    }
                }
                return None;
            },
        };
        let sync_aggregate: Option<SyncAggregate> = Pack::unpack_from(bytes, bounds[2], bounds[3]);
        let sync_aggregate = match sync_aggregate {
            Some(field) => field,
            None => {
                proof {
                    assert forall|x: Self| x.packable() implies #[trigger] x.spec_pack() != region by {
                        if x.spec_pack() == region {
                            lemma_frame_injective(x.spec_parts(), parts);
                            assert(x.spec_parts()[2] == parts[2]);
                            assert(x.sync_aggregate.packable());
                            assert(x.sync_aggregate.spec_pack() == parts[2]);
                        }
                    }
                }
                return None;
            },
        };
        let signature_slot: Option<u64> = Pack::unpack_from(bytes, bounds[3], bounds[4]);
        let signature_slot = match signature_slot {
            Some(field) => field,
            None => {
                proof {
                    assert forall|x: Self| x.packable() implies #[trigger] x.spec_pack() != region by {
                        if x.spec_pack() == region {
                            lemma_frame_injective(x.spec_parts(), parts);
                            assert(x.spec_parts()[3] == parts[3]);
                            assert(x.signature_slot.packable());
                            assert(x.signature_slot.spec_pack() == parts[3]);
                        }
                    }
                }
                return None;
            },
        };
        let new_headers_mmr_proof: Option<Vec<HeaderDigest>> = Pack::unpack_from(bytes, bounds[4], bounds[5]);
        let new_headers_mmr_proof = match new_headers_mmr_proof {
            Some(field) => field,
            None => {
                proof {
                    assert forall|x: Self| x.packable() implies #[trigger] x.spec_pack() != region by {
                        if x.spec_pack() == region {
                            lemma_frame_injective(x.spec_parts(), parts);
                            assert(x.spec_parts()[4] == parts[4]);
                            assert(x.new_headers_mmr_proof.packable());
                            assert(x.new_headers_mmr_proof.spec_pack() == parts[4]);
                        }
                    }
                }
                return None;
            },
        };
        let headers: Option<Vec<Header>> = Pack::unpack_from(bytes, bounds[5], bounds[6]);
        let headers = match headers {
            Some(field) => field,
            None => {
                proof {
                    assert forall|x: Self| x.packable() implies #[trigger] x.spec_pack() != region by {
                        if x.spec_pack() == region {
                            lemma_frame_injective(x.spec_parts(), parts);
                            assert(x.spec_parts()[5] == parts[5]);
                            assert(x.headers.packable());
                            assert(x.headers.spec_pack() == parts[5]);
                        }
                    }
                }
                return None;
            },
        };
        let value = ClientUpdate {
            attested_header,
            finality_branch,
            sync_aggregate,
            signature_slot,
            new_headers_mmr_proof,
            headers,
        };
        proof {
            assert(value.spec_parts() =~= parts);
        }
        Some(value)
    }
}

impl SyncCommitteeUpdate {
    /// The packed forms of the fields, in order.
    pub open spec fn spec_parts(&self) -> Seq<Seq<u8>> {
        seq![
            self.attested_header.spec_pack(),
            self.next_sync_committee_branch.spec_pack(),
            self.sync_aggregate.spec_pack(),
            self.signature_slot.spec_pack(),
        ]
    }
}

impl Pack for SyncCommitteeUpdate {
    open spec fn spec_pack(&self) -> Seq<u8> {
        frame(self.spec_parts())
    }

    open spec fn packable(&self) -> bool {
        &&& self.attested_header.packable()
        &&& self.next_sync_committee_branch.packable()
        &&& self.sync_aggregate.packable()
        &&& self.signature_slot.packable()
        &&& framable(self.spec_parts())
    }

    open spec fn same(&self, other: &Self) -> bool {
        &&& self.attested_header.same(&other.attested_header)
        &&& self.next_sync_committee_branch.same(&other.next_sync_committee_branch)
        &&& self.sync_aggregate.same(&other.sync_aggregate)
        &&& self.signature_slot.same(&other.signature_slot)
    }

    proof fn lemma_pack_injective(&self, other: &Self) {
        lemma_frame_injective(self.spec_parts(), other.spec_parts());
        assert(self.spec_parts()[0] == other.spec_parts()[0]);
        self.attested_header.lemma_pack_injective(&other.attested_header);
        assert(self.spec_parts()[1] == other.spec_parts()[1]);
        self.next_sync_committee_branch.lemma_pack_injective(&other.next_sync_committee_branch);
        assert(self.spec_parts()[2] == other.spec_parts()[2]);
        self.sync_aggregate.lemma_pack_injective(&other.sync_aggregate);
        assert(self.spec_parts()[3] == other.spec_parts()[3]);
        self.signature_slot.lemma_pack_injective(&other.signature_slot);
    }

    fn pack(&self) -> (packed: Vec<u8>) {
        let mut parts: Vec<Vec<u8>> = Vec::new();
        parts.push(self.attested_header.pack());
        parts.push(self.next_sync_committee_branch.pack());
        parts.push(self.sync_aggregate.pack());
        parts.push(self.signature_slot.pack());
        proof {
            assert(strings_view(parts@) =~= self.spec_parts());
        }
        frame_parts(&parts)
    }

    fn unpack_from(bytes: &[u8], start: usize, end: usize) -> (value: Option<Self>) {
        let ghost region = bytes@.subrange(start as int, end as int);
        let bounds = match split_frame(bytes, start, end) {
            Some(bounds) => bounds,
            None => {
                proof {
                    assert forall|x: Self| x.packable() implies #[trigger] x.spec_pack() != region by {
                        assert(framable(x.spec_parts()));
                    }
                }
                return None;
            },
        };
        let ghost parts = bounded_parts(bytes@, bounds@);
        if bounds.len() != 5 {
            proof {
                assert forall|x: Self| x.packable() implies #[trigger] x.spec_pack() != region by {
                    if x.spec_pack() == region {
                        lemma_frame_injective(x.spec_parts(), parts);
                    }
                }
            }
            return None;
        }
        proof {
            lemma_bounds_order(bytes@, bounds@, 1, 4);
            assert(bounds@[0] <= bounds@[1]);
            lemma_bounds_order(bytes@, bounds@, 2, 4);
            assert(bounds@[1] <= bounds@[2]);
            lemma_bounds_order(bytes@, bounds@, 3, 4);
            assert(bounds@[2] <= bounds@[3]);
            lemma_bounds_order(bytes@, bounds@, 4, 4);
            assert(bounds@[3] <= bounds@[4]);
        }
        let attested_header: Option<Header> = Pack::unpack_from(bytes, bounds[0], bounds[1]);
        let attested_header = match attested_header {
            Some(field) => field,
            None => {
                proof {
                    assert forall|x: Self| x.packable() implies #[trigger] x.spec_pack() != region by {
                        if x.spec_pack() == region {
                            lemma_frame_injective(x.spec_parts(), parts);
                            assert(x.spec_parts()[0] == parts[0]);
                            assert(x.attested_header.packable());
                            assert(x.attested_header.spec_pack() == parts[0]);
                        }
                    }
                }
                return None;
            },
        };
        let next_sync_committee_branch: Option<Vec<[u8; 32]>> = Pack::unpack_from(bytes, bounds[1], bounds[2]);
        let next_sync_committee_branch = match next_sync_committee_branch {
            Some(field) => field,
            None => {
                proof {
                    assert forall|x: Self| x.packable() implies #[trigger] x.spec_pack() != region by {
                        if x.spec_pack() == region {
                            lemma_frame_injective(x.spec_parts(), parts);
                            assert(x.spec_parts()[1] == parts[1]);
                            assert(x.next_sync_committee_branch.packable());
                            assert(x.next_sync_committee_branch.spec_pack() == parts[1]);
                        }
                    }
                }
                return None;
            },
        };
        let sync_aggregate: Option<SyncAggregate> = Pack::unpack_from(bytes, bounds[2], bounds[3]);
        let sync_aggregate = match sync_aggregate {
            Some(field) => field,
            None => {
                proof {
                    assert forall|x: Self| x.packable() implies #[trigger] x.spec_pack() != region by {
                        if x.spec_pack() == region {
                            lemma_frame_injective(x.spec_parts(), parts);
                            assert(x.spec_parts()[2] == parts[2]);
                            assert(x.sync_aggregate.packable());
                            assert(x.sync_aggregate.spec_pack() == parts[2]);
                        }
                    }
                }
                return None;
            },
        };
        let signature_slot: Option<u64> = Pack::unpack_from(bytes, bounds[3], bounds[4]);
        let signature_slot = match signature_slot {
            Some(field) => field,
            None => {
                proof {
                    assert forall|x: Self| x.packable() implies #[trigger] x.spec_pack() != region by {
                        if x.spec_pack() == region {
                            lemma_frame_injective(x.spec_parts(), parts);
                            assert(x.spec_parts()[3] == parts[3]);
                            assert(x.signature_slot.packable());
                            assert(x.signature_slot.spec_pack() == parts[3]);
                        }
                    }
                }
                return None;
            },
        };
        let value = SyncCommitteeUpdate { attested_header, next_sync_committee_branch, sync_aggregate, signature_slot };
        proof {
            assert(value.spec_parts() =~= parts);
        }
        Some(value)
    }
}

impl TransactionProof {
    /// The packed forms of the fields, in order.
    pub open spec fn spec_parts(&self) -> Seq<Seq<u8>> {
        seq![
            self.header.spec_pack(),
            self.transaction_index.spec_pack(),
            self.receipts_root.spec_pack(),
            self.header_mmr_proof.spec_pack(),
            self.transaction_ssz_proof.spec_pack(),
            self.receipt_mpt_proof.spec_pack(),
            self.receipts_root_ssz_proof.spec_pack(),
        ]
    }
}

impl Pack for TransactionProof {
    open spec fn spec_pack(&self) -> Seq<u8> {
        frame(self.spec_parts())
    }

    open spec fn packable(&self) -> bool {
        &&& self.header.packable()
        &&& self.transaction_index.packable()
        &&& self.receipts_root.packable()
        &&& self.header_mmr_proof.packable()
        &&& self.transaction_ssz_proof.packable()
        &&& self.receipt_mpt_proof.packable()
        &&& self.receipts_root_ssz_proof.packable()
        &&& framable(self.spec_parts())
    }

    open spec fn same(&self, other: &Self) -> bool {
        &&& self.header.same(&other.header)
        &&& self.transaction_index.same(&other.transaction_index)
        &&& self.receipts_root.same(&other.receipts_root)
        &&& self.header_mmr_proof.same(&other.header_mmr_proof)
        &&& self.transaction_ssz_proof.same(&other.transaction_ssz_proof)
        &&& self.receipt_mpt_proof.same(&other.receipt_mpt_proof)
        &&& self.receipts_root_ssz_proof.same(&other.receipts_root_ssz_proof)
    }

    proof fn lemma_pack_injective(&self, other: &Self) {
        lemma_frame_injective(self.spec_parts(), other.spec_parts());
        assert(self.spec_parts()[0] == other.spec_parts()[0]);
        self.header.lemma_pack_injective(&other.header);
        assert(self.spec_parts()[1] == other.spec_parts()[1]);
        self.transaction_index.lemma_pack_injective(&other.transaction_index);
        assert(self.spec_parts()[2] == other.spec_parts()[2]);
        self.receipts_root.lemma_pack_injective(&other.receipts_root);
        assert(self.spec_parts()[3] == other.spec_parts()[3]);
        self.header_mmr_proof.lemma_pack_injective(&other.header_mmr_proof);
        assert(self.spec_parts()[4] == other.spec_parts()[4]);
        self.transaction_ssz_proof.lemma_pack_injective(&other.transaction_ssz_proof);
        assert(self.spec_parts()[5] == other.spec_parts()[5]);
        self.receipt_mpt_proof.lemma_pack_injective(&other.receipt_mpt_proof);
        assert(self.spec_parts()[6] == other.spec_parts()[6]);
        self.receipts_root_ssz_proof.lemma_pack_injective(&other.receipts_root_ssz_proof);
    }

    fn pack(&self) -> (packed: Vec<u8>) {
        let mut parts: Vec<Vec<u8>> = Vec::new();
        parts.push(self.header.pack());
        parts.push(self.transaction_index.pack());
        parts.push(self.receipts_root.pack());
        parts.push(self.header_mmr_proof.pack());
        parts.push(self.transaction_ssz_proof.pack());
        parts.push(self.receipt_mpt_proof.pack());
        parts.push(self.receipts_root_ssz_proof.pack());
        proof {
            assert(strings_view(parts@) =~= self.spec_parts());
        }
        frame_parts(&parts)
    }

    fn unpack_from(bytes: &[u8], start: usize, end: usize) -> (value: Option<Self>) {
        let ghost region = bytes@.subrange(start as int, end as int);
        let bounds = match split_frame(bytes, start, end) {
            Some(bounds) => bounds,
            None => {
                proof {
                    assert forall|x: Self| x.packable() implies #[trigger] x.spec_pack() != region by {
                        assert(framable(x.spec_parts()));
                    }
                }
                return None;
            },
        };
        let ghost parts = bounded_parts(bytes@, bounds@);
        if bounds.len() != 8 {
            proof {
                assert forall|x: Self| x.packable() implies #[trigger] x.spec_pack() != region by {
                    if x.spec_pack() == region {
                        lemma_frame_injective(x.spec_parts(), parts);
                    }
                }
            }
            return None;
        }
        proof {
            lemma_bounds_order(bytes@, bounds@, 1, 7);
            assert(bounds@[0] <= bounds@[1]);
            lemma_bounds_order(bytes@, bounds@, 2, 7);
            assert(bounds@[1] <= bounds@[2]);
            lemma_bounds_order(bytes@, bounds@, 3, 7);
            assert(bounds@[2] <= bounds@[3]);
            lemma_bounds_order(bytes@, bounds@, 4, 7);
            assert(bounds@[3] <= bounds@[4]);
            lemma_bounds_order(bytes@, bounds@, 5, 7);
            assert(bounds@[4] <= bounds@[5]);
            lemma_bounds_order(bytes@, bounds@, 6, 7);
            assert(bounds@[5] <= bounds@[6]);
            lemma_bounds_order(bytes@, bounds@, 7, 7);
            assert(bounds@[6] <= bounds@[7]);
        }
        let header: Option<Header> = Pack::unpack_from(bytes, bounds[0], bounds[1]);
        let header = match header {
            Some(field) => field,
            None => {
                proof {
                    assert forall|x: Self| x.packable() implies #[trigger] x.spec_pack() != region by {
                        if x.spec_pack() == region {
                            lemma_frame_injective(x.spec_parts(), parts);
                            assert(x.spec_parts()[0] == parts[0]);
                            assert(x.header.packable());
                            assert(x.header.spec_pack() == parts[0]);
                        }
                    }
                }
                return None;
            },
        };
        let transaction_index: Option<u64> = Pack::unpack_from(bytes, bounds[1], bounds[2]);
        let transaction_index = match transaction_index {
            Some(field) => field,
            None => {
                proof {
                    assert forall|x: Self| x.packable() implies #[trigger] x.spec_pack() != region by {
                        if x.spec_pack() == region {
                            lemma_frame_injective(x.spec_parts(), parts);
                            assert(x.spec_parts()[1] == parts[1]);
                            assert(x.transaction_index.packable());
                            assert(x.transaction_index.spec_pack() == parts[1]);
                        }
                    }
                }
                return None;
            },
        };
        let receipts_root: Option<[u8; 32]> = Pack::unpack_from(bytes, bounds[2], bounds[3]);
        let receipts_root = match receipts_root {
            Some(field) => field,
            None => {
                proof {
                    assert forall|x: Self| x.packable() implies #[trigger] x.spec_pack() != region by {
                        if x.spec_pack() == region {
                            lemma_frame_injective(x.spec_parts(), parts);
                            assert(x.spec_parts()[2] == parts[2]);
                            assert(x.receipts_root.packable());
                            assert(x.receipts_root.spec_pack() == parts[2]);
                        }
                    }
                }
                return None;
            },
        };
        let header_mmr_proof: Option<Vec<HeaderDigest>> = Pack::unpack_from(bytes, bounds[3], bounds[4]);
        let header_mmr_proof = match header_mmr_proof {
            Some(field) => field,
            None => {
                proof {
                    assert forall|x: Self| x.packable() implies #[trigger] x.spec_pack() != region by {
                        if x.spec_pack() == region {
                            lemma_frame_injective(x.spec_parts(), parts);
                            assert(x.spec_parts()[3] == parts[3]);
                            assert(x.header_mmr_proof.packable());
                            assert(x.header_mmr_proof.spec_pack() == parts[3]);
                        }
                    }
                }
                return None;
            },
        };
        let transaction_ssz_proof: Option<Vec<[u8; 32]>> = Pack::unpack_from(bytes, bounds[4], bounds[5]);
        let transaction_ssz_proof = match transaction_ssz_proof {
            Some(field) => field,
            None => {
                proof {
                    assert forall|x: Self| x.packable() implies #[trigger] x.spec_pack() != region by {
                        if x.spec_pack() == region {
                            lemma_frame_injective(x.spec_parts(), parts);
                            assert(x.spec_parts()[4] == parts[4]);
                            assert(x.transaction_ssz_proof.packable());
                            assert(x.transaction_ssz_proof.spec_pack() == parts[4]);
                        }
                    }
                }
                return None;
            },
        };
        let receipt_mpt_proof: Option<Vec<Vec<u8>>> = Pack::unpack_from(bytes, bounds[5], bounds[6]);
        let receipt_mpt_proof = match receipt_mpt_proof {
            Some(field) => field,
            None => {
                proof {
                    assert forall|x: Self| x.packable() implies #[trigger] x.spec_pack() != region by {
                        if x.spec_pack() == region {
                            lemma_frame_injective(x.spec_parts(), parts);
                            assert(x.spec_parts()[5] == parts[5]);
                            assert(x.receipt_mpt_proof.packable());
                            assert(x.receipt_mpt_proof.spec_pack() == parts[5]);
                        }
                    }
                }
                return None;
            },
        };
        let receipts_root_ssz_proof: Option<Vec<[u8; 32]>> = Pack::unpack_from(bytes, bounds[6], bounds[7]);
        let receipts_root_ssz_proof = match receipts_root_ssz_proof {
            Some(field) => field,
            None => {
                proof {
                    assert forall|x: Self| x.packable() implies #[trigger] x.spec_pack() != region by {
                        if x.spec_pack() == region {
                            lemma_frame_injective(x.spec_parts(), parts);
                            assert(x.spec_parts()[6] == parts[6]);
                            assert(x.receipts_root_ssz_proof.packable());
                            assert(x.receipts_root_ssz_proof.spec_pack() == parts[6]);
                        }
                    }
                }
                return None;
            },
        };
        let value = TransactionProof {
            header,
            transaction_index,
            receipts_root,
            header_mmr_proof,
            transaction_ssz_proof,
            receipt_mpt_proof,
            receipts_root_ssz_proof,
        };
        proof {
            assert(value.spec_parts() =~= parts);
        }
        Some(value)
    }
}

impl TransactionPayload {
    /// The packed forms of the fields, in order.
    pub open spec fn spec_parts(&self) -> Seq<Seq<u8>> {
        seq![self.transaction.spec_pack(), self.receipt.spec_pack()]
    }
}

impl Pack for TransactionPayload {
    open spec fn spec_pack(&self) -> Seq<u8> {
        frame(self.spec_parts())
    }

    open spec fn packable(&self) -> bool {
        &&& self.transaction.packable()
        &&& self.receipt.packable()
        &&& framable(self.spec_parts())
    }

    open spec fn same(&self, other: &Self) -> bool {
        &&& self.transaction.same(&other.transaction)
        &&& self.receipt.same(&other.receipt)
    }

    proof fn lemma_pack_injective(&self, other: &Self) {
        lemma_frame_injective(self.spec_parts(), other.spec_parts());
        assert(self.spec_parts()[0] == other.spec_parts()[0]);
        self.transaction.lemma_pack_injective(&other.transaction);
        assert(self.spec_parts()[1] == other.spec_parts()[1]);
        self.receipt.lemma_pack_injective(&other.receipt);
    }

    fn pack(&self) -> (packed: Vec<u8>) {
        let mut parts: Vec<Vec<u8>> = Vec::new();
        parts.push(self.transaction.pack());
        parts.push(self.receipt.pack());
        proof {
            assert(strings_view(parts@) =~= self.spec_parts());
        }
        frame_parts(&parts)
    }

    fn unpack_from(bytes: &[u8], start: usize, end: usize) -> (value: Option<Self>) {
        let ghost region = bytes@.subrange(start as int, end as int);
        let bounds = match split_frame(bytes, start, end) {
            Some(bounds) => bounds,
            None => {
                proof {
                    assert forall|x: Self| x.packable() implies #[trigger] x.spec_pack() != region by {
                        assert(framable(x.spec_parts()));
                    }
                }
                return None;
            },
        };
        let ghost parts = bounded_parts(bytes@, bounds@);
        if bounds.len() != 3 {
            proof {
                assert forall|x: Self| x.packable() implies #[trigger] x.spec_pack() != region by {
                    if x.spec_pack() == region {
                        lemma_frame_injective(x.spec_parts(), parts);
                    }
                }
            }
            return None;
        }
        proof {
            lemma_bounds_order(bytes@, bounds@, 1, 2);
            assert(bounds@[0] <= bounds@[1]);
            lemma_bounds_order(bytes@, bounds@, 2, 2);
            assert(bounds@[1] <= bounds@[2]);
        }
        let transaction: Option<Vec<u8>> = Pack::unpack_from(bytes, bounds[0], bounds[1]);
        let transaction = match transaction {
            Some(field) => field,
            None => {
                proof {
                    assert forall|x: Self| x.packable() implies #[trigger] x.spec_pack() != region by {
                        if x.spec_pack() == region {
                            lemma_frame_injective(x.spec_parts(), parts);
                            assert(x.spec_parts()[0] == parts[0]);
                            assert(x.transaction.packable());
                            assert(x.transaction.spec_pack() == parts[0]);
                        }
                    }
                }
                return None;
            },
        };
        let receipt: Option<Vec<u8>> = Pack::unpack_from(bytes, bounds[1], bounds[2]);
        let receipt = match receipt {
            Some(field) => field,
            None => {
                proof {
                    assert forall|x: Self| x.packable() implies #[trigger] x.spec_pack() != region by {
                        if x.spec_pack() == region {
                            lemma_frame_injective(x.spec_parts(), parts);
                            assert(x.spec_parts()[1] == parts[1]);
                            assert(x.receipt.packable());
                            assert(x.receipt.spec_pack() == parts[1]);
                        }
                    }
                }
                return None;
            },
        };
        let value = TransactionPayload { transaction, receipt };
        proof {
            assert(value.spec_parts() =~= parts);
        }
        Some(value)
    }
}

impl ClientSyncCommittee {
    /// The packed forms of the fields, in order.
    pub open spec fn spec_parts(&self) -> Seq<Seq<u8>> {
        seq![self.period.spec_pack(), self.data.spec_pack()]
    }
}

impl Pack for ClientSyncCommittee {
    open spec fn spec_pack(&self) -> Seq<u8> {
        frame(self.spec_parts())
    }

    open spec fn packable(&self) -> bool {
        &&& self.period.packable()
        &&& self.data.packable()
        &&& framable(self.spec_parts())
    }

    open spec fn same(&self, other: &Self) -> bool {
        &&& self.period.same(&other.period)
        &&& self.data.same(&other.data)
    }

    proof fn lemma_pack_injective(&self, other: &Self) {
        lemma_frame_injective(self.spec_parts(), other.spec_parts());
        assert(self.spec_parts()[0] == other.spec_parts()[0]);
        self.period.lemma_pack_injective(&other.period);
        assert(self.spec_parts()[1] == other.spec_parts()[1]);
        self.data.lemma_pack_injective(&other.data);
    }

    fn pack(&self) -> (packed: Vec<u8>) {
        let mut parts: Vec<Vec<u8>> = Vec::new();
        parts.push(self.period.pack());
        parts.push(self.data.pack());
        proof {
            assert(strings_view(parts@) =~= self.spec_parts());
        }
        frame_parts(&parts)
    }

    fn unpack_from(bytes: &[u8], start: usize, end: usize) -> (value: Option<Self>) {
        let ghost region = bytes@.subrange(start as int, end as int);
        let bounds = match split_frame(bytes, start, end) {
            Some(bounds) => bounds,
            None => {
                proof {
                    assert forall|x: Self| x.packable() implies #[trigger] x.spec_pack() != region by {
                        assert(framable(x.spec_parts()));
                    }
                }
                return None;
            },
        };
        let ghost parts = bounded_parts(bytes@, bounds@);
        if bounds.len() != 3 {
            proof {
                assert forall|x: Self| x.packable() implies #[trigger] x.spec_pack() != region by {
                    if x.spec_pack() == region {
                        lemma_frame_injective(x.spec_parts(), parts);
                    }
                }
            }
            return None;
        }
        proof {
            lemma_bounds_order(bytes@, bounds@, 1, 2);
            assert(bounds@[0] <= bounds@[1]);
            lemma_bounds_order(bytes@, bounds@, 2, 2);
            assert(bounds@[1] <= bounds@[2]);
        }
        let period: Option<u64> = Pack::unpack_from(bytes, bounds[0], bounds[1]);
        let period = match period {
            Some(field) => field,
            None => {
                proof {
                    assert forall|x: Self| x.packable() implies #[trigger] x.spec_pack() != region by {
                        if x.spec_pack() == region {
                            lemma_frame_injective(x.spec_parts(), parts);
                            assert(x.spec_parts()[0] == parts[0]);
                            assert(x.period.packable());
                            assert(x.period.spec_pack() == parts[0]);
                        }
                    }
                }
                return None;
            },
        };
        let data: Option<SyncCommittee> = Pack::unpack_from(bytes, bounds[1], bounds[2]);
        let data = match data {
            Some(field) => field,
            None => {
                proof {
                    assert forall|x: Self| x.packable() implies #[trigger] x.spec_pack() != region by {
                        if x.spec_pack() == region {
                            lemma_frame_injective(x.spec_parts(), parts);
                            assert(x.spec_parts()[1] == parts[1]);
                            assert(x.data.packable());
                            assert(x.data.spec_pack() == parts[1]);
                        }
                    }
                }
                return None;
            },
        };
        let value = ClientSyncCommittee { period, data };
        proof {
            assert(value.spec_parts() =~= parts);
        }
        Some(value)
    }
}

} // verus!
