//! The storage node: a content-addressed store for serialized state objects
//! and their proofs, gated by a stake requirement and a metered battery.
//!
//! Admission debits the battery first and is non-refundable; a proof is then
//! admitted only when its single public input equals the content hash of the
//! object it accompanies, and object and proof are stored as a pair under
//! that hash.

use vstd::prelude::*;

use crate::battery::{BatteryChargingSystem, PROCESSING_COST};
use crate::keyed::{contains_key, distinct_keys, index_of_key, lemma_index_of_key, lemma_upsert};
use crate::boc::{Boc, BocView};
use crate::errors::SystemError;
use crate::util::{bytes32_eq, bytes_eq};
use crate::zkproof::{clone_zkproof, ZkProof, ZkProofView};

verus! {

/// The stake below which no storage node may be constructed.
pub const MIN_STAKE: u64 = 1000;

/// Battery sizing configuration.
#[derive(Clone, Copy)]
pub struct BatteryConfig {
    pub initial_charge: u64,
    pub max_charge: u64,
}

impl Default for BatteryConfig {
    fn default() -> (r: Self)
        ensures
            r.initial_charge == 0,
            r.max_charge == 0,
    {
        BatteryConfig { initial_charge: 0, max_charge: 0 }
    }
}

/// Synchronisation cadence configuration.
#[derive(Clone, Copy)]
pub struct SyncConfig {
    pub sync_interval: u64,
    pub retry_delay: u64,
}

impl Default for SyncConfig {
    fn default() -> (r: Self)
        ensures
            r.sync_interval == 0,
            r.retry_delay == 0,
    {
        SyncConfig { sync_interval: 0, retry_delay: 0 }
    }
}

/// Epidemic replication configuration. The per-peer gossip probability is
/// held in parts per million.
#[derive(Clone, Copy)]
pub struct EpidemicProtocolConfig {
    pub redundancy_factor: u32,
    pub propagation_probability_ppm: u32,
}

impl Default for EpidemicProtocolConfig {
    fn default() -> (r: Self)
        ensures
            r.redundancy_factor == 0,
            r.propagation_probability_ppm == 0,
    {
        EpidemicProtocolConfig { redundancy_factor: 0, propagation_probability_ppm: 0 }
    }
}

/// Network listener configuration.
#[derive(Clone, Copy)]
pub struct NetworkConfig {
    pub port: u16,
    pub max_connections: u32,
}

impl Default for NetworkConfig {
    fn default() -> (r: Self)
        ensures
            r.port == 0,
            r.max_connections == 0,
    {
        NetworkConfig { port: 0, max_connections: 0 }
    }
}

/// Construction parameters for a storage node.
pub struct StorageNodeConfig {
    pub battery_config: BatteryConfig,
    pub sync_config: SyncConfig,
    pub epidemic_protocol_config: EpidemicProtocolConfig,
    pub network_config: NetworkConfig,
    pub node_id: [u8; 32],
    pub fee: i32,
    pub whitelist: Vec<[u8; 32]>,
}

/// The mathematical image of a node configuration.
pub struct StorageNodeConfigView {
    pub battery_config: BatteryConfig,
    pub sync_config: SyncConfig,
    pub epidemic_protocol_config: EpidemicProtocolConfig,
    pub network_config: NetworkConfig,
    pub node_id: Seq<u8>,
    pub fee: i32,
    pub whitelist: Seq<Seq<u8>>,
}

impl View for StorageNodeConfig {
    type V = StorageNodeConfigView;

    open spec fn view(&self) -> StorageNodeConfigView {
        StorageNodeConfigView {
            battery_config: self.battery_config,
            sync_config: self.sync_config,
            epidemic_protocol_config: self.epidemic_protocol_config,
            network_config: self.network_config,
            node_id: self.node_id@,
            fee: self.fee,
            whitelist: self.whitelist@.map_values(|p: [u8; 32]| p@),
        }
    }
}

impl StorageNodeConfig {
    /// Assembles a configuration from its parts.
    pub fn new(
        battery_config: BatteryConfig,
        sync_config: SyncConfig,
        epidemic_config: EpidemicProtocolConfig,
        network_config: NetworkConfig,
        node_id: [u8; 32],
        fee: i32,
        whitelist: Vec<[u8; 32]>,
    ) -> (r: Self)
        ensures
            r@.battery_config == battery_config,
            r@.sync_config == sync_config,
            r@.epidemic_protocol_config == epidemic_config,
            r@.network_config == network_config,
            r@.node_id == node_id@,
            r@.fee == fee,
            r@.whitelist == whitelist@.map_values(|p: [u8; 32]| p@),
    {
        StorageNodeConfig {
            battery_config,
            sync_config,
            epidemic_protocol_config: epidemic_config,
            network_config,
            node_id,
            fee,
            whitelist,
        }
    }
}

/// True when a proof's public inputs bind it to exactly the content hash `h`.
pub open spec fn proof_binds(p: ZkProofView, h: Seq<u8>) -> bool {
    p.public_inputs.len() == 1 && p.public_inputs[0] == h
}

/// A storage node: stake, content-addressed object and proof stores, the
/// admission battery, and the peer set.
pub struct StorageNode {
    pub node_id: [u8; 32],
    pub stake: u64,
    stored_bocs: Vec<([u8; 32], Boc)>,
    stored_proofs: Vec<([u8; 32], ZkProof)>,
    battery_system: BatteryChargingSystem,
    pub config: StorageNodeConfig,
    peers: Vec<[u8; 32]>,
}

impl StorageNode {
    /// The stored objects, keyed by content hash.
    pub closed spec fn objects(&self) -> Map<Seq<u8>, BocView> {
        Map::new(
            |h: Seq<u8>| contains_key(self.stored_bocs@, h),
            |h: Seq<u8>| self.stored_bocs@[index_of_key(self.stored_bocs@, h)].1@,
        )
    }

    /// The stored proofs, keyed by the content hash of their paired object.
    pub closed spec fn zkproofs(&self) -> Map<Seq<u8>, ZkProofView> {
        Map::new(
            |h: Seq<u8>| contains_key(self.stored_proofs@, h),
            |h: Seq<u8>| self.stored_proofs@[index_of_key(self.stored_proofs@, h)].1@,
        )
    }

    /// The peer identifiers, in insertion order.
    pub closed spec fn peers_view(&self) -> Seq<Seq<u8>> {
        self.peers@.map_values(|p: [u8; 32]| p@)
    }

    /// The battery charge now available.
    pub closed spec fn battery_charge(&self) -> u64 {
        self.battery_system.charge()
    }

    /// The node's identifier.
    pub closed spec fn node_id_view(&self) -> Seq<u8> {
        self.node_id@
    }

    /// The stake the node was constructed with.
    pub closed spec fn stake_of(&self) -> u64 {
        self.stake
    }

    /// The node's configuration.
    pub closed spec fn config_view(&self) -> StorageNodeConfigView {
        self.config@
    }

    /// The stored object entries, for internal reasoning.
    pub closed spec fn boc_entries(&self) -> Seq<([u8; 32], Boc)> {
        self.stored_bocs@
    }

    /// Well-formed: keys are distinct and content-derived, the proof store
    /// runs parallel to the object store, and every stored proof binds to its
    /// paired object.
    pub closed spec fn wf(&self) -> bool {
        &&& distinct_keys(self.stored_bocs@)
        &&& self.stored_proofs@.len() == self.stored_bocs@.len()
        &&& forall|i: int|
            0 <= i < self.stored_bocs@.len() ==> (#[trigger] self.stored_proofs@[i]).0@
                == self.stored_bocs@[i].0@
        &&& forall|i: int|
            0 <= i < self.stored_bocs@.len() ==> (#[trigger] self.stored_bocs@[i]).0@
                == self.stored_bocs@[i].1.content_hash_spec()
        &&& forall|i: int|
            0 <= i < self.stored_bocs@.len() ==> proof_binds(
                (#[trigger] self.stored_proofs@[i]).1@,
                self.stored_bocs@[i].1.content_hash_spec(),
            )
        &&& forall|i: int| 0 <= i < self.stored_bocs@.len() ==> (#[trigger] self.stored_bocs@[i]).1.wf()
        &&& forall|i: int, j: int|
            0 <= i < j < self.peers@.len() ==> (#[trigger] self.peers@[i])@ != (
            #[trigger] self.peers@[j])@
    }

    /// Every stored proof has a stored object under the same hash, and vice
    /// versa, and the proof's public input is that hash.
    pub proof fn lemma_paired_stores(&self)
        requires
            self.wf(),
        ensures
            self.objects().dom() =~= self.zkproofs().dom(),
            forall|h: Seq<u8>|
                self.objects().dom().contains(h) ==> proof_binds(
                    #[trigger] self.zkproofs()[h],
                    h,
                ),
    {
        assert forall|h: Seq<u8>| contains_key(self.stored_bocs@, h) implies contains_key(
            self.stored_proofs@,
            h,
        ) by {
            let i = choose|i: int|
                0 <= i < self.stored_bocs@.len() && (#[trigger] self.stored_bocs@[i]).0@ == h;
            assert(self.stored_proofs@[i].0@ == h);
        }
        assert forall|h: Seq<u8>| contains_key(self.stored_proofs@, h) implies contains_key(
            self.stored_bocs@,
            h,
        ) by {
            let i = choose|i: int|
                0 <= i < self.stored_proofs@.len() && (#[trigger] self.stored_proofs@[i]).0@ == h;
            assert(self.stored_bocs@[i].0@ == h);
        }
        assert forall|h: Seq<u8>| self.objects().dom().contains(h) implies proof_binds(
            #[trigger] self.zkproofs()[h],
            h,
        ) by {
            let i = index_of_key(self.stored_bocs@, h);
            assert(0 <= i < self.stored_bocs@.len() && self.stored_bocs@[i].0@ == h);
            assert(self.stored_proofs@[i].0@ == h);
            assert(distinct_keys(self.stored_proofs@)) by {
                assert forall|a: int, b: int|
                    0 <= a < b < self.stored_proofs@.len() implies (
                #[trigger] self.stored_proofs@[a]).0@ != (#[trigger] self.stored_proofs@[b]).0@ by {
                    assert(self.stored_bocs@[a].0@ != self.stored_bocs@[b].0@);
                }
            }
            lemma_index_of_key(self.stored_proofs@, i);
            assert(self.zkproofs()[h] == self.stored_proofs@[i].1@);
            assert(self.stored_bocs@[i].1.content_hash_spec() == h);
        }
    }

    /// Constructs a node. Construction requires the minimum viable stake;
    /// below it no node is created. The battery starts charged to the stake.
    /// The peer list stands for a set: one entry per peer.
    pub fn new(
        node_id: [u8; 32],
        initial_stake: u64,
        config: StorageNodeConfig,
        peers: Vec<[u8; 32]>,
    ) -> (r: Result<Self, SystemError>)
        requires
            forall|a: int, b: int|
                0 <= a < b < peers@.len() ==> (#[trigger] peers@[a])@ != (#[trigger] peers@[b])@,
        ensures
            r is Ok <==> initial_stake >= MIN_STAKE,
            r is Err ==> r == Err::<Self, SystemError>(SystemError::InvalidAmount),
            r matches Ok(n) ==> {
                &&& n.wf()
                &&& n.node_id_view() == node_id@
                &&& n.stake_of() == initial_stake
                &&& n.battery_charge() == initial_stake
                &&& n.objects() =~= Map::<Seq<u8>, BocView>::empty()
                &&& n.zkproofs() =~= Map::<Seq<u8>, ZkProofView>::empty()
                &&& n.boc_entries() == Seq::<([u8; 32], Boc)>::empty()
                &&& n.config_view() == config@
                &&& n.peers_view() == peers@.map_values(|p: [u8; 32]| p@)
            },
    {
        if initial_stake < MIN_STAKE {
            return Err(SystemError::InvalidAmount);
        }
        let n = StorageNode {
            node_id,
            stake: initial_stake,
            stored_bocs: Vec::new(),
            stored_proofs: Vec::new(),
            battery_system: BatteryChargingSystem::new(initial_stake),
            config,
            peers,
        };
        proof {
            assert(n.objects() =~= Map::<Seq<u8>, BocView>::empty());
            assert(n.zkproofs() =~= Map::<Seq<u8>, ZkProofView>::empty());
        }
        Ok(n)
    }

    /// True when the proof's public inputs are exactly the object's content
    /// hash.
    pub fn verify_proof_binding(proof_artifact: &ZkProof, boc: &Boc) -> (r: bool)
        ensures
            r == proof_binds(proof_artifact@, boc.content_hash_spec()),
    {
        if proof_artifact.public_inputs.len() != 1 {
            return false;
        }
        let h = boc.content_hash();
        let r = bytes_eq(proof_artifact.public_inputs[0].as_slice(), h.as_slice());
        proof {
            assert(proof_artifact@.public_inputs[0] == proof_artifact.public_inputs@[0]@);
        }
        r
    }

    /// Admits an object and its proof: debits one battery unit (not refunded
    /// on failure), rejects the pair unless the proof's single public input
    /// is the object's content hash, and otherwise stores object and proof
    /// atomically under that hash.
    pub fn store_update(&mut self, boc: Boc, proof_artifact: ZkProof) -> (r: Result<
        (),
        SystemError,
    >)
        requires
            old(self).wf(),
            boc.wf(),
        ensures
            final(self).wf(),
            final(self).node_id_view() == old(self).node_id_view(),
            final(self).stake_of() == old(self).stake_of(),
            final(self).config_view() == old(self).config_view(),
            final(self).peers_view() == old(self).peers_view(),
            old(self).battery_charge() < PROCESSING_COST ==> r == Err::<(), SystemError>(
                SystemError::BatteryError,
            ) && final(self).battery_charge() == old(self).battery_charge() && final(self).objects()
                == old(self).objects() && final(self).zkproofs() == old(self).zkproofs(),
            r is Err ==> final(self).boc_entries() == old(self).boc_entries(),
            r is Ok ==> final(self).boc_entries().len() == (if old(self).objects().dom().contains(
                boc.content_hash_spec(),
            ) {
                old(self).boc_entries().len()
            } else {
                old(self).boc_entries().len() + 1
            }),
            old(self).battery_charge() >= PROCESSING_COST ==> final(self).battery_charge() == old(self).battery_charge() - PROCESSING_COST,
            old(self).battery_charge() >= PROCESSING_COST && !proof_binds(
                proof_artifact@,
                boc.content_hash_spec(),
            ) ==> r == Err::<(), SystemError>(SystemError::InvalidProof) && final(self).objects()
                == old(self).objects() && final(self).zkproofs() == old(self).zkproofs(),
            old(self).battery_charge() >= PROCESSING_COST && proof_binds(
                proof_artifact@,
                boc.content_hash_spec(),
            ) ==> r is Ok && final(self).objects() =~= old(self).objects().insert(
                boc.content_hash_spec(),
                boc@,
            ) && final(self).zkproofs() =~= old(self).zkproofs().insert(
                boc.content_hash_spec(),
                proof_artifact@,
            ),
    {
        match self.battery_system.charge_for_processing() {
            Ok(()) => {},
            Err(_) => {
                return Err(SystemError::BatteryError);
            },
        }
        if !Self::verify_proof_binding(&proof_artifact, &boc) {
            return Err(SystemError::InvalidProof);
        }
        let h = boc.content_hash();
        let ghost bocs0 = self.stored_bocs@;
        let ghost proofs0 = self.stored_proofs@;
        let mut idx: Option<usize> = None;
        let mut i: usize = 0;
        while i < self.stored_bocs.len()
            invariant
                i <= self.stored_bocs@.len(),
                h@ == boc.content_hash_spec(),
                self.wf(),
                self.stored_bocs@ == bocs0,
                self.stored_proofs@ == proofs0,
                idx is None ==> forall|j: int|
                    0 <= j < i ==> (#[trigger] bocs0[j]).0@ != h@,
                idx matches Some(k) ==> k < i && bocs0[k as int].0@ == h@,
            decreases self.stored_bocs@.len() - i,
        {
            if bytes32_eq(&self.stored_bocs[i].0, &h) {
                proof {
                    assert(bocs0[i as int].0@ == h@);
                }
                idx = Some(i);
            }
            i = i + 1;
        }
        proof {
            assert(distinct_keys(proofs0)) by {
                assert forall|a: int, b: int| 0 <= a < b < proofs0.len() implies (
                #[trigger] proofs0[a]).0@ != (#[trigger] proofs0[b]).0@ by {
                    assert(bocs0[a].0@ != bocs0[b].0@);
                }
            }
        }
        match idx {
            Some(k) => {
                proof {
                    lemma_index_of_key(bocs0, k as int);
                    assert(proofs0[k as int].0@ == h@);
                    lemma_index_of_key(proofs0, k as int);
                }
                self.stored_bocs.remove(k);
                self.stored_proofs.remove(k);
            },
            None => {
                proof {
                    if contains_key(bocs0, h@) {
                        let j = choose|j: int|
                            0 <= j < bocs0.len() && (#[trigger] bocs0[j]).0@ == h@;
                        assert(false);
                    }
                    if contains_key(proofs0, h@) {
                        let j = choose|j: int|
                            0 <= j < proofs0.len() && (#[trigger] proofs0[j]).0@ == h@;
                        assert(bocs0[j].0@ == h@);
                        assert(false);
                    }
                }
            },
        }
        self.stored_bocs.push((h, boc));
        self.stored_proofs.push((h, proof_artifact));
        proof {
            lemma_upsert(bocs0, self.stored_bocs@, h, boc);
            lemma_upsert(proofs0, self.stored_proofs@, h, proof_artifact);
            let s1 = self.stored_bocs@;
            let p1 = self.stored_proofs@;
            // parallel keys and bindings for the new stores
            assert(s1.len() == p1.len());
            assert forall|j: int| 0 <= j < s1.len() implies (#[trigger] p1[j]).0@ == s1[j].0@ by {
                if j == s1.len() - 1 {
                } else {
                    match idx {
                        Some(k) => {
                            let j0 = if j < k as int {
                                j
                            } else {
                                j + 1
                            };
                            assert(s1[j] == bocs0[j0]);
                            assert(p1[j] == proofs0[j0]);
                        },
                        None => {
                            assert(s1[j] == bocs0[j]);
                            assert(p1[j] == proofs0[j]);
                        },
                    }
                }
            }
            assert forall|j: int| 0 <= j < s1.len() implies (#[trigger] s1[j]).0@
                == s1[j].1.content_hash_spec() && s1[j].1.wf() && proof_binds(
                p1[j].1@,
                s1[j].1.content_hash_spec(),
            ) by {
                if j == s1.len() - 1 {
                } else {
                    match idx {
                        Some(k) => {
                            let j0 = if j < k as int {
                                j
                            } else {
                                j + 1
                            };
                            assert(s1[j] == bocs0[j0]);
                            assert(p1[j] == proofs0[j0]);
                        },
                        None => {
                            assert(s1[j] == bocs0[j]);
                            assert(p1[j] == proofs0[j]);
                        },
                    }
                }
            }
            // the stored maps are the old maps with the new pair inserted
            assert(self.objects() =~= old(self).objects().insert(boc.content_hash_spec(), boc@))
                by {
                assert forall|x: Seq<u8>| #[trigger] contains_key(s1, x) <==> (contains_key(
                    bocs0,
                    x,
                ) || x == h@) by {}
            }
            assert(self.zkproofs() =~= old(self).zkproofs().insert(
                boc.content_hash_spec(),
                proof_artifact@,
            ));
        }
        Ok(())
    }

    /// Returns a copy of the stored object under `boc_id`.
    pub fn retrieve_boc(&self, boc_id: &[u8; 32]) -> (r: Result<Boc, SystemError>)
        requires
            self.wf(),
        ensures
            r is Ok <==> self.objects().dom().contains(boc_id@),
            r matches Ok(b) ==> b@ == self.objects()[boc_id@] && b.wf(),
            r is Err ==> r == Err::<Boc, SystemError>(SystemError::NotFound),
    {
        let mut i: usize = 0;
        while i < self.stored_bocs.len()
            invariant
                self.wf(),
                i <= self.stored_bocs@.len(),
                forall|j: int| 0 <= j < i ==> (#[trigger] self.stored_bocs@[j]).0@ != boc_id@,
            decreases self.stored_bocs@.len() - i,
        {
            if bytes32_eq(&self.stored_bocs[i].0, boc_id) {
                proof {
                    lemma_index_of_key(self.stored_bocs@, i as int);
                }
                return Ok(self.stored_bocs[i].1.clone_boc());
            }
            i = i + 1;
        }
        proof {
            if contains_key(self.stored_bocs@, boc_id@) {
                let j = choose|j: int|
                    0 <= j < self.stored_bocs@.len() && (#[trigger] self.stored_bocs@[j]).0@
                        == boc_id@;
                assert(false);
            }
        }
        Err(SystemError::NotFound)
    }

    /// Returns a copy of the stored proof under `proof_id`.
    pub fn retrieve_proof(&self, proof_id: &[u8; 32]) -> (r: Result<ZkProof, SystemError>)
        requires
            self.wf(),
        ensures
            r is Ok <==> self.zkproofs().dom().contains(proof_id@),
            r matches Ok(p) ==> p@ == self.zkproofs()[proof_id@],
            r is Err ==> r == Err::<ZkProof, SystemError>(SystemError::NotFound),
    {
        proof {
            assert(distinct_keys(self.stored_proofs@)) by {
                assert forall|a: int, b: int|
                    0 <= a < b < self.stored_proofs@.len() implies (
                #[trigger] self.stored_proofs@[a]).0@ != (#[trigger] self.stored_proofs@[b]).0@ by {
                    assert(self.stored_bocs@[a].0@ != self.stored_bocs@[b].0@);
                }
            }
        }
        let mut i: usize = 0;
        while i < self.stored_proofs.len()
            invariant
                self.wf(),
                i <= self.stored_proofs@.len(),
                distinct_keys(self.stored_proofs@),
                forall|j: int| 0 <= j < i ==> (#[trigger] self.stored_proofs@[j]).0@ != proof_id@,
            decreases self.stored_proofs@.len() - i,
        {
            if bytes32_eq(&self.stored_proofs[i].0, proof_id) {
                proof {
                    lemma_index_of_key(self.stored_proofs@, i as int);
                }
                return Ok(clone_zkproof(&self.stored_proofs[i].1));
            }
            i = i + 1;
        }
        proof {
            if contains_key(self.stored_proofs@, proof_id@) {
                let j = choose|j: int|
                    0 <= j < self.stored_proofs@.len() && (#[trigger] self.stored_proofs@[j]).0@
                        == proof_id@;
                assert(false);
            }
        }
        Err(SystemError::NotFound)
    }

    /// Adds a peer; a peer already present is not duplicated.
    pub fn add_peer(&mut self, peer_id: [u8; 32]) -> (r: Result<(), SystemError>)
        requires
            old(self).wf(),
        ensures
            final(self).wf(),
            r is Ok,
            old(self).peers_view().contains(peer_id@) ==> final(self).peers_view() == old(self).peers_view(),
            !old(self).peers_view().contains(peer_id@) ==> final(self).peers_view() == old(self).peers_view().push(peer_id@),
            final(self).objects() == old(self).objects(),
            final(self).zkproofs() == old(self).zkproofs(),
            final(self).battery_charge() == old(self).battery_charge(),
            final(self).node_id_view() == old(self).node_id_view(),
            final(self).stake_of() == old(self).stake_of(),
            final(self).config_view() == old(self).config_view(),
    {
        let mut i: usize = 0;
        while i < self.peers.len()
            invariant
                *self == *old(self),
                self.wf(),
                i <= self.peers@.len(),
                forall|j: int| 0 <= j < i ==> (#[trigger] self.peers@[j])@ != peer_id@,
            decreases self.peers@.len() - i,
        {
            if bytes32_eq(&self.peers[i], &peer_id) {
                proof {
                    assert(self.peers_view()[i as int] == peer_id@);
                    assert(old(self).peers_view().contains(peer_id@));
                    assert(self.wf());
                }
                return Ok(());
            }
            i = i + 1;
        }
        proof {
            if self.peers_view().contains(peer_id@) {
                let j = choose|j: int|
                    0 <= j < self.peers_view().len() && self.peers_view()[j] == peer_id@;
                assert(self.peers@[j]@ == peer_id@);
                assert(false);
            }
        }
        let ghost prev = self.peers@;
        self.peers.push(peer_id);
        proof {
            assert(self.peers_view() =~= prev.map_values(|p: [u8; 32]| p@).push(peer_id@));
        }
        Ok(())
    }

    /// Removes a peer; removing an absent peer changes nothing.
    pub fn remove_peer(&mut self, peer_id: &[u8; 32]) -> (r: Result<(), SystemError>)
        requires
            old(self).wf(),
        ensures
            final(self).wf(),
            r is Ok,
            !final(self).peers_view().contains(peer_id@),
            forall|x: Seq<u8>|
                x != peer_id@ ==> (final(self).peers_view().contains(x) <==> old(self).peers_view().contains(x)),
            final(self).objects() == old(self).objects(),
            final(self).zkproofs() == old(self).zkproofs(),
            final(self).battery_charge() == old(self).battery_charge(),
            final(self).node_id_view() == old(self).node_id_view(),
            final(self).stake_of() == old(self).stake_of(),
            final(self).config_view() == old(self).config_view(),
    {
        let ghost peers0 = self.peers@;
        let mut idx: Option<usize> = None;
        let mut i: usize = 0;
        while i < self.peers.len()
            invariant
                *self == *old(self),
                i <= self.peers@.len(),
                self.peers@ == peers0,
                idx is None ==> forall|j: int| 0 <= j < i ==> (#[trigger] peers0[j])@ != peer_id@,
                idx matches Some(k) ==> k < i && peers0[k as int]@ == peer_id@,
            decreases self.peers@.len() - i,
        {
            if bytes32_eq(&self.peers[i], peer_id) {
                idx = Some(i);
            }
            i = i + 1;
        }
        match idx {
            Some(k) => {
                self.peers.remove(k);
                proof {
                    let now = self.peers@;
                    assert forall|j: int| 0 <= j < now.len() implies #[trigger] now[j] == (if j
                        < k as int {
                        peers0[j]
                    } else {
                        peers0[j + 1]
                    }) by {}
                    assert forall|a: int, b: int| 0 <= a < b < now.len() implies (
                    #[trigger] now[a])@ != (#[trigger] now[b])@ by {
                        let a0 = if a < k as int {
                            a
                        } else {
                            a + 1
                        };
                        let b0 = if b < k as int {
                            b
                        } else {
                            b + 1
                        };
                        assert(peers0[a0]@ != peers0[b0]@);
                    }
                    if self.peers_view().contains(peer_id@) {
                        let j = choose|j: int|
                            0 <= j < self.peers_view().len() && self.peers_view()[j] == peer_id@;
                        let j0 = if j < k as int {
                            j
                        } else {
                            j + 1
                        };
                        assert(peers0[j0]@ == peer_id@);
                        assert(j0 != k as int ==> peers0[j0]@ != peers0[k as int]@);
                        assert(false);
                    }
                    assert forall|x: Seq<u8>| x != peer_id@ implies (
                    self.peers_view().contains(x) <==> old(self).peers_view().contains(x)) by {
                        if self.peers_view().contains(x) {
                            let j = choose|j: int|
                                0 <= j < self.peers_view().len() && self.peers_view()[j] == x;
                            let j0 = if j < k as int {
                                j
                            } else {
                                j + 1
                            };
                            assert(old(self).peers_view()[j0] == x);
                        }
                        if old(self).peers_view().contains(x) {
                            let j0 = choose|j0: int|
                                0 <= j0 < peers0.len() && (#[trigger] peers0[j0])@ == x;
                            assert(j0 != k as int);
                            let j = if j0 < k as int {
                                j0
                            } else {
                                j0 - 1
                            };
                            assert(self.peers_view()[j] == x);
                        }
                    }
                }
            },
            None => {
                proof {
                    if self.peers_view().contains(peer_id@) {
                        let j = choose|j: int|
                            0 <= j < self.peers_view().len() && self.peers_view()[j] == peer_id@;
                        assert(peers0[j]@ == peer_id@);
                        assert(false);
                    }
                }
            },
        }
        Ok(())
    }

    /// True when the cell data held across all stored objects exceeds `cap`
    /// bytes.
    pub fn stored_bytes_exceed(&self, cap: u64) -> (r: bool)
        ensures
            r == (stored_bytes(self.boc_entries()) > cap),
    {
        let ghost entries = self.stored_bocs@;
        let mut acc: u128 = 0;
        let mut i: usize = 0;
        while i < self.stored_bocs.len()
            invariant
                i <= entries.len(),
                self.stored_bocs@ == entries,
                acc as int == stored_bytes(entries.subrange(0, i as int)),
                acc <= cap as u128,
            decreases entries.len() - i,
        {
            let b = &self.stored_bocs[i].1;
            let ghost cells = b.cells_view();
            let n = b.cell_count();
            let mut j: usize = 0;
            proof {
                assert(cells.subrange(0, 0) =~= Seq::<Seq<u8>>::empty());
            }
            while j < n
                invariant
                    j <= cells.len(),
                    n == cells.len(),
                    b.cells_view() == cells,
                    i < entries.len(),
                    cells == entries[i as int].1.cells_view(),
                    acc as int == stored_bytes(entries.subrange(0, i as int))
                        + crate::boc::cells_bytes(cells.subrange(0, j as int)),
                    acc <= cap as u128,
                    self.stored_bocs@ == entries,
                decreases cells.len() - j,
            {
                let l = b.cell_len(j);
                acc = acc + l as u128;
                proof {
                    assert(cells.subrange(0, j + 1 as int).drop_last() =~= cells.subrange(
                        0,
                        j as int,
                    ));
                    assert(cells.subrange(0, j + 1 as int).last() == cells[j as int]);
                }
                if acc > cap as u128 {
                    proof {
                        lemma_stored_bytes_prefix_bound(entries, i as int, j + 1 as int);
                    }
                    return true;
                }
                j = j + 1;
            }
            proof {
                assert(cells.subrange(0, cells.len() as int) =~= cells);
                assert(entries.subrange(0, i + 1 as int).drop_last() =~= entries.subrange(
                    0,
                    i as int,
                ));
                assert(entries.subrange(0, i + 1 as int).last() == entries[i as int]);
            }
            i = i + 1;
        }
        proof {
            assert(entries.subrange(0, entries.len() as int) =~= entries);
        }
        false
    }

    /// The content hashes of the stored objects, in store order.
    pub fn stored_keys(&self) -> (r: Vec<[u8; 32]>)
        ensures
            r@.len() == self.boc_entries().len(),
            forall|j: int|
                0 <= j < r@.len() ==> (#[trigger] r@[j])@ == self.boc_entries()[j].0@,
    {
        let mut keys: Vec<[u8; 32]> = Vec::new();
        let mut i: usize = 0;
        while i < self.stored_bocs.len()
            invariant
                i <= self.stored_bocs@.len(),
                keys@.len() == i,
                forall|j: int|
                    0 <= j < i ==> (#[trigger] keys@[j])@ == self.stored_bocs@[j].0@,
            decreases self.stored_bocs@.len() - i,
        {
            keys.push(self.stored_bocs[i].0);
            i = i + 1;
        }
        keys
    }

    /// The battery charge now available.
    pub fn battery_level(&self) -> (r: u64)
        ensures
            r == self.battery_charge(),
    {
        self.battery_system.charge_level()
    }

    /// Number of stored objects.
    pub fn object_count(&self) -> (r: usize)
        ensures
            r == self.boc_entries().len(),
    {
        self.stored_bocs.len()
    }
}

/// Total bytes of cell data across a store's entries.
pub open spec fn stored_bytes(entries: Seq<([u8; 32], Boc)>) -> int
    decreases entries.len(),
{
    if entries.len() == 0 {
        0
    } else {
        stored_bytes(entries.drop_last()) + entries.last().1.total_cell_bytes()
    }
}

/// Stored byte totals are never negative.
pub proof fn lemma_stored_bytes_nonneg(entries: Seq<([u8; 32], Boc)>)
    ensures
        stored_bytes(entries) >= 0,
    decreases entries.len(),
{
    if entries.len() > 0 {
        lemma_stored_bytes_nonneg(entries.drop_last());
        crate::boc::lemma_cells_bytes_nonneg(entries.last().1.cells_view());
    }
}

/// Stored byte totals add over concatenation.
pub proof fn lemma_stored_bytes_add(a: Seq<([u8; 32], Boc)>, b: Seq<([u8; 32], Boc)>)
    ensures
        stored_bytes(a + b) == stored_bytes(a) + stored_bytes(b),
    decreases b.len(),
{
    if b.len() == 0 {
        assert(a + b =~= a);
    } else {
        lemma_stored_bytes_add(a, b.drop_last());
        assert((a + b).drop_last() =~= a + b.drop_last());
        assert((a + b).last() == b.last());
    }
}

/// A prefix of the stored cell data never exceeds the whole: the bytes of the
/// first `i` entries plus the first `j` cells of entry `i` are at most the
/// total.
#[verifier::rlimit(50)]
pub proof fn lemma_stored_bytes_prefix_bound(entries: Seq<([u8; 32], Boc)>, i: int, j: int)
    requires
        0 <= i < entries.len(),
        0 <= j <= entries[i].1.cells_view().len(),
    ensures
        stored_bytes(entries.subrange(0, i)) + crate::boc::cells_bytes(
            entries[i].1.cells_view().subrange(0, j),
        ) <= stored_bytes(entries),
{
    let cells = entries[i].1.cells_view();
    assert(entries =~= entries.subrange(0, i) + entries.subrange(i, entries.len() as int));
    lemma_stored_bytes_add(entries.subrange(0, i), entries.subrange(i, entries.len() as int));
    let tail = entries.subrange(i, entries.len() as int);
    assert(tail =~= seq![entries[i]] + tail.subrange(1, tail.len() as int));
    lemma_stored_bytes_add(seq![entries[i]], tail.subrange(1, tail.len() as int));
    lemma_stored_bytes_nonneg(tail.subrange(1, tail.len() as int));
    assert(stored_bytes(seq![entries[i]]) == entries[i].1.total_cell_bytes()) by {
        reveal_with_fuel(stored_bytes, 2);
        assert(seq![entries[i]].drop_last() =~= Seq::<([u8; 32], Boc)>::empty());
        assert(stored_bytes(seq![entries[i]].drop_last()) == 0);
    }
    assert(cells =~= cells.subrange(0, j) + cells.subrange(j, cells.len() as int));
    crate::boc::lemma_cells_bytes_add(cells.subrange(0, j), cells.subrange(j, cells.len() as int));
    crate::boc::lemma_cells_bytes_nonneg(cells.subrange(j, cells.len() as int));
}

} // verus!
