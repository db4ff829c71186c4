//! Translating external-chain lock state into channel state and back.
//!
//! The converter folds a lock into the channel state tree, screens state
//! transitions against the channel invariants, and assembles the byte
//! payloads the succinct-proof backend consumes. Generating and verifying the
//! proofs themselves is the backend's business: its outputs and verdicts come
//! in as plain values.

use vstd::prelude::*;

use crate::boc::Boc;
use crate::errors::SystemError;
use crate::hashing::{sha256, sha256_of, zero_hash};
use crate::smt::{field_commitment, key_path, sibling_at, spec_insert, tree_proof, LeafView,
    SparseMerkleTreeI};
use crate::util::{bytes20_eq, bytes32_eq, copy_bytes, extend_from_slice};
use crate::zkproof::ZkProof;
use vstd::bytes::{spec_u32_to_le_bytes, spec_u64_to_le_bytes, u32_to_le_bytes, u64_to_le_bytes};

verus! {

/// An external-chain lock: the funding state a channel is opened from and
/// settled back into.
pub struct BitcoinLockState {
    pub lock_amount: u64,
    pub lock_script_hash: [u8; 32],
    pub lock_height: u32,
    pub pubkey_hash: [u8; 20],
    pub sequence: u64,
}

/// A channel state at this layer: the payload folded into the state tree.
pub struct OverpassBitcoinState {
    pub channel_id: [u8; 32],
    pub state_root: [u8; 32],
    pub current_balance: u64,
    pub nonce: u64,
    pub sequence: u64,
    pub pubkey_hash: [u8; 20],
    pub merkle_proof: Vec<u8>,
}

/// The channel identifier derived from a lock: the double digest of its
/// script hash, height and public-key hash.
pub open spec fn channel_id_spec(
    lock_script_hash: Seq<u8>,
    lock_height: u32,
    pubkey_hash: Seq<u8>,
) -> Seq<u8> {
    sha256_of(sha256_of(lock_script_hash + spec_u32_to_le_bytes(lock_height) + pubkey_hash))
}

/// The initial channel payload: the locked amount, the owner's key hash, and
/// an all-zero initial state root.
pub open spec fn initial_state_data(lock_amount: u64, pubkey_hash: Seq<u8>) -> Seq<u8> {
    spec_u64_to_le_bytes(lock_amount) + pubkey_hash + zero_hash()
}

/// The channel-state invariants every accepted transition preserves: the
/// channel identity and the owner's key hash never change, and the sequence
/// number advances by exactly one.
pub open spec fn state_constraints_ok(
    prev: &OverpassBitcoinState,
    new: &OverpassBitcoinState,
) -> bool {
    &&& prev.channel_id@ == new.channel_id@
    &&& new.sequence == prev.sequence + 1
    &&& prev.pubkey_hash@ == new.pubkey_hash@
}

/// Proof steps flattened to bytes: each sibling followed by one side byte.
pub open spec fn flatten_steps(steps: Seq<(Seq<u8>, bool)>) -> Seq<u8>
    decreases steps.len(),
{
    if steps.len() == 0 {
        Seq::empty()
    } else {
        flatten_steps(steps.drop_last()) + steps.last().0 + seq![
            if steps.last().1 {
                1u8
            } else {
                0u8
            },
        ]
    }
}

proof fn lemma_flatten_push(steps: Seq<(Seq<u8>, bool)>, s: (Seq<u8>, bool))
    ensures
        flatten_steps(steps.push(s)) == flatten_steps(steps) + s.0 + seq![
            if s.1 {
                1u8
            } else {
                0u8
            },
        ],
{
    assert(steps.push(s).drop_last() =~= steps);
    assert(steps.push(s).last() == s);
}

/// The bytes handed to the proof backend to verify a state transition: both
/// roots and the new balance.
pub open spec fn transition_data_spec(
    prev: &OverpassBitcoinState,
    new: &OverpassBitcoinState,
) -> Seq<u8> {
    prev.state_root@ + new.state_root@ + spec_u64_to_le_bytes(new.current_balance)
}

/// The public inputs of a settlement proof: the final root, balance and
/// owner's key hash.
pub open spec fn settlement_inputs_spec(final_state: &OverpassBitcoinState) -> Seq<u8> {
    final_state.state_root@ + spec_u64_to_le_bytes(final_state.current_balance)
        + final_state.pubkey_hash@
}

/// Folds external-chain locks into the channel state tree and screens the
/// transitions that follow.
pub struct BitcoinStateConverter {
    state_tree: SparseMerkleTreeI,
}

impl BitcoinStateConverter {
    /// The channel state tree's leaves.
    pub closed spec fn tree_leaves(&self) -> Seq<LeafView> {
        self.state_tree.leaves()
    }

    /// The channel state tree's root.
    pub closed spec fn tree_root(&self) -> Seq<u8> {
        self.state_tree.root_view()
    }

    /// The root transitions the tree has performed.
    pub closed spec fn tree_transitions(&self) -> Seq<(Seq<u8>, Seq<u8>)> {
        self.state_tree.transitions_view()
    }

    /// Well-formed: the state tree is.
    pub closed spec fn wf(&self) -> bool {
        self.state_tree.wf()
    }

    /// Creates a converter over the given channel state tree.
    pub fn new(state_tree: SparseMerkleTreeI) -> (r: Self)
        requires
            state_tree.wf(),
        ensures
            r.wf(),
            r.tree_leaves() == state_tree.leaves(),
            r.tree_root() == state_tree.root_view(),
            r.tree_transitions() == state_tree.transitions_view(),
    {
        BitcoinStateConverter { state_tree }
    }

    /// The current channel state tree root.
    pub fn current_root(&self) -> (r: [u8; 32])
        ensures
            r@ == self.tree_root(),
    {
        self.state_tree.root()
    }

    /// Converts an initial lock into channel state: derives the channel
    /// identifier, folds the initial payload into the state tree, and wraps
    /// the backend's conversion proof bytes with the commitments it attests
    /// to. `proof_data` is the backend's output for this conversion.
    pub fn convert_lock_to_state(
        &mut self,
        lock_state: &BitcoinLockState,
        proof_data: Vec<u8>,
    ) -> (r: Result<(OverpassBitcoinState, ZkProof), SystemError>)
        requires
            old(self).wf(),
        ensures
            final(self).wf(),
            r is Ok,
            r matches Ok(pair) ==> {
                let cid = channel_id_spec(
                    lock_state.lock_script_hash@,
                    lock_state.lock_height,
                    lock_state.pubkey_hash@,
                );
                let data = initial_state_data(lock_state.lock_amount, lock_state.pubkey_hash@);
                &&& final(self).tree_leaves() == spec_insert(old(self).tree_leaves(), cid, data)
                &&& pair.0.channel_id@ == cid
                &&& pair.0.state_root@ == final(self).tree_root()
                &&& pair.0.state_root@ == crate::smt::root_spec(final(self).tree_leaves())
                &&& pair.0.current_balance == lock_state.lock_amount
                &&& pair.0.nonce == 0
                &&& pair.0.sequence == lock_state.sequence
                &&& pair.0.pubkey_hash@ == lock_state.pubkey_hash@
                &&& pair.0.merkle_proof@ == flatten_steps(
                    tree_proof(final(self).tree_leaves(), key_path(cid)),
                )
                &&& pair.1@.proof_data == proof_data@
                &&& pair.1@.public_inputs.len() == 259
                &&& pair.1@.public_inputs[0] == spec_u64_to_le_bytes(
                    field_commitment(crate::hashing::leaf_hash_spec(cid, Seq::empty())),
                )
                &&& pair.1@.public_inputs[1] == spec_u64_to_le_bytes(
                    field_commitment(crate::hashing::leaf_hash_spec(cid, data)),
                )
                &&& (forall|level: int|
                    0 <= level < 256 ==> pair.1@.public_inputs[2 + level]
                        == spec_u64_to_le_bytes(
                        #[trigger] field_commitment(
                            sibling_at(final(self).tree_leaves(), key_path(cid), level),
                        ),
                    ))
                &&& pair.1@.public_inputs[258] == spec_u64_to_le_bytes(
                    field_commitment(final(self).tree_root()),
                )
                &&& pair.1@.merkle_root == final(self).tree_root()
                &&& pair.1@.timestamp == 0
            },
    {
        let mut preimage: Vec<u8> = Vec::new();
        extend_from_slice(&mut preimage, lock_state.lock_script_hash.as_slice());
        let height_bytes = u32_to_le_bytes(lock_state.lock_height);
        extend_from_slice(&mut preimage, height_bytes.as_slice());
        extend_from_slice(&mut preimage, lock_state.pubkey_hash.as_slice());
        proof {
            assert(preimage@ =~= lock_state.lock_script_hash@ + spec_u32_to_le_bytes(
                lock_state.lock_height,
            ) + lock_state.pubkey_hash@);
        }
        let inner = sha256(preimage.as_slice());
        let channel_id = sha256(inner.as_slice());

        let mut state_data: Vec<u8> = Vec::new();
        let amount_bytes = u64_to_le_bytes(lock_state.lock_amount);
        extend_from_slice(&mut state_data, amount_bytes.as_slice());
        extend_from_slice(&mut state_data, lock_state.pubkey_hash.as_slice());
        let zero_root = crate::hashing::zero_hash_bytes();
        extend_from_slice(&mut state_data, zero_root.as_slice());
        proof {
            assert(state_data@ =~= initial_state_data(
                lock_state.lock_amount,
                lock_state.pubkey_hash@,
            ));
        }

        let new_root = match self.state_tree.update(channel_id.as_slice(), state_data.as_slice()) {
            Ok(root) => root,
            Err(e) => {
                return Err(e);
            },
        };

        let steps = self.state_tree.get_proof(channel_id.as_slice());
        let ghost cid = channel_id@;
        let ghost proof_steps = tree_proof(self.state_tree.leaves(), key_path(cid));
        proof {
            assert(crate::smt::steps_view(steps@) =~= proof_steps);
        }
        let mut merkle_proof: Vec<u8> = Vec::new();
        let mut d: usize = 0;
        proof {
            assert(merkle_proof@ =~= flatten_steps(proof_steps.subrange(0, 0)));
        }
        while d < 256
            invariant
                d <= 256,
                steps@.len() == 256,
                crate::smt::steps_view(steps@) == proof_steps,
                merkle_proof@ == flatten_steps(proof_steps.subrange(0, d as int)),
            decreases 256 - d,
        {
            extend_from_slice(&mut merkle_proof, steps[d].sibling.as_slice());
            merkle_proof.push(if steps[d].sibling_is_left { 1u8 } else { 0u8 });
            proof {
                lemma_flatten_push(proof_steps.subrange(0, d as int), proof_steps[d as int]);
                assert(proof_steps.subrange(0, d + 1 as int) =~= proof_steps.subrange(
                    0,
                    d as int,
                ).push(proof_steps[d as int]));
                assert(proof_steps[d as int] == steps@[d as int]@);
                assert(merkle_proof@ =~= flatten_steps(proof_steps.subrange(0, d + 1 as int)));
            }
            d = d + 1;
        }
        proof {
            assert(proof_steps.subrange(0, 256) =~= proof_steps);
        }

        let accumulator = self.state_tree.constraint_accumulator(
            channel_id.as_slice(),
            state_data.as_slice(),
        );
        let mut public_inputs: Vec<Vec<u8>> = Vec::new();
        let mut c: usize = 0;
        while c < accumulator.commitments.len()
            invariant
                c <= accumulator.commitments@.len(),
                public_inputs@.len() == c,
                forall|j: int|
                    0 <= j < c ==> (#[trigger] public_inputs@[j])@ == spec_u64_to_le_bytes(
                        accumulator.commitments@[j],
                    ),
            decreases accumulator.commitments@.len() - c,
        {
            public_inputs.push(u64_to_le_bytes(accumulator.commitments[c]));
            c = c + 1;
        }

        let state = OverpassBitcoinState {
            channel_id,
            state_root: new_root,
            current_balance: lock_state.lock_amount,
            nonce: 0,
            sequence: lock_state.sequence,
            pubkey_hash: lock_state.pubkey_hash,
            merkle_proof,
        };
        let zk_proof = ZkProof::new(proof_data, public_inputs, copy_bytes(new_root.as_slice()), 0);
        Ok((state, zk_proof))
    }

    /// Frames a conversion into a container: a cell for the lock, a cell for
    /// the channel state, a cell for the proof bytes, and references chaining
    /// them.
    pub fn create_conversion_boc(
        &self,
        lock_state: &BitcoinLockState,
        overpass_state: &OverpassBitcoinState,
        proof_artifact: &ZkProof,
    ) -> (r: Result<Boc, SystemError>)
        ensures
            r is Ok,
            r matches Ok(b) ==> {
                &&& b.wf()
                &&& b.cells_view() == seq![
                    spec_u64_to_le_bytes(lock_state.lock_amount) + lock_state.lock_script_hash@
                        + spec_u32_to_le_bytes(lock_state.lock_height),
                    overpass_state.channel_id@ + spec_u64_to_le_bytes(
                        overpass_state.current_balance,
                    ) + spec_u64_to_le_bytes(overpass_state.nonce),
                    proof_artifact@.proof_data,
                ]
                &&& b.references_view() == seq![(0usize, 1usize), (1usize, 2usize)]
                &&& b.roots_view() == Seq::<usize>::empty()
            },
    {
        let mut lock_data: Vec<u8> = Vec::new();
        let amount_bytes = u64_to_le_bytes(lock_state.lock_amount);
        extend_from_slice(&mut lock_data, amount_bytes.as_slice());
        extend_from_slice(&mut lock_data, lock_state.lock_script_hash.as_slice());
        let height_bytes = u32_to_le_bytes(lock_state.lock_height);
        extend_from_slice(&mut lock_data, height_bytes.as_slice());

        let mut state_data: Vec<u8> = Vec::new();
        extend_from_slice(&mut state_data, overpass_state.channel_id.as_slice());
        let balance_bytes = u64_to_le_bytes(overpass_state.current_balance);
        extend_from_slice(&mut state_data, balance_bytes.as_slice());
        let nonce_bytes = u64_to_le_bytes(overpass_state.nonce);
        extend_from_slice(&mut state_data, nonce_bytes.as_slice());

        let mut boc = Boc::new();
        let lock_cell = boc.add_cell(lock_data);
        let state_cell = boc.add_cell(state_data);
        let proof_cell = boc.add_cell(copy_bytes(proof_artifact.data().as_slice()));
        match boc.add_reference(lock_cell, state_cell) {
            Ok(()) => {},
            Err(e) => {
                return Err(e);
            },
        }
        match boc.add_reference(state_cell, proof_cell) {
            Ok(()) => {},
            Err(e) => {
                return Err(e);
            },
        }
        proof {
            assert(boc.cells_view() =~= seq![
                spec_u64_to_le_bytes(lock_state.lock_amount) + lock_state.lock_script_hash@
                    + spec_u32_to_le_bytes(lock_state.lock_height),
                overpass_state.channel_id@ + spec_u64_to_le_bytes(overpass_state.current_balance)
                    + spec_u64_to_le_bytes(overpass_state.nonce),
                proof_artifact@.proof_data,
            ]);
            assert(boc.references_view() =~= seq![(0usize, 1usize), (1usize, 2usize)]);
        }
        Ok(boc)
    }

    /// Screens a transition against the channel-state invariants alone.
    pub fn verify_state_constraints(
        &self,
        prev_state: &OverpassBitcoinState,
        new_state: &OverpassBitcoinState,
    ) -> (r: bool)
        ensures
            r == state_constraints_ok(prev_state, new_state),
    {
        if !bytes32_eq(&prev_state.channel_id, &new_state.channel_id) {
            return false;
        }
        if prev_state.sequence == u64::MAX || new_state.sequence != prev_state.sequence + 1 {
            return false;
        }
        if !bytes20_eq(&prev_state.pubkey_hash, &new_state.pubkey_hash) {
            return false;
        }
        true
    }

    /// Verifies a state transition: the channel invariants must hold, the
    /// root transition must be one this tree performed, and the backend must
    /// have accepted the transition data; `backend_ok` is its verdict on
    /// `transition_verification_data`. A transition violating the invariants
    /// is rejected whatever the backend said.
    pub fn verify_state_transition(
        &self,
        prev_state: &OverpassBitcoinState,
        new_state: &OverpassBitcoinState,
        backend_ok: bool,
    ) -> (r: Result<bool, SystemError>)
        ensures
            r == Ok::<bool, SystemError>(
                state_constraints_ok(prev_state, new_state) && self.tree_transitions().contains(
                    (prev_state.state_root@, new_state.state_root@),
                ) && backend_ok,
            ),
    {
        if !self.verify_state_constraints(prev_state, new_state) {
            return Ok(false);
        }
        if !self.state_tree.verify_root_transition(&prev_state.state_root, &new_state.state_root) {
            return Ok(false);
        }
        Ok(backend_ok)
    }

    /// The bytes the backend verifies for a transition: both roots and the
    /// new balance.
    pub fn transition_verification_data(
        prev_state: &OverpassBitcoinState,
        new_state: &OverpassBitcoinState,
    ) -> (r: Vec<u8>)
        ensures
            r@ == transition_data_spec(prev_state, new_state),
    {
        let mut data: Vec<u8> = Vec::new();
        extend_from_slice(&mut data, prev_state.state_root.as_slice());
        extend_from_slice(&mut data, new_state.state_root.as_slice());
        let balance_bytes = u64_to_le_bytes(new_state.current_balance);
        extend_from_slice(&mut data, balance_bytes.as_slice());
        proof {
            assert(data@ =~= transition_data_spec(prev_state, new_state));
        }
        data
    }

    /// The public inputs of a settlement proof for `final_state`.
    pub fn settlement_proof_inputs(final_state: &OverpassBitcoinState) -> (r: Vec<u8>)
        ensures
            r@ == settlement_inputs_spec(final_state),
    {
        let mut data: Vec<u8> = Vec::new();
        extend_from_slice(&mut data, final_state.state_root.as_slice());
        let balance_bytes = u64_to_le_bytes(final_state.current_balance);
        extend_from_slice(&mut data, balance_bytes.as_slice());
        extend_from_slice(&mut data, final_state.pubkey_hash.as_slice());
        proof {
            assert(data@ =~= settlement_inputs_spec(final_state));
        }
        data
    }

    /// Prepares a settlement back to the external chain: the final state must
    /// carry this tree's current root, and the backend's settlement proof
    /// bytes are wrapped with the settlement inputs they attest to. The
    /// script hash and height are left for the settlement handler to fill.
    pub fn prepare_settlement(
        &self,
        final_state: &OverpassBitcoinState,
        proof_data: Vec<u8>,
    ) -> (r: Result<(BitcoinLockState, ZkProof), SystemError>)
        ensures
            r is Ok <==> final_state.state_root@ == self.tree_root(),
            r is Err ==> r == Err::<(BitcoinLockState, ZkProof), SystemError>(
                SystemError::InvalidState,
            ),
            r matches Ok(pair) ==> {
                &&& pair.0.lock_amount == final_state.current_balance
                &&& pair.0.lock_script_hash@ == zero_hash()
                &&& pair.0.lock_height == 0
                &&& pair.0.pubkey_hash@ == final_state.pubkey_hash@
                &&& pair.0.sequence == final_state.sequence
                &&& pair.1@.proof_data == proof_data@
                &&& pair.1@.public_inputs == seq![settlement_inputs_spec(final_state)]
                &&& pair.1@.merkle_root == final_state.state_root@
                &&& pair.1@.timestamp == 0
            },
    {
        let tree_root = self.state_tree.root();
        if !bytes32_eq(&tree_root, &final_state.state_root) {
            return Err(SystemError::InvalidState);
        }
        let lock_state = BitcoinLockState {
            lock_amount: final_state.current_balance,
            lock_script_hash: crate::hashing::zero_hash_bytes(),
            lock_height: 0,
            pubkey_hash: final_state.pubkey_hash,
            sequence: final_state.sequence,
        };
        let inputs = Self::settlement_proof_inputs(final_state);
        let mut public_inputs: Vec<Vec<u8>> = Vec::new();
        public_inputs.push(inputs);
        proof {
            assert(public_inputs@.map_values(|v: Vec<u8>| v@) =~= seq![
                settlement_inputs_spec(final_state),
            ]);
        }
        let zk_proof = ZkProof::new(
            proof_data,
            public_inputs,
            copy_bytes(final_state.state_root.as_slice()),
            0,
        );
        Ok((lock_state, zk_proof))
    }
}

/// Law: the sequence invariant. A transition whose sequence number does not
/// advance by exactly one, or whose channel identity or owner key hash
/// differs, fails the channel-state constraints, so its verification verdict
/// is negative whatever the proof said.
pub proof fn lemma_sequence_invariant(
    prev_state: &OverpassBitcoinState,
    new_state: &OverpassBitcoinState,
    in_log: bool,
    backend_ok: bool,
)
    requires
        new_state.sequence != prev_state.sequence + 1 || prev_state.channel_id@
            != new_state.channel_id@ || prev_state.pubkey_hash@ != new_state.pubkey_hash@,
    ensures
        !state_constraints_ok(prev_state, new_state),
        !(state_constraints_ok(prev_state, new_state) && in_log && backend_ok),
{
}

} // verus!
