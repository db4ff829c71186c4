//! Exporting a wallet root and its proof for submission to the intermediate
//! layer, framed as a bag of cells.

use vstd::prelude::*;

use crate::boc::Boc;
use crate::errors::SystemError;
use crate::util::{copy_bytes, extend_from_slice};
use crate::zkproof::ZkProof;
use vstd::bytes::{spec_u64_to_le_bytes, u64_to_le_bytes};

verus! {

/// The kinds of proof a wallet can submit.
#[derive(Clone, Copy, Debug, PartialEq, Eq, Structural)]
pub enum ProofType {
    StateTransition,
    BalanceTransfer,
    MerkleInclusion,
    WalletRoot,
    ChannelStateTransition,
    ChannelStateTransitionProof,
}

/// The wire code of a proof kind.
pub open spec fn proof_type_code_spec(t: ProofType) -> u8 {
    match t {
        ProofType::StateTransition => 0,
        ProofType::BalanceTransfer => 1,
        ProofType::MerkleInclusion => 2,
        ProofType::WalletRoot => 3,
        ProofType::ChannelStateTransition => 4,
        ProofType::ChannelStateTransitionProof => 5,
    }
}

/// The wire code of a proof kind.
pub fn proof_type_code(t: &ProofType) -> (r: u8)
    ensures
        r == proof_type_code_spec(*t),
{
    match t {
        ProofType::StateTransition => 0,
        ProofType::BalanceTransfer => 1,
        ProofType::MerkleInclusion => 2,
        ProofType::WalletRoot => 3,
        ProofType::ChannelStateTransition => 4,
        ProofType::ChannelStateTransitionProof => 5,
    }
}

/// Metadata tracking a proof's context.
pub struct ProofMetadata {
    pub timestamp: u64,
    pub nonce: u64,
    pub wallet_id: [u8; 32],
    pub proof_type: ProofType,
    pub channel_id: Option<[u8; 32]>,
    pub state_root: Option<[u8; 32]>,
    pub state_proof: Option<ZkProof>,
}

/// A wallet root with the proof that commits to it.
pub struct WalletRootProof {
    pub wallet_root: [u8; 32],
    pub proof: ZkProof,
    pub metadata: ProofMetadata,
    pub proof_type: ProofType,
    pub channel_id: Option<[u8; 32]>,
    pub state_root: Option<[u8; 32]>,
    pub state_proof: Option<ZkProof>,
}

/// Public inputs flattened to one byte string, in order.
pub open spec fn concat_inputs(inputs: Seq<Seq<u8>>) -> Seq<u8>
    decreases inputs.len(),
{
    if inputs.len() == 0 {
        Seq::empty()
    } else {
        concat_inputs(inputs.drop_last()) + inputs.last()
    }
}

proof fn lemma_concat_inputs_push(inputs: Seq<Seq<u8>>, x: Seq<u8>)
    ensures
        concat_inputs(inputs.push(x)) == concat_inputs(inputs) + x,
{
    assert(inputs.push(x).drop_last() =~= inputs);
    assert(inputs.push(x).last() == x);
}

/// The exported payload: the wallet root, the proof's public inputs and
/// commitment root and bytes, the tracking metadata, and the proof kind code.
pub open spec fn export_data_spec(p: &WalletRootProof) -> Seq<u8> {
    p.wallet_root@ + concat_inputs(p.proof@.public_inputs) + p.proof@.merkle_root
        + p.proof@.proof_data + spec_u64_to_le_bytes(p.metadata.timestamp) + spec_u64_to_le_bytes(
        p.metadata.nonce,
    ) + p.metadata.wallet_id@ + seq![proof_type_code_spec(p.metadata.proof_type)]
}

impl WalletRootProof {
    /// Assembles a wallet root proof; the context fields mirror the metadata.
    pub fn new(wallet_root: [u8; 32], proof: ZkProof, metadata: ProofMetadata) -> (r: Self)
        ensures
            r.wallet_root@ == wallet_root@,
            r.proof@ == proof@,
            r.proof_type == metadata.proof_type,
            r.channel_id == metadata.channel_id,
            r.state_root == metadata.state_root,
            r.metadata.timestamp == metadata.timestamp,
            r.metadata.nonce == metadata.nonce,
            r.metadata.wallet_id@ == metadata.wallet_id@,
            r.metadata.proof_type == metadata.proof_type,
            r.state_proof is Some <==> metadata.state_proof is Some,
            r.state_proof matches Some(p) ==> (metadata.state_proof matches Some(q) && p@ == q@),
    {
        let proof_type = metadata.proof_type;
        let channel_id = metadata.channel_id;
        let state_root = metadata.state_root;
        let state_proof = match &metadata.state_proof {
            Some(p) => Some(crate::zkproof::clone_zkproof(p)),
            None => None,
        };
        WalletRootProof {
            wallet_root,
            proof,
            proof_type,
            channel_id,
            state_root,
            state_proof,
            metadata,
        }
    }

    /// Exports the wallet root and its proof as a container: one root cell
    /// holding the framed payload.
    pub fn export_proof_boc(&self) -> (r: Result<Boc, SystemError>)
        ensures
            r is Ok,
            r matches Ok(b) ==> b.wf() && b.cells_view() == seq![export_data_spec(self)]
                && b.roots_view() == seq![0usize],
    {
        let mut data: Vec<u8> = Vec::new();
        extend_from_slice(&mut data, self.wallet_root.as_slice());
        let ghost inputs_view = self.proof@.public_inputs;
        let mut i: usize = 0;
        proof {
            assert(concat_inputs(inputs_view.subrange(0, 0)) =~= Seq::<u8>::empty());
            assert(data@ =~= self.wallet_root@ + concat_inputs(inputs_view.subrange(0, 0)));
        }
        while i < self.proof.public_inputs.len()
            invariant
                i <= inputs_view.len(),
                inputs_view == self.proof@.public_inputs,
                inputs_view.len() == self.proof.public_inputs@.len(),
                data@ == self.wallet_root@ + concat_inputs(inputs_view.subrange(0, i as int)),
            decreases inputs_view.len() - i,
        {
            extend_from_slice(&mut data, self.proof.public_inputs[i].as_slice());
            proof {
                lemma_concat_inputs_push(
                    inputs_view.subrange(0, i as int),
                    inputs_view[i as int],
                );
                assert(inputs_view.subrange(0, i + 1 as int) =~= inputs_view.subrange(
                    0,
                    i as int,
                ).push(inputs_view[i as int]));
                assert(inputs_view[i as int] == self.proof.public_inputs@[i as int]@);
            }
            i = i + 1;
        }
        proof {
            assert(inputs_view.subrange(0, inputs_view.len() as int) =~= inputs_view);
        }
        extend_from_slice(&mut data, self.proof.merkle_root.as_slice());
        extend_from_slice(&mut data, self.proof.proof_data.as_slice());
        let ts_bytes = u64_to_le_bytes(self.metadata.timestamp);
        extend_from_slice(&mut data, ts_bytes.as_slice());
        let nonce_bytes = u64_to_le_bytes(self.metadata.nonce);
        extend_from_slice(&mut data, nonce_bytes.as_slice());
        extend_from_slice(&mut data, self.metadata.wallet_id.as_slice());
        data.push(proof_type_code(&self.metadata.proof_type));
        proof {
            assert(data@ =~= export_data_spec(self));
        }
        let mut boc = Boc::new();
        let cell = boc.add_cell(data);
        match boc.add_root(cell) {
            Ok(()) => {},
            Err(e) => {
                return Err(e);
            },
        }
        proof {
            assert(boc.cells_view() =~= seq![export_data_spec(self)]);
            assert(boc.roots_view() =~= seq![0usize]);
        }
        Ok(boc)
    }
}

} // verus!
