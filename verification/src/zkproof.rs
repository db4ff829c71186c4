//! The succinct-proof artifact the core carries around.
//!
//! Proof bytes are opaque: the core only inspects the public inputs and the
//! commitment root for binding checks; generating and verifying the proof is
//! the backend's business.

use vstd::prelude::*;

verus! {

/// A proof artifact: opaque proof bytes plus the fields the core binds on.
pub struct ZkProof {
    /// The backend's serialized proof, never inspected here.
    pub proof_data: Vec<u8>,
    /// The public inputs the proof commits to, as byte strings.
    pub public_inputs: Vec<Vec<u8>>,
    /// The commitment root the proof speaks about.
    pub merkle_root: Vec<u8>,
    /// When the proof was produced, in milliseconds.
    pub timestamp: u64,
}

/// The mathematical image of a proof artifact.
pub struct ZkProofView {
    pub proof_data: Seq<u8>,
    pub public_inputs: Seq<Seq<u8>>,
    pub merkle_root: Seq<u8>,
    pub timestamp: u64,
}

impl View for ZkProof {
    type V = ZkProofView;

    open spec fn view(&self) -> ZkProofView {
        ZkProofView {
            proof_data: self.proof_data@,
            public_inputs: self.public_inputs@.map_values(|v: Vec<u8>| v@),
            merkle_root: self.merkle_root@,
            timestamp: self.timestamp,
        }
    }
}

impl ZkProof {
    /// Assembles a proof artifact from its parts.
    pub fn new(
        proof_data: Vec<u8>,
        public_inputs: Vec<Vec<u8>>,
        merkle_root: Vec<u8>,
        timestamp: u64,
    ) -> (r: Self)
        ensures
            r@.proof_data == proof_data@,
            r@.public_inputs == public_inputs@.map_values(|v: Vec<u8>| v@),
            r@.merkle_root == merkle_root@,
            r@.timestamp == timestamp,
    {
        ZkProof { proof_data, public_inputs, merkle_root, timestamp }
    }

    /// The opaque proof bytes.
    pub fn data(&self) -> (r: &Vec<u8>)
        ensures
            r@ == self@.proof_data,
    {
        &self.proof_data
    }
}

/// Copies a proof artifact.
pub fn clone_zkproof(p: &ZkProof) -> (r: ZkProof)
    ensures
        r@ == p@,
{
    let mut inputs: Vec<Vec<u8>> = Vec::new();
    let mut i: usize = 0;
    while i < p.public_inputs.len()
        invariant
            i <= p.public_inputs@.len(),
            inputs@.map_values(|v: Vec<u8>| v@) == p.public_inputs@.map_values(
                |v: Vec<u8>| v@,
            ).subrange(0, i as int),
        decreases p.public_inputs@.len() - i,
    {
        let ghost prev = inputs@;
        inputs.push(crate::util::copy_bytes(p.public_inputs[i].as_slice()));
        proof {
            assert(inputs@.map_values(|v: Vec<u8>| v@) =~= prev.map_values(|v: Vec<u8>| v@).push(
                p.public_inputs@[i as int]@,
            ));
            assert(p.public_inputs@.map_values(|v: Vec<u8>| v@).subrange(0, i + 1 as int)
                =~= p.public_inputs@.map_values(|v: Vec<u8>| v@).subrange(0, i as int).push(
                p.public_inputs@[i as int]@,
            ));
        }
        i = i + 1;
    }
    proof {
        assert(p.public_inputs@.map_values(|v: Vec<u8>| v@).subrange(
            0,
            p.public_inputs@.len() as int,
        ) =~= p.public_inputs@.map_values(|v: Vec<u8>| v@));
    }
    ZkProof {
        proof_data: crate::util::copy_bytes(p.proof_data.as_slice()),
        public_inputs: inputs,
        merkle_root: crate::util::copy_bytes(p.merkle_root.as_slice()),
        timestamp: p.timestamp,
    }
}

} // verus!
