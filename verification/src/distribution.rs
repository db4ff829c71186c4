//! Epidemic replication: the peer-selection policy that propagates a newly
//! admitted object toward its target replica count.
//!
//! The policy is a probabilistic flood: each peer is offered the object
//! independently with the configured probability, and the round stops once
//! enough replicas are in flight or every peer has been considered. The
//! random draws are made by the host and handed in; the selection itself is
//! deterministic in them.

use vstd::prelude::*;

use crate::storage_node::EpidemicProtocolConfig;

verus! {

/// One replication round's selection: walking the peers in order, a peer is
/// selected when its draw falls under the gossip probability, until
/// `remaining` selections have been made.
pub open spec fn gossip_spec(peers: Seq<Seq<u8>>, draws: Seq<u32>, ppm: u32, remaining: int)
    -> Seq<Seq<u8>>
    recommends
        draws.len() >= peers.len(),
    decreases peers.len(),
{
    if peers.len() == 0 || remaining <= 0 {
        Seq::empty()
    } else if draws[0] < ppm {
        seq![peers[0]] + gossip_spec(peers.drop_first(), draws.drop_first(), ppm, remaining - 1)
    } else {
        gossip_spec(peers.drop_first(), draws.drop_first(), ppm, remaining)
    }
}

/// The peer-selection policy for epidemic replication.
pub struct DistributionManager {
    /// The replication target and gossip probability this manager works to.
    pub config: EpidemicProtocolConfig,
}

impl DistributionManager {
    /// Creates a manager with the given replication configuration.
    pub fn new(config: EpidemicProtocolConfig) -> (r: Self)
        ensures
            r.config == config,
    {
        DistributionManager { config }
    }

    /// Selects the peers to gossip a newly admitted object to. `draws` holds
    /// one independent random draw per peer, uniform over parts per million;
    /// `confirmed_replicas` counts replicas already known to exist. A peer is
    /// offered the object when its draw falls under the configured
    /// probability, and the round stops once the redundancy target is
    /// reached.
    pub fn select_gossip_targets(
        &self,
        peers: &Vec<[u8; 32]>,
        draws: &Vec<u32>,
        confirmed_replicas: u32,
    ) -> (r: Vec<[u8; 32]>)
        requires
            draws@.len() >= peers@.len(),
        ensures
            r@.map_values(|p: [u8; 32]| p@) == gossip_spec(
                peers@.map_values(|p: [u8; 32]| p@),
                draws@,
                self.config.propagation_probability_ppm,
                self.config.redundancy_factor - confirmed_replicas,
            ),
    {
        let remaining: u32 = if confirmed_replicas < self.config.redundancy_factor {
            self.config.redundancy_factor - confirmed_replicas
        } else {
            0
        };
        let out = Self::select_from(
            peers,
            draws,
            0,
            self.config.propagation_probability_ppm,
            remaining,
        );
        proof {
            if confirmed_replicas >= self.config.redundancy_factor {
                assert(self.config.redundancy_factor - confirmed_replicas <= 0);
                assert(gossip_spec(
                    peers@.map_values(|p: [u8; 32]| p@).skip(0),
                    draws@.skip(0),
                    self.config.propagation_probability_ppm,
                    0,
                ) == gossip_spec(
                    peers@.map_values(|p: [u8; 32]| p@),
                    draws@,
                    self.config.propagation_probability_ppm,
                    self.config.redundancy_factor - confirmed_replicas,
                )) by {
                    assert(peers@.map_values(|p: [u8; 32]| p@).skip(0) =~= peers@.map_values(
                        |p: [u8; 32]| p@,
                    ));
                    assert(draws@.skip(0) =~= draws@);
                }
            } else {
                assert(peers@.map_values(|p: [u8; 32]| p@).skip(0) =~= peers@.map_values(
                    |p: [u8; 32]| p@,
                ));
                assert(draws@.skip(0) =~= draws@);
            }
        }
        out
    }

    /// Walks the peers from `start`, selecting while selections remain.
    fn select_from(
        peers: &Vec<[u8; 32]>,
        draws: &Vec<u32>,
        start: usize,
        ppm: u32,
        remaining: u32,
    ) -> (r: Vec<[u8; 32]>)
        requires
            draws@.len() >= peers@.len(),
            start <= peers@.len(),
        ensures
            r@.map_values(|p: [u8; 32]| p@) == gossip_spec(
                peers@.map_values(|p: [u8; 32]| p@).skip(start as int),
                draws@.skip(start as int),
                ppm,
                remaining as int,
            ),
        decreases peers@.len() - start,
    {
        let ghost pv = peers@.map_values(|p: [u8; 32]| p@);
        if start == peers.len() || remaining == 0 {
            let r: Vec<[u8; 32]> = Vec::new();
            proof {
                assert(r@.map_values(|p: [u8; 32]| p@) =~= Seq::<Seq<u8>>::empty());
                if start == peers@.len() {
                    assert(pv.skip(start as int).len() == 0);
                }
            }
            return r;
        }
        let selected = draws[start] < ppm;
        proof {
            assert(pv.skip(start as int)[0] == pv[start as int]);
            assert(draws@.skip(start as int)[0] == draws@[start as int]);
            assert(pv.skip(start as int).drop_first() =~= pv.skip(start + 1 as int));
            assert(draws@.skip(start as int).drop_first() =~= draws@.skip(start + 1 as int));
        }
        if selected {
            let rest = Self::select_from(peers, draws, start + 1, ppm, remaining - 1);
            let mut r: Vec<[u8; 32]> = Vec::new();
            r.push(peers[start]);
            let mut i: usize = 0;
            while i < rest.len()
                invariant
                    i <= rest@.len(),
                    r@.len() == 1 + i,
                    r@[0] == peers@[start as int],
                    forall|j: int| 0 <= j < i ==> r@[j + 1] == #[trigger] rest@[j],
                decreases rest@.len() - i,
            {
                r.push(rest[i]);
                i = i + 1;
            }
            proof {
                assert(r@.map_values(|p: [u8; 32]| p@) =~= seq![pv[start as int]]
                    + rest@.map_values(|p: [u8; 32]| p@));
            }
            r
        } else {
            Self::select_from(peers, draws, start + 1, ppm, remaining)
        }
    }
}

} // verus!
