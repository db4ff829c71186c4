use overpass::distribution::DistributionManager;
use overpass::storage_node::EpidemicProtocolConfig;

#[test]
fn gossip_selects_peers_under_probability() {
    let manager = DistributionManager::new(EpidemicProtocolConfig {
        redundancy_factor: 5,
        propagation_probability_ppm: 600000,
    });
    let peers = vec![[1u8; 32], [2u8; 32], [3u8; 32]];
    let draws = vec![0u32, 999999, 500000];
    let selected = manager.select_gossip_targets(&peers, &draws, 0);
    assert_eq!(selected, vec![[1u8; 32], [3u8; 32]]);
}

#[test]
fn gossip_stops_at_redundancy_target() {
    let manager = DistributionManager::new(EpidemicProtocolConfig {
        redundancy_factor: 3,
        propagation_probability_ppm: 1000000,
    });
    let peers = vec![[1u8; 32], [2u8; 32], [3u8; 32], [4u8; 32]];
    let draws = vec![0u32, 0, 0, 0];
    // two replicas are already confirmed: only one more peer is offered
    let selected = manager.select_gossip_targets(&peers, &draws, 2);
    assert_eq!(selected, vec![[1u8; 32]]);
    // the target already met: nobody is offered
    let none = manager.select_gossip_targets(&peers, &draws, 3);
    assert!(none.is_empty());
}
