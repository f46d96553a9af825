use strack_sim::topology::{Dumbell, FatTree, LeafSpine, MultiRailLeafSpine, Topology};

fn dumbell(hosts_per_side: u32) -> Topology {
    Dumbell {
        hosts_per_side,
        host_link_bps: 100_000_000_000,
        bottleneck_link_bps: 40_000_000_000,
        prop_delay_ns: 500,
        ecn_threshold_bytes: 50_000,
        buffer_bytes: 1_000_000,
    }
    .build()
}

fn leaf_spine(n_leaf: u32, n_spine: u32, hosts_per_leaf: u32) -> Topology {
    LeafSpine {
        n_leaf,
        n_spine,
        hosts_per_leaf,
        host_link_bps: 100_000_000_000,
        fabric_link_bps: 400_000_000_000,
        prop_delay_ns: 500,
        ecn_threshold_bytes: 50_000,
        buffer_bytes: 1_000_000,
    }
    .build()
}

fn fat_tree(k: u32) -> Topology {
    FatTree {
        k,
        host_link_bps: 100_000_000_000,
        fabric_link_bps: 100_000_000_000,
        prop_delay_ns: 500,
        ecn_threshold_bytes: 50_000,
        buffer_bytes: 1_000_000,
    }
    .build()
}

/// Follows the first route from every switch to every host and counts the hops.
fn longest_way(topo: &Topology) -> usize {
    let mut longest = 0;
    for sw in &topo.switches {
        for &h in &topo.hosts {
            let mut at = sw.id;
            let mut hops = 0;
            while at != h {
                let here = topo.switches.iter().find(|s| s.id == at).unwrap();
                let port = here.routing.ports_for(h).unwrap()[0];
                at = topo.links.get(here.port(port).link_id).to;
                hops += 1;
                assert!(hops < 10, "no way from {} to {}", sw.id, h);
            }
            longest = longest.max(hops);
        }
    }
    longest
}

#[test]
fn dumbell_2_per_side() {
    let topo = dumbell(2);
    assert_eq!(topo.num_hosts(), 4);
    assert_eq!(topo.num_switches(), 2);
    assert_eq!(topo.num_links(), 10);
    assert_eq!(topo.host_uplink.len(), 4);
}

#[test]
fn dumbell_routing_complete() {
    let topo = dumbell(3);
    for sw in &topo.switches {
        for h in 0..topo.num_hosts() as u32 {
            if sw.id == h {
                continue;
            }
            assert!(
                sw.routing.ports_for(h).is_some(),
                "switch {} has no route to host {}",
                sw.id,
                h
            );
        }
    }
    assert_eq!(longest_way(&topo), 2);
}

#[test]
fn fat_tree_k4_has_16_hosts() {
    let topo = fat_tree(4);
    assert_eq!(topo.num_hosts(), 16);
    assert_eq!(topo.num_switches(), 20);
    assert_eq!(topo.num_links(), 96);
}

#[test]
fn fat_tree_routing_complete() {
    let topo = fat_tree(4);
    for sw in &topo.switches {
        for h in 0..topo.num_hosts() as u32 {
            if sw.routing.ports_for(h).is_none() && sw.id != h {
                panic!("switch {} has no route to host {}", sw.id, h);
            }
        }
    }
    assert_eq!(longest_way(&topo), 5);
}

#[test]
fn leaf_spine_4x2_8hosts() {
    let topo = leaf_spine(4, 2, 2);
    assert_eq!(topo.num_hosts(), 8);
    assert_eq!(topo.num_switches(), 6);
    assert_eq!(topo.num_links(), 32);
}

#[test]
fn leaf_spine_routing_is_complete() {
    let topo = leaf_spine(2, 2, 2);
    for sw in &topo.switches {
        for h in 0..topo.num_hosts() as u32 {
            if sw.id == h {
                continue;
            }
            let ports = sw.routing.ports_for(h);
            assert!(ports.is_some(), "switch {} has no route to host {}", sw.id, h);
        }
    }
    let leaf0 = &topo.switches[0];
    let ports = leaf0.routing.ports_for(2).unwrap();
    assert_eq!(ports.len(), 2, "leaf 0 has two equal ways to host 2");
    assert_eq!(longest_way(&topo), 3);
}

#[test]
fn multi_rail_creates_nics_per_host() {
    let topo = MultiRailLeafSpine {
        n_leaf: 2,
        n_spine: 2,
        hosts_per_leaf: 2,
        nics_per_host: 2,
        host_link_bps: 100_000_000_000,
        fabric_link_bps: 100_000_000_000,
        prop_delay_ns: 500,
        ecn_threshold_bytes: 20_000,
        buffer_bytes: 200_000,
    }
    .build();
    assert_eq!(topo.hosts.len(), 8);
    assert_eq!(topo.host_uplink.len(), 8);
    let leaves = [topo.host_uplink[0].edge_switch, topo.host_uplink[4].edge_switch];
    assert_ne!(leaves[0], leaves[1]);
    for s in &topo.switches {
        for other in &topo.switches {
            let fabric = leaves.contains(&s.id) != leaves.contains(&other.id);
            assert_eq!(s.routing.ports_for(other.id).is_some(), fabric);
        }
    }
    assert_eq!(longest_way(&topo), 3);
}

#[test]
fn rails_are_kept_apart() {
    let topo = MultiRailLeafSpine {
        n_leaf: 2,
        n_spine: 5,
        hosts_per_leaf: 2,
        nics_per_host: 2,
        host_link_bps: 100_000_000_000,
        fabric_link_bps: 100_000_000_000,
        prop_delay_ns: 500,
        ecn_threshold_bytes: 20_000,
        buffer_bytes: 200_000,
    }
    .build();
    assert_eq!(longest_way(&topo), 3);
    let leaf = &topo.switches[0];
    let spines = |h: u32| -> Vec<u32> {
        let ports = leaf.routing.ports_for(h).unwrap();
        ports.iter().map(|&p| topo.links.get(leaf.port(p).link_id).to).collect()
    };
    assert_eq!(spines(4), vec![10, 11]);
    assert_eq!(spines(5), vec![12, 13, 14]);
    assert_eq!(spines(6), vec![10, 11]);
    assert_eq!(spines(1), vec![1]);
    assert_eq!(leaf.ports.len(), 5 + 2 * 4);
    assert_eq!(leaf.routing.ports_for(1).unwrap().to_vec(), vec![8]);
}

#[test]
fn connections_and_switches_are_found() {
    let topo = dumbell(2);
    let at = topo.find_uplink(3).unwrap();
    assert_eq!(topo.host_uplink[at].host, 3);
    assert_eq!(topo.host_uplink[at].edge_switch, 5);
    assert_eq!(topo.find_uplink(9), None);
    assert_eq!(topo.find_switch(5), Some(1));
    assert_eq!(topo.find_switch(3), None);
}
