use rand::{Rng, SeedableRng};
use rand_pcg::Pcg64;
use std::collections::HashSet;
use strack_sim::traffic::permute::{
    check_fixed_point, draw_permutation, shuffle, without_fixed_point,
};
use strack_sim::traffic::synthetic::assemble;
use strack_sim::traffic::{
    AllToAll, ArrivalProcess, FlowDesc, FlowSizeDist, Incast, Mix, PairPattern, Permutation,
    PermuteKind, RingAllReduce, SeededRng, Synthetic,
};

fn permutation(nodes: Vec<u32>, kind: PermuteKind, seed: u64) -> Vec<FlowDesc> {
    Permutation { nodes, bytes_per_flow: 100, start_time_ns: 0, kind, seed }.generate()
}

fn synthetic(
    nodes: Vec<u32>,
    pair_pattern: PairPattern,
    flow_size: FlowSizeDist,
    arrival: ArrivalProcess,
    seed: u64,
) -> Synthetic {
    Synthetic { nodes, pair_pattern, flow_size, arrival, seed }
}

#[test]
fn permute_shift_basic() {
    let p = Permutation {
        nodes: vec![10, 20, 30, 40],
        bytes_per_flow: 1024,
        start_time_ns: 1000,
        kind: PermuteKind::Shift(1),
        seed: 0,
    };
    let flows = p.generate();
    assert_eq!(flows.len(), 4);
    assert_eq!(flows[0].dst, 20);
    assert_eq!(flows[1].dst, 30);
    assert_eq!(flows[2].dst, 40);
    assert_eq!(flows[3].dst, 10);
}

#[test]
fn permute_random_no_fixed_point() {
    let flows = permutation(vec![0, 1, 2, 3, 4, 5, 6, 7], PermuteKind::Random, 42);
    assert_eq!(flows.len(), 8);
    for f in &flows {
        assert_ne!(f.src, f.dst);
    }
    let dsts: HashSet<_> = flows.iter().map(|f| f.dst).collect();
    assert_eq!(dsts.len(), 8);
}

#[test]
fn permute_bit_reversal_power_of_two() {
    let flows = permutation(vec![0, 1, 2, 3, 4, 5, 6, 7], PermuteKind::BitReversal, 0);
    assert_eq!(flows.len(), 8);
    for f in &flows {
        assert_ne!(f.src, f.dst);
    }
    let dsts: Vec<u32> = flows.iter().map(|f| f.dst).collect();
    assert_eq!(dsts, vec![4, 2, 6, 1, 5, 3, 7, 0]);
}

#[test]
fn no_bit_reversal_of_a_power_of_two_sends_to_itself() {
    let four = permutation(vec![0, 1, 2, 3], PermuteKind::BitReversal, 0);
    let dsts: Vec<u32> = four.iter().map(|f| f.dst).collect();
    assert_eq!(dsts, vec![1, 2, 3, 0]);
    for n in [2, 4, 8, 16, 32, 64] {
        let flows = permutation((0..n).collect(), PermuteKind::BitReversal, 0);
        let mut received = vec![0; n as usize];
        for f in &flows {
            assert_ne!(f.src, f.dst);
            received[f.dst as usize] += 1;
        }
        assert_eq!(received, vec![1; n as usize]);
    }
}

#[test]
fn bit_reversal_of_other_sizes_stays_in_range() {
    let flows = permutation(vec![0, 1, 2, 3, 4], PermuteKind::BitReversal, 0);
    let dsts: Vec<u32> = flows.iter().map(|f| f.dst).collect();
    assert_eq!(dsts, vec![4, 2, 4, 1, 0]);
}

#[test]
fn too_few_nodes_give_no_permutation() {
    assert!(permutation(vec![], PermuteKind::Random, 1).is_empty());
    assert!(permutation(vec![3], PermuteKind::Shift(1), 1).is_empty());
}

#[test]
fn a_shift_by_whole_rounds_keeps_every_node() {
    let flows = permutation(vec![5, 6, 7], PermuteKind::Shift(6), 0);
    assert_eq!(flows.iter().map(|f| f.dst).collect::<Vec<_>>(), vec![5, 6, 7]);
}

#[test]
fn a_shuffle_exchanges_from_the_end() {
    let mut p = vec![0, 1, 2, 3];
    shuffle(&mut p, &vec![0, 2, 0]);
    assert_eq!(p, vec![1, 3, 2, 0]);
    assert!(check_fixed_point(&p));
    let mut q = vec![0, 1, 2];
    shuffle(&mut q, &vec![0, 0]);
    assert_eq!(q, vec![1, 2, 0]);
    assert!(!check_fixed_point(&q));
}

/// The permutation that the generator of `rand_pcg` draws.
fn expected_permutation(n: usize, seed: u64) -> Vec<u32> {
    let mut rng = Pcg64::seed_from_u64(seed);
    let mut perm: Vec<usize> = (0..n).collect();
    loop {
        for i in (1..n).rev() {
            let j = rng.gen_range(0..=i);
            perm.swap(i, j);
        }
        if !perm.iter().enumerate().any(|(i, &p)| i == p) {
            return perm.iter().map(|&p| p as u32).collect();
        }
    }
}

#[test]
fn random_permutations_are_those_of_the_generator() {
    for seed in 0..20u64 {
        let flows = permutation((0..9).collect(), PermuteKind::Random, seed);
        let dsts: Vec<u32> = flows.iter().map(|f| f.dst).collect();
        assert_eq!(dsts, expected_permutation(9, seed));
    }
}

#[test]
fn without_a_shuffle_the_permutation_is_a_shift() {
    let mut rng = SeededRng::new(1);
    assert_eq!(draw_permutation(&mut rng, 4, 0), vec![1, 2, 3, 0]);
    assert_eq!(without_fixed_point(vec![1, 0, 3, 2]), vec![1, 0, 3, 2]);
    assert_eq!(without_fixed_point(vec![0, 2, 3, 1]), vec![2, 3, 1, 0]);
    assert_eq!(without_fixed_point(vec![0, 2, 1, 3]), vec![1, 2, 3, 0]);
}

#[test]
fn random_sizes_are_those_of_the_generator() {
    let dist = FlowSizeDist::Uniform { min: 1000, max: 5_000_000 };
    let mut rng = SeededRng::new(7);
    let mut expected = Pcg64::seed_from_u64(7);
    for _ in 0..50 {
        assert_eq!(dist.sample(&mut rng), expected.gen_range(1000u64..=5_000_000));
    }
    let mut rest = rng.into_inner();
    assert_eq!(rest.gen::<u64>(), expected.gen::<u64>());
}

#[test]
fn a_range_of_one_size_draws_nothing() {
    let mut rng = SeededRng::new(7);
    assert_eq!(FlowSizeDist::Uniform { min: 9, max: 9 }.sample(&mut rng), 9);
    assert_eq!(FlowSizeDist::Uniform { min: 9, max: 3 }.sample(&mut rng), 9);
    assert_eq!(FlowSizeDist::Fixed(11).sample(&mut rng), 11);
    assert_eq!(rng.into_inner().gen::<u64>(), Pcg64::seed_from_u64(7).gen::<u64>());
}

#[test]
fn random_pairs_are_those_of_the_generator() {
    let nodes: Vec<u32> = vec![10, 11, 12, 13];
    let mut rng = SeededRng::new(77);
    let pairs = PairPattern::RandomPairs(25).generate(&nodes, &mut rng);
    let mut expected = Pcg64::seed_from_u64(77);
    for (src, dst) in pairs {
        assert_eq!(src, nodes[expected.gen_range(0u32..4) as usize]);
        let mut want = nodes[expected.gen_range(0u32..4) as usize];
        while want == src {
            want = nodes[expected.gen_range(0u32..4) as usize];
        }
        assert_eq!(dst, want);
    }
}

#[test]
fn synthetic_fixed_simultaneous() {
    let flows = synthetic(
        vec![0, 1],
        PairPattern::AllToAll,
        FlowSizeDist::Fixed(1024),
        ArrivalProcess::Simultaneous(1000),
        42,
    )
    .generate();
    assert_eq!(flows.len(), 2);
    for f in &flows {
        assert_eq!(f.bytes, 1024);
        assert_eq!(f.start_time_ns, 1000);
    }
}

#[test]
fn synthetic_poisson_increasing_time() {
    let gen = synthetic(
        vec![0, 1, 2],
        PairPattern::AllToAll,
        FlowSizeDist::Fixed(100),
        ArrivalProcess::Poisson { start: 1000, mean_interval_ns: 500 },
        42,
    );
    let (pairs, sizes, rng) = gen.draw();
    let mut rng = rng.into_inner();
    let mut gaps: Vec<u64> = Vec::new();
    for _ in 0..pairs.len() {
        let u: f64 = rng.gen_range(0.0001..1.0);
        gaps.push((-u.ln() * 500.0) as u64);
    }
    let times = gen.arrival.sample(pairs.len(), &gaps);
    let flows = assemble(&pairs, &sizes, &times);
    assert_eq!(flows.len(), 6);
    for i in 1..flows.len() {
        assert!(flows[i].start_time_ns >= flows[i - 1].start_time_ns);
    }
    assert_eq!(flows[0].start_time_ns, 1000);
}

#[test]
fn gaps_are_at_least_a_nanosecond() {
    let a = ArrivalProcess::Poisson { start: 10, mean_interval_ns: 1 };
    assert_eq!(a.sample(4, &vec![5, 0, 7]), vec![10, 15, 16, 23]);
    let late = ArrivalProcess::Poisson { start: u64::MAX - 1, mean_interval_ns: 1 };
    assert_eq!(late.sample(2, &vec![9]), vec![u64::MAX - 1, u64::MAX]);
}

#[test]
fn synthetic_permutation_no_fixed_point() {
    let flows = synthetic(
        vec![0, 1, 2, 3],
        PairPattern::Permutation,
        FlowSizeDist::Fixed(100),
        ArrivalProcess::Simultaneous(0),
        99,
    )
    .generate();
    assert_eq!(flows.len(), 4);
    for f in &flows {
        assert_ne!(f.src, f.dst);
    }
    let srcs: HashSet<_> = flows.iter().map(|f| f.src).collect();
    let dsts: HashSet<_> = flows.iter().map(|f| f.dst).collect();
    assert_eq!(srcs.len(), 4);
    assert_eq!(dsts.len(), 4);
}

#[test]
fn synthetic_random_pairs_count() {
    let flows = synthetic(
        vec![0, 1, 2, 3],
        PairPattern::RandomPairs(10),
        FlowSizeDist::Fixed(100),
        ArrivalProcess::Simultaneous(0),
        77,
    )
    .generate();
    assert_eq!(flows.len(), 10);
    for f in &flows {
        assert_ne!(f.src, f.dst);
    }
}

#[test]
fn given_pairs_start_at_intervals() {
    let flows = synthetic(
        vec![],
        PairPattern::Custom(vec![(1, 2), (2, 1), (4, 4)]),
        FlowSizeDist::Fixed(7),
        ArrivalProcess::FixedInterval { start: 50, interval_ns: 10 },
        0,
    )
    .generate();
    let got: Vec<_> = flows.iter().map(|f| (f.flow_id, f.src, f.dst, f.start_time_ns)).collect();
    assert_eq!(got, vec![(0, 1, 2, 50), (1, 2, 1, 60), (2, 4, 4, 70)]);
}

#[test]
fn mix_combines_and_renumbers() {
    let c1 = vec![
        FlowDesc { flow_id: 0, src: 0, dst: 1, bytes: 100, start_time_ns: 0 },
        FlowDesc { flow_id: 1, src: 0, dst: 2, bytes: 100, start_time_ns: 0 },
    ];
    let c2 = vec![FlowDesc { flow_id: 0, src: 1, dst: 0, bytes: 1000, start_time_ns: 100 }];
    let mix = Mix::new().add(c1, 1.0f64.to_bits()).add(c2, 2.0f64.to_bits());
    let flows = mix.generate();
    assert_eq!(flows.len(), 3);
    assert_eq!(flows[0].flow_id, 0);
    assert_eq!(flows[1].flow_id, 1);
    assert_eq!(flows[2].flow_id, 2);
    assert_eq!(flows[0].bytes, 1000);
}

#[test]
fn lists_of_equal_weight_keep_their_order() {
    let flow = |bytes: u64| FlowDesc { flow_id: 0, src: 0, dst: 1, bytes, start_time_ns: 0 };
    let mix = Mix::default()
        .add(vec![flow(1)], 5)
        .add(vec![flow(2)], 9)
        .add(vec![flow(3), flow(4)], 5)
        .add(vec![], 7);
    let bytes: Vec<u64> = mix.generate().iter().map(|f| f.bytes).collect();
    assert_eq!(bytes, vec![2, 1, 3, 4]);
}

#[test]
fn incast_numbers_flows_from_one() {
    let flows =
        Incast { senders: vec![4, 5, 6], receiver: 0, bytes_per_sender: 9, start_time_ns: 3 }
            .generate();
    let got: Vec<_> = flows.iter().map(|f| (f.flow_id, f.src, f.dst)).collect();
    assert_eq!(got, vec![(1, 4, 0), (2, 5, 0), (3, 6, 0)]);
    assert!(flows.iter().all(|f| f.bytes == 9 && f.start_time_ns == 3));
}

#[test]
fn ring_sends_to_the_next_node_in_every_step() {
    let flows =
        RingAllReduce { nodes: vec![7, 8, 9], message_bytes: 100, start_time_ns: 5 }.generate();
    assert_eq!(flows.len(), 12);
    let first: Vec<_> = flows[..3].iter().map(|f| (f.src, f.dst, f.start_time_ns)).collect();
    assert_eq!(first, vec![(7, 8, 5), (8, 9, 5), (9, 7, 5)]);
    assert_eq!(flows[11].start_time_ns, 3005);
    assert!(flows.iter().enumerate().all(|(i, f)| f.flow_id == i as u32 && f.bytes == 33));
    assert!(RingAllReduce { nodes: vec![7], message_bytes: 1, start_time_ns: 0 }
        .generate()
        .is_empty());
}

#[test]
fn all_to_all_pairs_every_node_with_every_other() {
    let flows =
        AllToAll { nodes: vec![3, 1, 2], bytes_per_pair: 8, start_time_ns: 0 }.generate();
    let got: Vec<_> = flows.iter().map(|f| (f.flow_id, f.src, f.dst)).collect();
    assert_eq!(got, vec![(0, 3, 1), (1, 3, 2), (2, 1, 3), (3, 1, 2), (4, 2, 3), (5, 2, 1)]);
}
