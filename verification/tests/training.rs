use strack_sim::training::{
    apply_overlap, build_dag, ChunkConfig, CollectiveAlgorithm, CollectiveKind, CollectiveOp,
    Iteration, TrainingJob, TrainingMetrics, TrainingPhase,
};

fn all_reduce(
    algorithm: CollectiveAlgorithm,
    nodes: Vec<u32>,
    message_bytes: u64,
    chunk_config: ChunkConfig,
) -> CollectiveOp {
    CollectiveOp {
        kind: CollectiveKind::AllReduce,
        algorithm,
        nodes,
        message_bytes,
        chunk_config,
    }
}

fn chunked(chunk_size_bytes: u64, num_channels: u32, pipeline_depth: u32) -> ChunkConfig {
    ChunkConfig { chunk_size_bytes, num_channels, pipeline_depth }
}

#[test]
fn ring_allreduce_flow_count() {
    let op = all_reduce(
        CollectiveAlgorithm::Ring,
        vec![0, 1, 2, 3],
        1024 * 1024,
        ChunkConfig::default(),
    );
    let flows = op.generate(0, 0);
    let n = 4;
    let expected = 2 * (n - 1) * n;
    assert_eq!(flows.len(), expected);
}

#[test]
fn reduce_scatter_all_gather_flow_count() {
    let op = all_reduce(
        CollectiveAlgorithm::ReduceScatterThenAllGather,
        vec![0, 1, 2, 3],
        1024 * 1024,
        ChunkConfig::default(),
    );
    let flows = op.generate(0, 0);
    let n = 4;
    let expected = 2 * (n - 1) * n;
    assert_eq!(flows.len(), expected);
}

#[test]
fn tree_flow_count_for_power_of_two() {
    let op = all_reduce(
        CollectiveAlgorithm::Tree,
        vec![0, 1, 2, 3],
        1024 * 1024,
        ChunkConfig::default(),
    );
    let flows = op.generate(0, 0);
    let n = 4;
    assert_eq!(flows.len(), 2 * (n - 1));
}

#[test]
fn tree_goes_to_the_root_and_back() {
    let op = all_reduce(CollectiveAlgorithm::Tree, vec![5, 6, 7, 8], 400, ChunkConfig::default());
    let (flows, end) = op.generate_with_end(100, 10);
    let got: Vec<_> = flows.iter().map(|f| (f.flow_id, f.src, f.dst, f.start_time_ns)).collect();
    assert_eq!(
        got,
        vec![
            (10, 6, 5, 100),
            (11, 8, 7, 100),
            (12, 7, 5, 1100),
            (13, 5, 7, 2100),
            (14, 5, 6, 3100),
            (15, 7, 8, 3100),
        ]
    );
    assert!(flows.iter().all(|f| f.bytes == 100));
    assert_eq!(end, 4100);
}

#[test]
fn tree_of_other_sizes_wraps_around() {
    let op = all_reduce(CollectiveAlgorithm::Tree, vec![0, 1, 2], 3, ChunkConfig::default());
    let got: Vec<_> = op.generate(0, 0).iter().map(|f| (f.src, f.dst)).collect();
    assert_eq!(got, vec![(1, 0), (0, 2), (2, 0), (0, 1), (2, 0)]);
}

fn one_op_job(name: &str, compute_delay_ns: u64) -> TrainingJob {
    TrainingJob {
        name: name.to_string(),
        nodes: vec![0, 1, 2, 3],
        iterations: vec![Iteration {
            iter_id: 0,
            compute_delay_ns,
            collectives: vec![all_reduce(
                CollectiveAlgorithm::Ring,
                vec![0, 1, 2, 3],
                1024 * 1024,
                ChunkConfig::default(),
            )],
        }],
    }
}

#[test]
fn training_job_generates_flows() {
    let job = one_op_job("test_job", 0);
    let (flows, boundaries, collectives_per_iteration) = job.generate();
    assert!(!flows.is_empty());
    assert_eq!(boundaries.len(), 1);
    assert_eq!(boundaries[0].0, 0);
    assert_eq!(boundaries[0].1, flows.len() as u32);
    assert_eq!(collectives_per_iteration, vec![1]);
}

#[test]
fn chunk_size_respected() {
    let op = all_reduce(CollectiveAlgorithm::Ring, vec![0, 1, 2], 12 * 1024, chunked(4096, 1, 1));
    let flows = op.generate(0, 0);
    assert!(flows.iter().all(|f| f.bytes == 4096));
}

#[test]
fn explicit_chunking_increases_flow_count() {
    let op =
        all_reduce(CollectiveAlgorithm::Ring, vec![0, 1, 2, 3], 16 * 1024, chunked(1024, 1, 1));
    let flows = op.generate(0, 0);
    let n = 4;
    let steps = 2 * (n - 1);
    let chunks_per_edge = 4;
    assert_eq!(flows.len(), steps * n * chunks_per_edge);
}

#[test]
fn chunks_cover_the_payload() {
    let op = all_reduce(CollectiveAlgorithm::Ring, vec![0, 1], 2000, chunked(300, 1, 1));
    let flows = op.generate(0, 0);
    let of_node: Vec<u64> = flows.iter().filter(|f| f.src == 0).map(|f| f.bytes).collect();
    assert_eq!(of_node, vec![300, 300, 300, 100, 300, 300, 300, 100]);
}

#[test]
fn channels_overlap_chunks_in_same_wave() {
    let op =
        all_reduce(CollectiveAlgorithm::Ring, vec![0, 1, 2, 3], 16 * 1024, chunked(1024, 2, 1));
    let flows = op.generate(10_000, 0);
    let starts: Vec<u64> = flows.iter().take(8).map(|f| f.start_time_ns).collect();
    assert_eq!(starts, vec![10_000; 8]);
    assert_eq!(flows[8].start_time_ns, 11_000);
}

#[test]
fn pipeline_depth_shortens_planned_duration() {
    let base =
        all_reduce(CollectiveAlgorithm::Ring, vec![0, 1, 2, 3], 16 * 1024, chunked(1024, 1, 1));
    let mut pipelined = base.clone();
    pipelined.chunk_config.pipeline_depth = 2;

    let (_, end_base) = base.generate_with_end(0, 0);
    let (_, end_pipelined) = pipelined.generate_with_end(0, 0);
    assert!(end_pipelined < end_base);
    assert_eq!(end_base, 18_000);
    assert_eq!(end_pipelined, 6_000);
}

#[test]
fn compute_delay_moves_iteration_start() {
    let job = one_op_job("test_delay", 50_000);
    let plan = job.plan();
    assert_eq!(plan.collectives[0].planned_start_ns, 50_000);
    assert!(plan.flows.iter().all(|f| f.start_time_ns >= 50_000));
}

#[test]
fn collectives_follow_each_other() {
    let mut job = one_op_job("serial", 10);
    let second = job.iterations[0].collectives[0].duplicate();
    job.iterations[0].collectives.push(second);
    job.iterations.push(Iteration { iter_id: 7, compute_delay_ns: 5, collectives: vec![] });
    let third = job.iterations[0].collectives[0].duplicate();
    job.iterations.push(Iteration { iter_id: 8, compute_delay_ns: 5, collectives: vec![third] });
    let plan = job.plan();
    assert_eq!(plan.collectives_per_iteration, vec![2, 0, 1]);
    let spans: Vec<_> = plan
        .collectives
        .iter()
        .map(|c| (c.iter_id, c.flow_range, c.planned_start_ns, c.planned_end_ns))
        .collect();
    assert_eq!(
        spans,
        vec![
            (0, (0, 24), 10, 6010),
            (0, (24, 48), 6010, 12_010),
            (8, (48, 72), 12_020, 18_020),
        ]
    );
    assert!(plan.flows.iter().enumerate().all(|(i, f)| f.flow_id == i as u32));
}

#[test]
fn one_node_has_nothing_to_do() {
    let op = all_reduce(CollectiveAlgorithm::Tree, vec![3], 10, ChunkConfig::default());
    let (flows, end) = op.generate_with_end(77, 0);
    assert!(flows.is_empty());
    assert_eq!(end, 77);
}

#[test]
fn tasks_depend_on_the_one_before() {
    let job = one_op_job("dag", 0);
    let dag = build_dag(&job.iterations[0], 1001, Some(300));
    assert_eq!(dag.nodes.len(), 3);
    assert_eq!(dag.comm_offset_ns, 300);
    assert_eq!(dag.nodes[0].phase, TrainingPhase::Forward);
    assert_eq!(dag.nodes[1].phase, TrainingPhase::Backward);
    assert_eq!(dag.nodes[2].phase, TrainingPhase::AllReduce);
    assert!(dag.nodes[0].depends_on.is_empty());
    assert_eq!(dag.nodes[1].depends_on, vec![0]);
    assert_eq!(dag.nodes[2].depends_on, vec![1]);
    assert_eq!(dag.nodes[0].duration_ns, 500);
    assert!(dag.nodes[0].overlap_next && dag.nodes[1].overlap_next);
    assert!(!dag.nodes[2].overlap_next);
    assert_eq!(dag.nodes[2].collective.as_ref().unwrap().nodes, vec![0, 1, 2, 3]);
    assert!(!build_dag(&job.iterations[0], 1001, None).nodes[0].overlap_next);
}

#[test]
fn overlap_moves_flows_forward() {
    let mut flows = [(1000u64, 1u64), (100, 2)];
    apply_overlap(&mut flows, 500, Some(300));
    assert_eq!(flows, [(700, 1), (0, 2)]);
    apply_overlap(&mut flows, 0, Some(300));
    apply_overlap(&mut flows, 500, None);
    assert_eq!(flows, [(700, 1), (0, 2)]);
}

#[test]
fn metrics_start_empty() {
    let m = TrainingMetrics::default();
    assert!(m.job_name.is_empty() && m.collective_labels.is_empty());
    assert_eq!((m.total_iterations, m.completed_iterations), (0, 0));
}
