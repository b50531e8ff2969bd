use std::collections::HashSet;

use snow_family::claro::{ClaroConfiguration, QueryConfiguration};
use snow_family::network_behaviour::RandomDrop;
use snow_family::node::{ComputeNode, Node};
use snow_family::query::{NodeId, NodeQuery, NodeWeight, NodesSample};
use snow_family::rng::SimRng;
use snow_family::runner::SimulationRunner;
use snow_family::settings::{
    ByzantineDistribution, ByzantineSettings, ConsensusSettings, InitialDistribution,
    SettingsError, SimulationSettings, SimulationStyle,
};
use snow_family::snowball::SnowballConfiguration;
use snow_family::vote::{Decision, NoTx, Opinion, Vote};
use snow_family::warding::{
    ConvergedWard, SimulationState, SimulationWard, StabilisedWard, TimeToFinalityWard, Ward,
};

const SEED: u64 = 18042022;

#[test]
fn full_drop_rate() {
    let mut rng = SimRng::seed_from_u64(SEED);
    let random_drop = RandomDrop::new(1_000_000);
    let mut votes: Vec<Option<Vote<NoTx>>> = (0..10).map(|_| Some(Vote::Yes(NoTx))).collect();
    random_drop.drop_votes(&mut votes, &mut rng);
    assert!(votes.iter().all(Option::is_none));
}

#[test]
fn none_drop_rate() {
    let mut rng = SimRng::seed_from_u64(SEED);
    let random_drop = RandomDrop::new(0);
    let mut votes: Vec<Option<Vote<NoTx>>> = (0..10).map(|_| Some(Vote::Yes(NoTx))).collect();
    random_drop.drop_votes(&mut votes, &mut rng);
    assert!(votes.iter().all(Option::is_some));
}

#[test]
fn half_drop_rate() {
    let mut rng = SimRng::seed_from_u64(SEED);
    let random_drop = RandomDrop::new(500_000);
    let mut votes: Vec<Option<Vote<NoTx>>> = (0..10).map(|_| Some(Vote::Yes(NoTx))).collect();
    random_drop.drop_votes(&mut votes, &mut rng);
    assert_eq!(votes.iter().filter(|vote| vote.is_some()).count(), 5);
}

#[test]
fn converge_full() {
    let decisions = vec![
        Decision::Decided(Opinion::Yes(NoTx)),
        Decision::Decided(Opinion::Yes(NoTx)),
    ];
    let ward = ConvergedWard::new(1_000_000);

    assert!(ward.converged(2, &decisions));
}

#[test]
fn converge_ratio() {
    let decisions = vec![
        Decision::Decided(Opinion::Yes(NoTx)),
        Decision::Decided(Opinion::Yes(NoTx)),
        Decision::Undecided(Opinion::Yes(NoTx)),
    ];
    let ward = ConvergedWard::new(500_000);

    assert!(ward.converged(2, &decisions));
}

#[test]
fn not_converge() {
    let decisions = vec![
        Decision::Decided(Opinion::Yes(NoTx)),
        Decision::Undecided(Opinion::Yes(NoTx)),
    ];
    let ward = ConvergedWard::new(1_000_000);

    assert!(!ward.converged(2, &decisions));
}

#[test]
fn check_rounds() {
    let mut ward = StabilisedWard::new_rounds(2);

    let mut simulation_state = SimulationState {
        network_state: vec![Some(Vote::Yes(NoTx))],
        decisions: vec![],
        iteration: 0,
        round: 0,
    };

    for i in 0..2 {
        simulation_state.round = i;
        assert!(!ward.analyze(&simulation_state));
    }

    simulation_state.round = 3;
    assert!(ward.analyze(&simulation_state));
}

#[test]
fn check_iterations() {
    let mut ward = StabilisedWard::new_iterations(2, 3);

    let mut simulation_state = SimulationState {
        network_state: vec![Some(Vote::Yes(NoTx))],
        decisions: vec![],
        iteration: 0,
        round: 0,
    };

    for i in 0..3 {
        simulation_state.iteration = i;
        assert!(!ward.analyze(&simulation_state));
    }

    simulation_state.iteration = 3;
    assert!(ward.analyze(&simulation_state));
}

#[test]
fn rebase_threshold() {
    let mut ttf = TimeToFinalityWard { ttf_threshold: 10 };
    let mut cond = false;
    let mut state = SimulationState {
        network_state: vec![],
        decisions: vec![],
        iteration: 0,
        round: 0,
    };
    for _ in 0..11 {
        state.round += 1;
        cond = ttf.analyze(&state);
    }
    assert!(cond);
}

struct TestSample {
    node_ids: Vec<NodeId>,
    node_weights: Vec<NodeWeight>,
}

impl TestSample {
    fn len(&self) -> usize {
        assert_eq!(self.node_weights.len(), self.node_ids.len());
        self.node_ids.len()
    }
}

impl NodesSample for TestSample {
    fn nodes(&self) -> Vec<NodeId> {
        self.node_ids.clone()
    }

    fn weights(&self) -> Vec<NodeWeight> {
        self.node_weights.clone()
    }
}

#[test]
fn unique_sample_set() {
    let query: NodeQuery = NodeQuery::new(10, "".to_string());
    let sample = TestSample {
        node_ids: (0..10).map(|i| i.to_string()).collect(),
        node_weights: (1..11u32).collect(),
    };

    let mut rng = SimRng::seed_from_u64(SEED);
    let ids: HashSet<_> = query.sample(&sample, &mut rng).into_iter().collect();
    assert_eq!(ids.len(), sample.len());
}

fn claro_zero_settings(style: SimulationStyle) -> SimulationSettings {
    SimulationSettings {
        simulation_style: style,
        consensus_settings: ConsensusSettings::Claro(ClaroConfiguration {
            evidence_alpha: 0,
            evidence_alpha_2: 0,
            confidence_beta: 0,
            look_ahead: 0,
            query: QueryConfiguration {
                query_size: 0,
                initial_query_size: 0,
                query_multiplier: 0,
                max_multiplier: 0,
            },
        }),
        distribution: InitialDistribution { yes: 500_000, no: 500_000, none: 0 },
        byzantine_settings: ByzantineSettings {
            total_size: 999,
            distribution: ByzantineDistribution {
                honest: 700_000,
                infantile: 100_000,
                random: 100_000,
                omniscient: 100_000,
            },
        },
        wards: vec![],
        network_modifiers: vec![],
        seed: None,
    }
}

#[test]
fn nodes_distribution_from_initial_settings() {
    let initial_settings = claro_zero_settings(SimulationStyle::Sync);
    let mut rng = SimRng::seed_from_u64(SEED);
    let (nodes, _, _) = SimulationRunner::nodes_from_initial_settings(&initial_settings, &mut rng);
    let honest_nodes: Vec<_> = nodes
        .iter()
        .filter(|node| matches!(node, Node::Claro(_)))
        .collect();

    assert_eq!(honest_nodes.len(), 699);

    let half_count = honest_nodes.len() / 2;

    let yes_count = honest_nodes
        .iter()
        .filter(|node| matches!(node.vote(), Some(Vote::Yes(_))))
        .count();

    assert_eq!(yes_count, half_count);

    let no_count = honest_nodes
        .iter()
        .filter(|node| matches!(node.vote(), Some(Vote::No(_))))
        .count();

    assert_eq!(no_count, half_count);

    let byzantine_rate_size = 100;

    let infantile_nodes_count = nodes
        .iter()
        .filter(|node| matches!(node, Node::Infantile(_)))
        .count();

    assert_eq!(infantile_nodes_count, byzantine_rate_size);

    let random_nodes_count = nodes
        .iter()
        .filter(|node| matches!(node, Node::Random(_)))
        .count();

    assert_eq!(random_nodes_count, byzantine_rate_size);

    let omniscient_nodes_count = nodes
        .iter()
        .filter(|node| matches!(node, Node::OmniscientPuppet(_)))
        .count();

    assert_eq!(omniscient_nodes_count, byzantine_rate_size);
}

#[test]
fn distribution_check_reports_sum() {
    let bad = InitialDistribution { yes: 500_000, no: 500_000, none: 1 };
    assert_eq!(
        bad.check_distribution(),
        Err(SettingsError::NotNormalized { sum: 1_000_001 })
    );
    let good = InitialDistribution { yes: 500_000, no: 500_000, none: 0 };
    assert_eq!(good.check_distribution(), Ok(()));

    let bad_byz = ByzantineDistribution { honest: 1, infantile: 0, random: 0, omniscient: 0 };
    assert_eq!(
        bad_byz.check_distribution(),
        Err(SettingsError::NotNormalized { sum: 1 })
    );
}

fn all_yes_snowball_settings(style: SimulationStyle, wards: Vec<Ward>) -> SimulationSettings {
    SimulationSettings {
        simulation_style: style,
        consensus_settings: ConsensusSettings::SnowBall(SnowballConfiguration {
            quorum_size: 1,
            sample_size: 2,
            decision_threshold: 1,
        }),
        distribution: InitialDistribution { yes: 1_000_000, no: 0, none: 0 },
        byzantine_settings: ByzantineSettings {
            total_size: 4,
            distribution: ByzantineDistribution {
                honest: 1_000_000,
                infantile: 0,
                random: 0,
                omniscient: 0,
            },
        },
        wards,
        network_modifiers: vec![],
        seed: Some(SEED),
    }
}

#[test]
fn sync_run_reaches_convergence() {
    let settings = all_yes_snowball_settings(
        SimulationStyle::Sync,
        vec![
            Ward::Converged(ConvergedWard::new(1_000_000)),
            Ward::Ttf(TimeToFinalityWard { ttf_threshold: 50 }),
        ],
    );
    let mut runner = SimulationRunner::new(settings);
    let mut out_data = Vec::new();
    runner.simulate(&mut out_data);

    assert_eq!(runner.network_state.len(), 4);
    assert_eq!(runner.nodes.len(), 4);
    assert_eq!(out_data.len() % 4, 0);
    assert!(runner
        .nodes
        .iter()
        .all(|node| matches!(node.decision(), Decision::Decided(_))));
    for (i, entry) in runner.network_state.iter().enumerate() {
        if entry.is_some() {
            assert_eq!(*entry, runner.nodes[i].vote());
        }
    }
}

#[test]
fn async_run_reaches_convergence() {
    let settings = all_yes_snowball_settings(
        SimulationStyle::Async { chunks: 2 },
        vec![
            Ward::Converged(ConvergedWard::new(1_000_000)),
            Ward::Ttf(TimeToFinalityWard { ttf_threshold: 50 }),
        ],
    );
    let mut runner = SimulationRunner::new(settings);
    let mut out_data = Vec::new();
    runner.simulate(&mut out_data);

    assert_eq!(runner.network_state.len(), 4);
    assert!(runner
        .nodes
        .iter()
        .all(|node| matches!(node.decision(), Decision::Decided(_))));
}

#[test]
fn glauber_run_terminates() {
    let settings = all_yes_snowball_settings(
        SimulationStyle::Glauber { maximum_iterations: 100, update_rate: 10 },
        vec![],
    );
    let mut runner = SimulationRunner::new(settings);
    let mut out_data = Vec::new();
    runner.simulate(&mut out_data);

    assert_eq!(runner.network_state.len(), 4);
    assert!(runner
        .nodes
        .iter()
        .all(|node| matches!(node.decision(), Decision::Decided(_))));
}

#[test]
fn layered_run_terminates() {
    let settings = all_yes_snowball_settings(
        SimulationStyle::Layered { rounds_gap: 2, distribution: None },
        vec![],
    );
    let mut runner = SimulationRunner::new(settings);
    let mut out_data = Vec::new();
    runner.simulate(&mut out_data);

    assert_eq!(runner.network_state.len(), 4);
    assert!(runner
        .nodes
        .iter()
        .all(|node| matches!(node.decision(), Decision::Decided(_))));
    assert!(!out_data.is_empty());
}

#[test]
fn omniscient_master_drives_puppets() {
    let mut settings = all_yes_snowball_settings(
        SimulationStyle::Sync,
        vec![Ward::Ttf(TimeToFinalityWard { ttf_threshold: 2 })],
    );
    settings.byzantine_settings.distribution = ByzantineDistribution {
        honest: 500_000,
        infantile: 0,
        random: 0,
        omniscient: 500_000,
    };
    let mut runner = SimulationRunner::new(settings);
    let mut out_data = Vec::new();
    runner.simulate(&mut out_data);

    assert_eq!(runner.network_state.len(), 4);
    // Every present entry of the vote vector matches its node's opinion,
    // puppet slots included.
    for (i, entry) in runner.network_state.iter().enumerate() {
        if entry.is_some() {
            assert_eq!(*entry, runner.nodes[i].vote());
        }
    }
    // The two puppets share the master's single choice.
    assert_eq!(runner.nodes[2].vote(), runner.nodes[3].vote());
}

#[test]
fn out_records_tag_node_types() {
    let settings = all_yes_snowball_settings(
        SimulationStyle::Sync,
        vec![Ward::Ttf(TimeToFinalityWard { ttf_threshold: 1 })],
    );
    let mut runner = SimulationRunner::new(settings);
    let mut out_data = Vec::new();
    runner.simulate(&mut out_data);

    assert!(!out_data.is_empty());
    for record in &out_data {
        assert_eq!(record.node_type, "snowball");
        assert!(record.vote <= 2);
    }
    assert_eq!(runner.nodes[0].type_as_string(), "snowball");
}
