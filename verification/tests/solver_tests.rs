use snow_family::claro::{ClaroConfiguration, ClaroSolver, QueryConfiguration};
use snow_family::query::{FixedQuery, NodeQuery, VoteQuery};
use snow_family::snowball::{SnowballConfiguration, SnowballSolver};
use snow_family::vote::{Decision, Opinion, Vote};

fn claro_test_config() -> ClaroConfiguration {
    ClaroConfiguration {
        evidence_alpha: 10_000,
        evidence_alpha_2: 10_000,
        confidence_beta: 10_000,
        look_ahead: 1,
        query: QueryConfiguration::new(10),
    }
}

fn test_all_votes(tx: bool, votes: &Vec<Vote<bool>>, expected: Decision<bool>) {
    let config = claro_test_config();
    let node_query = NodeQuery::new(config.query.query_size, "node_1".to_string());
    let mut solver = ClaroSolver::new(tx, config, node_query);

    assert_eq!(solver.decision(), Decision::Undecided(Opinion::Yes(tx)));
    solver.step(tx, votes);
    assert_eq!(solver.decision(), expected);
}

#[test]
fn all_approved() {
    let votes: Vec<Vote<bool>> = (0..10).map(|_| Vote::<bool>::Yes(true)).collect();
    test_all_votes(true, &votes, Decision::Decided(Opinion::Yes(true)));
}

#[test]
fn all_rejected() {
    let votes: Vec<Vote<bool>> = (0..10).map(|_| Vote::<bool>::No(true)).collect();
    test_all_votes(true, &votes, Decision::Decided(Opinion::No(true)));
}

#[derive(Clone, Copy, Eq, PartialEq, Debug)]
struct EmptyTx;

#[test]
fn loop_all_approved() {
    let vote = Vote::Yes(EmptyTx);
    let mut fixed_query = FixedQuery::new(vote);
    let config = claro_test_config();

    let node_query = NodeQuery::new(config.query.query_size, "node_1".to_string());
    let mut solver = ClaroSolver::new(EmptyTx, config, node_query);

    let query = fixed_query.query(&solver.node_query().clone(), EmptyTx);
    solver.step(EmptyTx, &query);
    assert_eq!(solver.vote(), Some(vote));
}

#[test]
fn test_change_opinion() {
    let configuration = SnowballConfiguration {
        quorum_size: 1,
        sample_size: 10,
        decision_threshold: 10,
    };

    let mut solver = SnowballSolver::with_initial_opinion(
        configuration,
        NodeQuery::new(0, "0".to_string()),
        Opinion::Yes(true),
    );

    let votes = vec![Vote::No(true); 10];
    solver.step(&votes);
    assert!(matches!(solver.decision(), Decision::Undecided(_)));
    assert_eq!(solver.consecutive_success(), 1);
    assert_eq!(solver.opinion(), Opinion::No(true));
}

#[test]
fn test_makes_decision() {
    let configuration = SnowballConfiguration {
        quorum_size: 1,
        sample_size: 10,
        decision_threshold: 10,
    };
    let beta = configuration.decision_threshold;

    let mut solver = SnowballSolver::with_initial_opinion(
        configuration,
        NodeQuery::new(0, "0".to_string()),
        Opinion::Yes(true),
    );

    let votes = vec![Vote::No(true); 10];
    for _ in 0..beta + 1 {
        solver.step(&votes);
    }

    assert_eq!(solver.decision(), Decision::Decided(Opinion::No(true)));
    assert_eq!(solver.consecutive_success(), beta as u64 + 1);
    assert_eq!(solver.opinion(), Opinion::No(true));
}

#[test]
fn test_reset_consecutive_counter() {
    let configuration = SnowballConfiguration {
        quorum_size: 2,
        sample_size: 10,
        decision_threshold: 10,
    };

    let mut solver = SnowballSolver::with_initial_opinion(
        configuration,
        NodeQuery::new(0, "0".to_string()),
        Opinion::Yes(true),
    );

    let votes = vec![Vote::No(true), Vote::Yes(true)];

    solver.step(&votes);

    assert_eq!(solver.consecutive_success(), 0);
    assert_eq!(solver.opinion(), Opinion::Yes(true));
    assert!(matches!(solver.decision(), Decision::Undecided(_)));
}

#[test]
fn snowball_converges_on_unanimous_agreement() {
    let configuration = SnowballConfiguration {
        quorum_size: 1,
        sample_size: 10,
        decision_threshold: 10,
    };

    let mut solver = SnowballSolver::with_initial_opinion(
        configuration,
        NodeQuery::new(0, "0".to_string()),
        Opinion::Yes(true),
    );

    let votes = vec![Vote::Yes(true); 10];
    for _ in 0..11 {
        solver.step(&votes);
    }

    assert_eq!(solver.decision(), Decision::Decided(Opinion::Yes(true)));
    assert_eq!(solver.consecutive_success(), 11);
}

#[test]
fn snowball_empty_sample_is_noop() {
    let configuration = SnowballConfiguration {
        quorum_size: 1,
        sample_size: 10,
        decision_threshold: 10,
    };

    let mut solver = SnowballSolver::with_initial_opinion(
        configuration,
        NodeQuery::new(0, "0".to_string()),
        Opinion::Yes(true),
    );

    let votes: Vec<Vote<bool>> = Vec::new();
    solver.step(&votes);
    assert_eq!(solver.consecutive_success(), 0);
    assert_eq!(solver.opinion(), Opinion::Yes(true));
    assert!(matches!(solver.decision(), Decision::Undecided(_)));
}

#[test]
fn claro_empty_sample_is_noop() {
    let config = claro_test_config();
    let node_query = NodeQuery::new(config.query.query_size, "node_1".to_string());
    let mut solver = ClaroSolver::new(true, config, node_query);

    let votes: Vec<Vote<bool>> = Vec::new();
    solver.step(true, &votes);

    assert_eq!(solver.decision(), Decision::Undecided(Opinion::Yes(true)));
    assert_eq!(solver.state().evidence(), 0);
    assert_eq!(solver.state().evidence_accumulated(), 0);
    assert_eq!(solver.state().confidence(), 0);
    assert_eq!(solver.node_query().query_size(), 10);
}

#[test]
fn claro_counters_accumulate() {
    let config = claro_test_config();
    let node_query = NodeQuery::new(config.query.query_size, "node_1".to_string());
    let mut solver = ClaroSolver::new(true, config, node_query);

    let votes = vec![Vote::Yes(true), Vote::No(true), Vote::Yes(true)];
    solver.step(true, &votes);

    assert_eq!(solver.state().evidence(), 2);
    assert_eq!(solver.state().evidence_accumulated(), 3);
    assert_eq!(solver.state().confidence(), 3);
}

#[test]
fn claro_inconclusive_round_grows_query() {
    // Half yes, half no, with alpha at one half: the mixed evidence lands
    // exactly on the threshold, which is inconclusive, so the query grows.
    let config = ClaroConfiguration {
        evidence_alpha: 500_000,
        evidence_alpha_2: 500_000,
        confidence_beta: 999_999,
        look_ahead: 1,
        query: QueryConfiguration::new(10),
    };
    let node_query = NodeQuery::new(config.query.query_size, "node_1".to_string());
    let mut solver = ClaroSolver::new(true, config, node_query);

    let votes = vec![Vote::Yes(true), Vote::No(true)];
    solver.step(true, &votes);

    assert!(matches!(solver.decision(), Decision::Undecided(_)));
    assert_eq!(solver.configuration.query.query_size, 20);
}

#[test]
fn query_growth_saturates() {
    let mut query = QueryConfiguration::new(10);
    query.grow();
    assert_eq!(query.query_size, 20);
    query.grow();
    assert_eq!(query.query_size, 40);
    query.grow();
    assert_eq!(query.query_size, 40);
    assert_eq!(query.initial_query_size, 10);
}

#[test]
fn claro_counters_are_monotone_across_steps() {
    let config = ClaroConfiguration {
        evidence_alpha: 500_000,
        evidence_alpha_2: 500_000,
        confidence_beta: 999_999,
        look_ahead: 100,
        query: QueryConfiguration::new(10),
    };
    let node_query = NodeQuery::new(config.query.query_size, "node_1".to_string());
    let mut solver = ClaroSolver::new(true, config, node_query);

    let mut last = (0u64, 0u64, 0u64);
    for round in 0..5 {
        let vote = if round % 2 == 0 { Vote::Yes(true) } else { Vote::No(true) };
        solver.step(true, &vec![vote, vote]);
        let now = (
            solver.state().evidence(),
            solver.state().evidence_accumulated(),
            solver.state().confidence(),
        );
        assert!(now.0 >= last.0 && now.1 >= last.1 && now.2 >= last.2);
        assert!(now.1 > last.1 && now.2 > last.2);
        last = now;
    }
}

#[test]
fn snowball_unformed_opinion_adopts_quorum_polarity() {
    let configuration = SnowballConfiguration {
        quorum_size: 2,
        sample_size: 10,
        decision_threshold: 10,
    };

    let mut solver = SnowballSolver::new(true, configuration, NodeQuery::new(0, "0".to_string()));
    assert_eq!(solver.opinion(), Opinion::NoneYet(true));

    solver.step(&vec![Vote::Yes(true), Vote::Yes(true), Vote::Yes(true)]);
    assert_eq!(solver.opinion(), Opinion::Yes(true));
    assert_eq!(solver.consecutive_success(), 1);
    assert!(matches!(solver.decision(), Decision::Undecided(_)));

    let mut other = SnowballSolver::new(true, configuration, NodeQuery::new(0, "0".to_string()));
    other.step(&vec![Vote::No(true), Vote::No(true)]);
    assert_eq!(other.opinion(), Opinion::No(true));
    assert_eq!(other.consecutive_success(), 1);
}

#[test]
fn snowball_unformed_opinion_keeps_none_on_mixed_sample() {
    let configuration = SnowballConfiguration {
        quorum_size: 2,
        sample_size: 10,
        decision_threshold: 10,
    };

    let mut solver = SnowballSolver::new(true, configuration, NodeQuery::new(0, "0".to_string()));
    // The sample reaches quorum jointly but neither polarity alone does.
    solver.step(&vec![Vote::Yes(true), Vote::No(true)]);
    assert_eq!(solver.opinion(), Opinion::NoneYet(true));
    assert_eq!(solver.consecutive_success(), 0);
    assert_eq!(solver.vote(), None);
}
