use snow_family::node::{
    ComputeNode, InfantileNode, MasterOmniscientNode, Node, OmniscientPuppetNode, RandomNode,
};
use snow_family::query::NodeQuery;
use snow_family::rng::SimRng;
use snow_family::snowball::{SnowballConfiguration, SnowballSolver};
use snow_family::vote::{Decision, NoTx, Opinion, Vote};

#[test]
fn random_node_takes_an_opinion() {
    let mut node = RandomNode::new(7);
    assert!(node.vote().is_none());
    node.step();
    assert!(matches!(node.decision(), Decision::Undecided(_)));
    let opinion = node.opinion();
    assert!(opinion == Opinion::Yes(NoTx) || opinion == Opinion::No(NoTx));
    assert!(node.vote().is_some());
    assert_eq!(node.id(), 7);
}

#[test]
fn infantile_node_opposes_the_majority() {
    let mut rng = SimRng::seed_from_u64(7);
    let mut node = InfantileNode::new(0, 3, rng.fork());
    let network_state: Vec<Option<Vote<NoTx>>> = vec![
        Some(Vote::Yes(NoTx)),
        Some(Vote::Yes(NoTx)),
        Some(Vote::Yes(NoTx)),
        Some(Vote::Yes(NoTx)),
    ];
    node.step(&network_state);
    // Every sampled vote is Yes, so the contrarian answers No.
    assert_eq!(node.opinion(), Opinion::No(NoTx));
    assert!(matches!(node.decision(), Decision::Undecided(_)));
}

#[test]
fn master_picks_the_minority_and_writes_puppet_slots() {
    let mut master = MasterOmniscientNode::new(usize::MAX, vec![0, 1, 2], vec![3, 4]);
    let mut network_state: Vec<Option<Vote<NoTx>>> = vec![
        Some(Vote::Yes(NoTx)),
        Some(Vote::Yes(NoTx)),
        Some(Vote::No(NoTx)),
        None,
        None,
    ];
    master.analyze_and_write_votes(&mut network_state);
    // Two honest Yes against one No: the adversary joins the minority.
    assert_eq!(master.decision(), Decision::Undecided(Opinion::No(NoTx)));
    assert_eq!(network_state[3], Some(Vote::No(NoTx)));
    assert_eq!(network_state[4], Some(Vote::No(NoTx)));
    // Honest slots are untouched.
    assert_eq!(network_state[0], Some(Vote::Yes(NoTx)));

    let puppet: OmniscientPuppetNode = master.puppet_node(3);
    assert_eq!(puppet.decision(), Decision::Undecided(Opinion::No(NoTx)));
    let node = Node::new_omniscient_puppet(puppet);
    assert_eq!(node.vote(), Some(Vote::No(NoTx)));
    assert_eq!(node.type_as_string(), "omniscient");
}

#[test]
fn master_breaks_ties_toward_yes() {
    let mut master = MasterOmniscientNode::new(usize::MAX, vec![0, 1], vec![2]);
    let mut network_state: Vec<Option<Vote<NoTx>>> = vec![
        Some(Vote::Yes(NoTx)),
        Some(Vote::No(NoTx)),
        None,
    ];
    master.analyze_and_write_votes(&mut network_state);
    assert_eq!(master.decision(), Decision::Undecided(Opinion::Yes(NoTx)));
    assert_eq!(network_state[2], Some(Vote::Yes(NoTx)));
}

#[test]
fn decided_node_never_changes_its_decision() {
    let configuration = SnowballConfiguration {
        quorum_size: 1,
        sample_size: 2,
        decision_threshold: 0,
    };
    let mut solver = SnowballSolver::with_initial_opinion(
        configuration,
        NodeQuery::new(2, "0".to_string()),
        Opinion::Yes(NoTx),
    );
    // One unanimous round pushes the streak past the threshold of zero.
    solver.step(&vec![Vote::Yes(NoTx)]);
    assert!(matches!(solver.decision(), Decision::Decided(_)));

    let mut rng = SimRng::seed_from_u64(3);
    let mut node = Node::new_snowball(0, solver, rng.fork());
    let network_state: Vec<Option<Vote<NoTx>>> =
        vec![Some(Vote::No(NoTx)), Some(Vote::No(NoTx)), Some(Vote::No(NoTx))];
    let before = node.decision();
    for _ in 0..5 {
        node.step(&network_state);
        assert_eq!(node.decision(), before);
    }
}
