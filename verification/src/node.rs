//! Node behaviours: honest solvers, random and contrarian adversaries, and
//! the omniscient master/puppet pair.
//!
//! The shared network state is a vector of optional votes, one slot per
//! node, indexed by node id. Honest nodes sample it and delegate to their
//! solver; adversaries derive their opinion from it in other ways.

use vstd::prelude::*;

use crate::claro::{ClaroSolver, COUNT_CAP};
use crate::rng::{choose_indices, random_bool, SimRng};
use crate::snowball::SnowballSolver;
use crate::vote::{Decision, NoTx, Opinion, Vote};

verus! {

/// The shared, network-visible votes: one optional vote per node, indexed by
/// node id.
pub type NetworkState = Vec<Option<Vote<NoTx>>>;

/// Whether `v` is a vote that some node other than `node_id` currently
/// publishes in the network state.
pub open spec fn vote_present_in(net: Seq<Option<Vote<NoTx>>>, node_id: usize, v: Vote<NoTx>)
    -> bool {
    exists|j: int| 0 <= j < net.len() && j != node_id && net[j] == Some(v)
}

/// How many entries of the shared vote vector are absent.
pub open spec fn count_absent(net: Seq<Option<Vote<NoTx>>>) -> nat
    decreases net.len(),
{
    if net.len() == 0 {
        0
    } else {
        count_absent(net.drop_last()) + if net.last() is None { 1nat } else { 0nat }
    }
}

/// The positions of the shared vote vector that hold no vote.
pub open spec fn absent_positions(net: Seq<Option<Vote<NoTx>>>) -> Set<int> {
    Set::new(|p: int| 0 <= p < net.len() && net[p] is None)
}

/// The slots named by `srcs` are pairwise distinct, are not the sampler's
/// own, and publish exactly the sampled votes, in order.
pub open spec fn sources_for(
    srcs: Seq<int>,
    votes: Seq<Vote<NoTx>>,
    net: Seq<Option<Vote<NoTx>>>,
    node_id: usize,
) -> bool {
    &&& srcs.len() == votes.len()
    &&& forall|k: int|
        0 <= k < srcs.len() ==> 0 <= (#[trigger] srcs[k]) < net.len() && srcs[k] != node_id
            && net[srcs[k]] == Some(votes[k])
    &&& forall|a: int, b: int|
        0 <= a < b < srcs.len() ==> #[trigger] srcs[a] != #[trigger] srcs[b]
}

/// Every sampled vote comes from its own slot: some choice of pairwise
/// distinct non-self slots publishes exactly these votes. In particular no
/// single node's vote is returned more often than it is published.
pub open spec fn votes_from_distinct_sources(
    votes: Seq<Vote<NoTx>>,
    net: Seq<Option<Vote<NoTx>>>,
    node_id: usize,
) -> bool {
    exists|srcs: Seq<int>| #[trigger] sources_for(srcs, votes, net, node_id)
}

/// The fewest votes a network query of size `query_size` can return:
/// `query_size + 1` positions are drawn (or all of them, on a smaller
/// network), of which at most one is the sampler's own and at most
/// `absent` hold no vote.
pub open spec fn sample_floor(query_size: int, net_len: int, absent: int) -> int {
    let drawn = if query_size + 1 <= net_len { query_size + 1 } else { net_len };
    let usable = drawn - 1 - absent;
    if query_size <= usable { query_size } else { usable }
}

/// How many drawn positions point at a present vote of another node.
pub open spec fn count_usable(
    indices: Seq<usize>,
    net: Seq<Option<Vote<NoTx>>>,
    node_id: usize,
) -> nat
    decreases indices.len(),
{
    if indices.len() == 0 {
        0
    } else {
        count_usable(indices.drop_last(), net, node_id) + if usable_position(
            indices.last(),
            net,
            node_id,
        ) {
            1nat
        } else {
            0nat
        }
    }
}

/// A drawn position is usable when it is in range, is not the sampler's
/// own, and holds a vote.
pub open spec fn usable_position(p: usize, net: Seq<Option<Vote<NoTx>>>, node_id: usize) -> bool {
    p < net.len() && p != node_id && net[p as int] is Some
}

/// How many drawn positions are the sampler's own.
spec fn count_self_hits(indices: Seq<usize>, node_id: usize) -> nat
    decreases indices.len(),
{
    if indices.len() == 0 {
        0
    } else {
        count_self_hits(indices.drop_last(), node_id) + if indices.last() == node_id {
            1nat
        } else {
            0nat
        }
    }
}

/// How many drawn positions hold no vote.
spec fn count_absent_hits(indices: Seq<usize>, net: Seq<Option<Vote<NoTx>>>) -> nat
    decreases indices.len(),
{
    if indices.len() == 0 {
        0
    } else {
        count_absent_hits(indices.drop_last(), net) + if indices.last() < net.len()
            && net[indices.last() as int] is None {
            1nat
        } else {
            0nat
        }
    }
}

/// The distinct absent slots hit by the drawn positions.
spec fn absent_hit_set(indices: Seq<usize>, net: Seq<Option<Vote<NoTx>>>) -> Set<int>
    decreases indices.len(),
{
    if indices.len() == 0 {
        Set::empty()
    } else {
        let rest = absent_hit_set(indices.drop_last(), net);
        if indices.last() < net.len() && net[indices.last() as int] is None {
            rest.insert(indices.last() as int)
        } else {
            rest
        }
    }
}

/// A sequence without the sampler's own position scores no self hits.
proof fn lemma_no_self_hits(indices: Seq<usize>, node_id: usize)
    requires
        forall|k: int| 0 <= k < indices.len() ==> indices[k] != node_id,
    ensures
        count_self_hits(indices, node_id) == 0,
    decreases indices.len(),
{
    if indices.len() > 0 {
        lemma_no_self_hits(indices.drop_last(), node_id);
    }
}

/// Pairwise distinct positions contain the sampler's own at most once.
proof fn lemma_self_hits_le_one(indices: Seq<usize>, node_id: usize)
    requires
        forall|a: int, b: int|
            0 <= a < b < indices.len() ==> #[trigger] indices[a] != #[trigger] indices[b],
    ensures
        count_self_hits(indices, node_id) <= 1,
    decreases indices.len(),
{
    if indices.len() > 0 {
        let rest = indices.drop_last();
        if indices.last() == node_id {
            lemma_no_self_hits(rest, node_id);
        } else {
            lemma_self_hits_le_one(rest, node_id);
        }
    }
}

/// The absent positions of a vector form a finite set of exactly
/// `count_absent` elements.
proof fn lemma_absent_positions_card(net: Seq<Option<Vote<NoTx>>>)
    ensures
        absent_positions(net).finite(),
        absent_positions(net).len() == count_absent(net),
    decreases net.len(),
{
    broadcast use vstd::set::group_set_axioms;

    if net.len() == 0 {
        assert(absent_positions(net) =~= Set::<int>::empty());
    } else {
        let rest = net.drop_last();
        lemma_absent_positions_card(rest);
        if net.last() is None {
            assert(absent_positions(net) =~= absent_positions(rest).insert(net.len() - 1));
            assert(!absent_positions(rest).contains(net.len() - 1));
        } else {
            assert(absent_positions(net) =~= absent_positions(rest));
        }
    }
}

/// For pairwise distinct positions, the absent hits are exactly the
/// distinct absent slots hit, and those are absent positions of the
/// vector.
proof fn lemma_absent_hit_set_card(indices: Seq<usize>, net: Seq<Option<Vote<NoTx>>>)
    requires
        forall|a: int, b: int|
            0 <= a < b < indices.len() ==> #[trigger] indices[a] != #[trigger] indices[b],
    ensures
        absent_hit_set(indices, net).finite(),
        absent_hit_set(indices, net).len() == count_absent_hits(indices, net),
        absent_hit_set(indices, net).subset_of(absent_positions(net)),
        forall|p: int|
            absent_hit_set(indices, net).contains(p) ==> exists|k: int|
                0 <= k < indices.len() && indices[k] as int == p,
    decreases indices.len(),
{
    broadcast use vstd::set::group_set_axioms;

    if indices.len() > 0 {
        let rest = indices.drop_last();
        lemma_absent_hit_set_card(rest, net);
        assert forall|p: int| absent_hit_set(rest, net).contains(p)
            implies exists|k: int| 0 <= k < indices.len() && indices[k] as int == p by {
            let k = choose|k: int| 0 <= k < rest.len() && rest[k] as int == p;
            assert(indices[k] as int == p);
        }
        if indices.last() < net.len() && net[indices.last() as int] is None {
            assert(!absent_hit_set(rest, net).contains(indices.last() as int)) by {
                if absent_hit_set(rest, net).contains(indices.last() as int) {
                    let k = choose|k: int|
                        0 <= k < rest.len() && rest[k] as int == indices.last() as int;
                    assert(indices[k] != indices[indices.len() - 1]);
                }
            }
        }
    }
}

/// Every drawn position is usable, the sampler's own, or an absent slot.
proof fn lemma_usable_split(indices: Seq<usize>, net: Seq<Option<Vote<NoTx>>>, node_id: usize)
    requires
        forall|k: int| 0 <= k < indices.len() ==> indices[k] < net.len(),
    ensures
        count_usable(indices, net, node_id) + count_self_hits(indices, node_id)
            + count_absent_hits(indices, net) >= indices.len(),
    decreases indices.len(),
{
    if indices.len() > 0 {
        lemma_usable_split(indices.drop_last(), net, node_id);
    }
}

/// Pairwise distinct positions below the vector's length leave at least
/// `len - 1 - count_absent` usable positions: at most one is the sampler's
/// own and the absent hits name distinct absent slots.
proof fn lemma_usable_floor(indices: Seq<usize>, net: Seq<Option<Vote<NoTx>>>, node_id: usize)
    requires
        forall|k: int| 0 <= k < indices.len() ==> indices[k] < net.len(),
        forall|a: int, b: int|
            0 <= a < b < indices.len() ==> #[trigger] indices[a] != #[trigger] indices[b],
    ensures
        count_usable(indices, net, node_id) >= indices.len() - 1 - count_absent(net),
{
    lemma_usable_split(indices, net, node_id);
    lemma_self_hits_le_one(indices, node_id);
    lemma_absent_hit_set_card(indices, net);
    lemma_absent_positions_card(net);
    vstd::set_lib::lemma_len_subset(absent_hit_set(indices, net), absent_positions(net));
}

/// Query the network state for up to `query_size` present votes, skipping
/// the querying node's own slot. One extra position is drawn so that
/// drawing oneself costs a single draw. The votes come from pairwise
/// distinct non-self slots, and however the draw falls, at least
/// `sample_floor` of them come back: of the drawn positions at most one is
/// the sampler's own and at most one per absent entry holds no vote.
pub fn query_network_state(
    network_state: &NetworkState,
    query_size: usize,
    node_id: usize,
    rng: &mut SimRng,
) -> (r: Vec<Vote<NoTx>>)
    requires
        query_size < usize::MAX,
    ensures
        r@.len() <= query_size,
        r@.len() >= sample_floor(
            query_size as int,
            network_state@.len() as int,
            count_absent(network_state@) as int,
        ),
        votes_from_distinct_sources(r@, network_state@, node_id),
        forall|k: int|
            0 <= k < r@.len() ==> vote_present_in(network_state@, node_id, #[trigger] r@[k]),
{
    let indices = choose_indices(rng, network_state.len(), query_size + 1);
    let mut result: Vec<Vote<NoTx>> = Vec::new();
    let ghost mut srcs: Seq<int> = Seq::empty();
    let mut i: usize = 0;
    while i < indices.len()
        invariant
            i <= indices@.len(),
            result@.len() <= query_size,
            forall|k: int| 0 <= k < indices@.len() ==> indices@[k] < network_state@.len(),
            forall|a: int, b: int|
                0 <= a < b < indices@.len() ==> #[trigger] indices@[a] != #[trigger] indices@[b],
            sources_for(srcs, result@, network_state@, node_id),
            forall|k: int|
                0 <= k < srcs.len() ==> exists|p: int|
                    0 <= p < i && indices@[p] as int == #[trigger] srcs[k],
            result@.len() == if count_usable(indices@.take(i as int), network_state@, node_id)
                <= query_size as nat {
                count_usable(indices@.take(i as int), network_state@, node_id) as int
            } else {
                query_size as int
            },
        decreases indices@.len() - i,
    {
        let idx = indices[i];
        proof {
            assert(indices@.take(i + 1 as int).drop_last() =~= indices@.take(i as int));
            assert(indices@.take(i + 1 as int).last() == indices@[i as int]);
            lemma_count_usable_le(indices@.take(i as int), network_state@, node_id);
        }
        if idx != node_id && result.len() < query_size {
            if let Some(v) = network_state[idx] {
                let ghost pre_srcs = srcs;
                result.push(v);
                proof {
                    srcs = pre_srcs.push(idx as int);
                    assert forall|a: int, b: int| 0 <= a < b < srcs.len()
                        implies #[trigger] srcs[a] != #[trigger] srcs[b] by {
                        if b == srcs.len() - 1 {
                            let p = choose|p: int| 0 <= p < i && indices@[p] as int == pre_srcs[a];
                            assert(indices@[p] != indices@[i as int]);
                        }
                    }
                    assert forall|k: int| 0 <= k < srcs.len()
                        implies exists|p: int|
                            0 <= p < i + 1 && indices@[p] as int == #[trigger] srcs[k] by {
                        if k < srcs.len() - 1 {
                            let p = choose|p: int| 0 <= p < i && indices@[p] as int == pre_srcs[k];
                            assert(indices@[p] as int == srcs[k]);
                        } else {
                            assert(indices@[i as int] as int == srcs[k]);
                        }
                    }
                }
            }
        }
        i = i + 1;
    }
    proof {
        assert(indices@.take(indices@.len() as int) =~= indices@);
        lemma_usable_floor(indices@, network_state@, node_id);
        assert(sources_for(srcs, result@, network_state@, node_id));
        assert forall|k: int| 0 <= k < result@.len()
            implies vote_present_in(network_state@, node_id, #[trigger] result@[k]) by {
            assert(network_state@[srcs[k]] == Some(result@[k]));
        }
    }
    result
}

proof fn lemma_count_usable_le(indices: Seq<usize>, net: Seq<Option<Vote<NoTx>>>, node_id: usize)
    ensures
        count_usable(indices, net, node_id) <= indices.len(),
    decreases indices.len(),
{
    if indices.len() > 0 {
        lemma_count_usable_le(indices.drop_last(), net, node_id);
    }
}

/// The uniform capability set of every simulated node.
pub trait ComputeNode {
    spec fn decision_spec(&self) -> Decision<NoTx>;

    spec fn id_spec(&self) -> usize;

    fn id(&self) -> (r: usize)
        ensures
            r == self.id_spec(),
    ;

    fn decision(&self) -> (d: Decision<NoTx>)
        ensures
            d == self.decision_spec(),
    ;

    fn opinion(&self) -> (o: Opinion<NoTx>)
        ensures
            o == self.decision_spec().opinion_spec(),
    ;

    /// The vote this node publishes, derived from its opinion.
    fn vote(&self) -> (v: Option<Vote<NoTx>>)
        ensures
            v == self.decision_spec().to_vote_spec(),
    ;
}

/// Honest node running a Snowball solver over network samples.
pub struct SnowballNode {
    pub node_id: usize,
    pub solver: SnowballSolver<NoTx>,
    pub rng: SimRng,
}

impl SnowballNode {
    pub open spec fn wf(self) -> bool {
        &&& self.solver.wf()
        &&& self.solver.node_query.node_size < usize::MAX
    }

    pub fn new(node_id: usize, solver: SnowballSolver<NoTx>, rng: SimRng) -> (r: Self)
        requires
            solver.wf(),
            solver.node_query.node_size < usize::MAX,
        ensures
            r.wf(),
            r.node_id == node_id,
            r.solver == solver,
    {
        SnowballNode { node_id, solver, rng }
    }

    /// If still undecided, sample the network and advance the solver: the
    /// new solver state is exactly one Snowball step over some sample of at
    /// most `query_size` votes currently published by other nodes.
    pub fn step(&mut self, network_state: &NetworkState)
        requires
            old(self).wf(),
        ensures
            final(self).wf(),
            snowball_node_steps_to(*old(self), *final(self), network_state@),
    {
        if let Decision::Undecided(_) = self.solver.decision() {
            let votes = query_network_state(
                network_state,
                self.solver.node_query().query_size(),
                self.node_id,
                &mut self.rng,
            );
            self.solver.step(&votes);
            proof {
                assert(sampled_votes(votes@, network_state@, old(self)));
                assert(self.solver == snowball_stepped(old(self).solver, votes@));
            }
        }
    }
}

/// A sample an honest node may have drawn: at most `query_size` votes, at
/// least the `sample_floor` the draw guarantees, each from its own slot of
/// the network (pairwise distinct non-self slots).
pub open spec fn sampled_votes<N: HonestNode>(
    votes: Seq<Vote<NoTx>>,
    net: Seq<Option<Vote<NoTx>>>,
    node: &N,
) -> bool {
    &&& votes.len() <= node.sample_size_spec()
    &&& votes.len() >= sample_floor(
        node.sample_size_spec() as int,
        net.len() as int,
        count_absent(net) as int,
    )
    &&& votes_from_distinct_sources(votes, net, node.sampler_id_spec())
}

/// The node types that sample the network with a query size of their own.
pub trait HonestNode {
    spec fn sample_size_spec(&self) -> usize;

    spec fn sampler_id_spec(&self) -> usize;
}

impl HonestNode for SnowballNode {
    open spec fn sample_size_spec(&self) -> usize {
        self.solver.node_query.node_size
    }

    open spec fn sampler_id_spec(&self) -> usize {
        self.node_id
    }
}

impl HonestNode for ClaroNode {
    open spec fn sample_size_spec(&self) -> usize {
        self.solver.node_query.node_size
    }

    open spec fn sampler_id_spec(&self) -> usize {
        self.node_id
    }
}

impl HonestNode for InfantileNode {
    open spec fn sample_size_spec(&self) -> usize {
        self.query_size
    }

    open spec fn sampler_id_spec(&self) -> usize {
        self.node_id
    }
}

/// A Snowball solver after one step on the given sample.
pub open spec fn snowball_stepped(
    solver: SnowballSolver<NoTx>,
    votes: Seq<Vote<NoTx>>,
) -> SnowballSolver<NoTx> {
    let (success, decision) = solver.step_result(votes);
    SnowballSolver { consecutive_success: success, decision, ..solver }
}

/// What one step does to a Snowball node: a decided solver is untouched; an
/// undecided one advances by exactly one Snowball step over some admissible
/// sample of the network.
pub open spec fn snowball_node_steps_to(
    before: SnowballNode,
    after: SnowballNode,
    net: Seq<Option<Vote<NoTx>>>,
) -> bool {
    &&& after.node_id == before.node_id
    &&& after.solver.configuration == before.solver.configuration
    &&& after.solver.node_query == before.solver.node_query
    &&& if before.solver.decision.is_decided() {
        after.solver == before.solver
    } else {
        exists|votes: Seq<Vote<NoTx>>|
            #[trigger] sampled_votes(votes, net, &before) && after.solver == snowball_stepped(
                before.solver,
                votes,
            )
    }
}

/// What one step does to a Claro node: a decided solver is untouched; an
/// undecided one advances by exactly one Claro step over some admissible
/// sample of the network.
pub open spec fn claro_node_steps_to(
    before: ClaroNode,
    after: ClaroNode,
    net: Seq<Option<Vote<NoTx>>>,
) -> bool {
    &&& after.node_id == before.node_id
    &&& after.solver.node_query == before.solver.node_query
    &&& if before.solver.decision.is_decided() {
        after.solver == before.solver
    } else {
        exists|votes: Seq<Vote<NoTx>>|
            #[trigger] sampled_votes(votes, net, &before) && after.solver == before.solver.step_spec(
                NoTx,
                votes,
            )
    }
}

/// What one step does to a random node: a fresh uniformly random opinion,
/// never decided.
pub open spec fn random_node_steps_to(before: RandomNode, after: RandomNode) -> bool {
    &&& after.node_id == before.node_id
    &&& !after.decision.is_decided()
    &&& (after.decision.opinion_spec() == Opinion::Yes(NoTx) || after.decision.opinion_spec()
        == Opinion::No(NoTx))
}

/// What one step does to a contrarian node: it adopts the opposite of the
/// majority of some admissible sample of the network, never decided.
pub open spec fn infantile_node_steps_to(
    before: InfantileNode,
    after: InfantileNode,
    net: Seq<Option<Vote<NoTx>>>,
) -> bool {
    &&& after.node_id == before.node_id
    &&& after.query_size == before.query_size
    &&& exists|votes: Seq<Vote<NoTx>>|
        #[trigger] sampled_votes(votes, net, &before) && after.decision
            == Decision::<NoTx>::Undecided(flip_majority_spec(votes))
}

impl ComputeNode for SnowballNode {
    open spec fn decision_spec(&self) -> Decision<NoTx> {
        self.solver.decision
    }

    open spec fn id_spec(&self) -> usize {
        self.node_id
    }

    fn id(&self) -> usize {
        self.node_id
    }

    fn decision(&self) -> Decision<NoTx> {
        self.solver.decision()
    }

    fn opinion(&self) -> Opinion<NoTx> {
        self.solver.opinion()
    }

    fn vote(&self) -> Option<Vote<NoTx>> {
        self.solver.vote()
    }
}

/// Honest node running a Claro solver over network samples.
pub struct ClaroNode {
    pub node_id: usize,
    pub solver: ClaroSolver<NoTx>,
    pub rng: SimRng,
}

impl ClaroNode {
    pub open spec fn wf(self) -> bool {
        &&& self.solver.wf()
        &&& self.solver.node_query.node_size < usize::MAX
        &&& self.solver.node_query.node_size <= COUNT_CAP
    }

    pub fn new(node_id: usize, solver: ClaroSolver<NoTx>, rng: SimRng) -> (r: Self)
        requires
            solver.wf(),
            solver.node_query.node_size < usize::MAX,
            solver.node_query.node_size <= COUNT_CAP,
        ensures
            r.wf(),
            r.node_id == node_id,
            r.solver == solver,
    {
        ClaroNode { node_id, solver, rng }
    }

    /// If still undecided, sample the network and advance the solver: the
    /// new solver state is exactly one Claro step over some sample of at
    /// most `query_size` votes currently published by other nodes.
    pub fn step(&mut self, network_state: &NetworkState)
        requires
            old(self).wf(),
        ensures
            final(self).wf(),
            claro_node_steps_to(*old(self), *final(self), network_state@),
    {
        if let Decision::Undecided(_) = self.solver.decision() {
            let votes = query_network_state(
                network_state,
                self.solver.node_query().query_size(),
                self.node_id,
                &mut self.rng,
            );
            self.solver.step(NoTx, &votes);
            proof {
                assert(sampled_votes(votes@, network_state@, old(self)));
            }
        }
    }
}

impl ComputeNode for ClaroNode {
    open spec fn decision_spec(&self) -> Decision<NoTx> {
        self.solver.decision
    }

    open spec fn id_spec(&self) -> usize {
        self.node_id
    }

    fn id(&self) -> usize {
        self.node_id
    }

    fn decision(&self) -> Decision<NoTx> {
        self.solver.decision()
    }

    fn opinion(&self) -> Opinion<NoTx> {
        self.solver.opinion()
    }

    fn vote(&self) -> Option<Vote<NoTx>> {
        self.solver.vote()
    }
}

/// A node that takes a uniformly random opinion on every step and never
/// decides.
pub struct RandomNode {
    pub node_id: usize,
    pub decision: Decision<NoTx>,
}

impl RandomNode {
    pub fn new(node_id: usize) -> (r: Self)
        ensures
            r.node_id == node_id,
            r.decision == Decision::Undecided(Opinion::NoneYet(NoTx)),
    {
        RandomNode { node_id, decision: Decision::Undecided(Opinion::NoneYet(NoTx)) }
    }

    /// Adopt a fresh uniformly random opinion; the node never decides.
    pub fn step(&mut self)
        ensures
            random_node_steps_to(*old(self), *final(self)),
    {
        let opinion = if random_bool() {
            Opinion::Yes(NoTx)
        } else {
            Opinion::No(NoTx)
        };
        self.decision = Decision::Undecided(opinion);
    }
}

impl ComputeNode for RandomNode {
    open spec fn decision_spec(&self) -> Decision<NoTx> {
        self.decision
    }

    open spec fn id_spec(&self) -> usize {
        self.node_id
    }

    fn id(&self) -> usize {
        self.node_id
    }

    fn decision(&self) -> Decision<NoTx> {
        self.decision
    }

    fn opinion(&self) -> Opinion<NoTx> {
        self.decision.opinion()
    }

    fn vote(&self) -> Option<Vote<NoTx>> {
        self.decision.to_vote()
    }
}

/// The opinion opposite to the sample's majority; ties go to `Yes`.
pub open spec fn flip_majority_spec(votes: Seq<Vote<NoTx>>) -> Opinion<NoTx> {
    if crate::claro::count_yes_votes(votes) > votes.len() / 2 {
        Opinion::No(NoTx)
    } else {
        Opinion::Yes(NoTx)
    }
}

/// A contrarian node: it samples the network and adopts the opposite of the
/// sample's majority. It never decides.
pub struct InfantileNode {
    pub node_id: usize,
    pub query_size: usize,
    pub decision: Decision<NoTx>,
    pub rng: SimRng,
}

impl InfantileNode {
    pub open spec fn wf(self) -> bool {
        self.query_size < usize::MAX
    }

    pub fn new(node_id: usize, query_size: usize, rng: SimRng) -> (r: Self)
        requires
            query_size < usize::MAX,
        ensures
            r.wf(),
            r.node_id == node_id,
            r.query_size == query_size,
            r.decision == Decision::Undecided(Opinion::NoneYet(NoTx)),
    {
        InfantileNode {
            node_id,
            query_size,
            decision: Decision::Undecided(Opinion::NoneYet(NoTx)),
            rng,
        }
    }

    /// The opposite of the sample's majority opinion: a Yes majority earns a
    /// No, anything else (ties included) a Yes.
    fn flip_majority(votes: &Vec<Vote<NoTx>>) -> (r: Opinion<NoTx>)
        ensures
            r == flip_majority_spec(votes@),
    {
        let yes_votes = count_yes_exec(votes);
        let len = votes.len();
        if yes_votes > len / 2 {
            Opinion::No(NoTx)
        } else {
            Opinion::Yes(NoTx)
        }
    }

    /// Sample the network and adopt the opposite of the majority; the node
    /// never decides.
    pub fn step(&mut self, network_state: &NetworkState)
        requires
            old(self).wf(),
        ensures
            final(self).wf(),
            !final(self).decision.is_decided(),
            infantile_node_steps_to(*old(self), *final(self), network_state@),
    {
        let votes = query_network_state(
            network_state,
            self.query_size,
            self.node_id,
            &mut self.rng,
        );
        self.decision = Decision::Undecided(InfantileNode::flip_majority(&votes));
        proof {
            assert(sampled_votes(votes@, network_state@, old(self)));
        }
    }
}

impl ComputeNode for InfantileNode {
    open spec fn decision_spec(&self) -> Decision<NoTx> {
        self.decision
    }

    open spec fn id_spec(&self) -> usize {
        self.node_id
    }

    fn id(&self) -> usize {
        self.node_id
    }

    fn decision(&self) -> Decision<NoTx> {
        self.decision
    }

    fn opinion(&self) -> Opinion<NoTx> {
        self.decision.opinion()
    }

    fn vote(&self) -> Option<Vote<NoTx>> {
        self.decision.to_vote()
    }
}

/// How many of the slots named by `ids` currently publish a `Yes` vote.
pub open spec fn count_yes_at(net: Seq<Option<Vote<NoTx>>>, ids: Seq<usize>) -> nat
    decreases ids.len(),
{
    if ids.len() == 0 {
        0
    } else {
        count_yes_at(net, ids.drop_last())
            + if 0 <= ids.last() < net.len() && net[ids.last() as int] matches Some(Vote::Yes(_)) {
                1nat
            } else {
                0nat
            }
    }
}

/// How many of the slots named by `ids` currently publish a `No` vote.
pub open spec fn count_no_at(net: Seq<Option<Vote<NoTx>>>, ids: Seq<usize>) -> nat
    decreases ids.len(),
{
    if ids.len() == 0 {
        0
    } else {
        count_no_at(net, ids.drop_last())
            + if 0 <= ids.last() < net.len() && net[ids.last() as int] matches Some(Vote::No(_)) {
                1nat
            } else {
                0nat
            }
    }
}

/// The opinion the omniscient adversary adopts: the minority side of the
/// honest nodes' currently published votes, ties going to `Yes`.
pub open spec fn master_choice(net: Seq<Option<Vote<NoTx>>>, honest_ids: Seq<usize>)
    -> Opinion<NoTx> {
    if count_yes_at(net, honest_ids) > count_no_at(net, honest_ids) {
        Opinion::No(NoTx)
    } else {
        Opinion::Yes(NoTx)
    }
}

/// The coordinated adversary: one node that inspects the honest nodes'
/// current votes, picks the minority side, and writes that vote into every
/// puppet slot of the network state.
pub struct MasterOmniscientNode {
    pub node_id: usize,
    pub honest_nodes_ids: Vec<usize>,
    pub omniscient_nodes_ids: Vec<usize>,
    pub decision: Decision<NoTx>,
}

impl MasterOmniscientNode {
    pub open spec fn wf(self) -> bool {
        !self.decision.is_decided()
    }

    pub fn new(
        node_id: usize,
        honest_nodes_ids: Vec<usize>,
        omniscient_nodes_ids: Vec<usize>,
    ) -> (r: Self)
        ensures
            r.wf(),
            r.node_id == node_id,
            r.honest_nodes_ids == honest_nodes_ids,
            r.omniscient_nodes_ids == omniscient_nodes_ids,
            r.decision == Decision::Undecided(Opinion::NoneYet(NoTx)),
    {
        MasterOmniscientNode {
            node_id,
            honest_nodes_ids,
            omniscient_nodes_ids,
            decision: Decision::Undecided(Opinion::NoneYet(NoTx)),
        }
    }

    /// Inspect the honest nodes' votes, adopt the minority side, and write
    /// that vote to every puppet slot that is in range.
    pub fn analyze_and_write_votes(&mut self, network_state: &mut NetworkState)
        requires
            forall|k: int|
                0 <= k < old(self).honest_nodes_ids@.len()
                    ==> #[trigger] old(self).honest_nodes_ids@[k] < old(network_state)@.len(),
        ensures
            final(self).node_id == old(self).node_id,
            final(self).honest_nodes_ids == old(self).honest_nodes_ids,
            final(self).omniscient_nodes_ids == old(self).omniscient_nodes_ids,
            final(self).decision == Decision::Undecided(
                master_choice(old(network_state)@, old(self).honest_nodes_ids@),
            ),
            final(self).wf(),
            final(network_state)@.len() == old(network_state)@.len(),
            forall|j: int|
                0 <= j < old(network_state)@.len() ==> #[trigger] final(network_state)@[j]
                    == if old(self).omniscient_nodes_ids@.contains(j as usize) {
                        master_choice(
                            old(network_state)@,
                            old(self).honest_nodes_ids@,
                        ).to_vote_spec()
                    } else {
                        old(network_state)@[j]
                    },
    {
        let ghost net0 = network_state@;
        let mut yes_votes: usize = 0;
        let mut no_votes: usize = 0;
        let mut i: usize = 0;
        while i < self.honest_nodes_ids.len()
            invariant
                i <= self.honest_nodes_ids@.len(),
                forall|k: int|
                    0 <= k < self.honest_nodes_ids@.len()
                        ==> #[trigger] self.honest_nodes_ids@[k] < network_state@.len(),
                yes_votes == count_yes_at(network_state@, self.honest_nodes_ids@.take(i as int)),
                no_votes == count_no_at(network_state@, self.honest_nodes_ids@.take(i as int)),
                yes_votes <= i,
                no_votes <= i,
            decreases self.honest_nodes_ids@.len() - i,
        {
            let id = self.honest_nodes_ids[i];
            proof {
                assert(self.honest_nodes_ids@.take(i + 1 as int).drop_last()
                    =~= self.honest_nodes_ids@.take(i as int));
                assert(self.honest_nodes_ids@.take(i + 1 as int).last()
                    == self.honest_nodes_ids@[i as int]);
            }
            match network_state[id] {
                Some(Vote::Yes(_)) => {
                    yes_votes = yes_votes + 1;
                },
                Some(Vote::No(_)) => {
                    no_votes = no_votes + 1;
                },
                _ => {},
            }
            i = i + 1;
        }
        proof {
            assert(self.honest_nodes_ids@.take(self.honest_nodes_ids@.len() as int)
                =~= self.honest_nodes_ids@);
        }

        let opinion = if yes_votes > no_votes {
            Opinion::No(NoTx)
        } else {
            Opinion::Yes(NoTx)
        };
        self.decision = Decision::Undecided(opinion);
        let vote = opinion.to_vote();

        let mut k: usize = 0;
        while k < self.omniscient_nodes_ids.len()
            invariant
                k <= self.omniscient_nodes_ids@.len(),
                vote == master_choice(net0, self.honest_nodes_ids@).to_vote_spec(),
                network_state@.len() == net0.len(),
                forall|j: int|
                    0 <= j < net0.len() ==> #[trigger] network_state@[j]
                        == if self.omniscient_nodes_ids@.take(k as int).contains(j as usize) {
                            vote
                        } else {
                            net0[j]
                        },
            decreases self.omniscient_nodes_ids@.len() - k,
        {
            let id = self.omniscient_nodes_ids[k];
            if id < network_state.len() {
                network_state.set(id, vote);
            }
            proof {
                assert forall|j: int| 0 <= j < net0.len() implies #[trigger] network_state@[j]
                    == if self.omniscient_nodes_ids@.take(k + 1 as int).contains(j as usize) {
                        vote
                    } else {
                        net0[j]
                    } by {
                    let pre = self.omniscient_nodes_ids@.take(k as int);
                    let post = self.omniscient_nodes_ids@.take(k + 1 as int);
                    assert(post =~= pre.push(self.omniscient_nodes_ids@[k as int]));
                    if post.contains(j as usize) {
                        if j as usize == self.omniscient_nodes_ids@[k as int] {
                        } else {
                            assert(pre.contains(j as usize));
                        }
                    } else {
                        assert(!pre.contains(j as usize));
                        assert(post.contains(self.omniscient_nodes_ids@[k as int])) by {
                            assert(post[k as int] == self.omniscient_nodes_ids@[k as int]);
                        }
                        assert(j as usize != self.omniscient_nodes_ids@[k as int]);
                    }
                }
            }
            k = k + 1;
        }
        proof {
            assert(self.omniscient_nodes_ids@.take(self.omniscient_nodes_ids@.len() as int)
                =~= self.omniscient_nodes_ids@);
        }
    }

    /// Step the master: analyse the honest votes and write the puppet slots.
    pub fn step(&mut self, network_state: &mut NetworkState)
        requires
            forall|k: int|
                0 <= k < old(self).honest_nodes_ids@.len()
                    ==> #[trigger] old(self).honest_nodes_ids@[k] < old(network_state)@.len(),
        ensures
            final(self).node_id == old(self).node_id,
            final(self).honest_nodes_ids == old(self).honest_nodes_ids,
            final(self).omniscient_nodes_ids == old(self).omniscient_nodes_ids,
            final(self).decision == Decision::Undecided(
                master_choice(old(network_state)@, old(self).honest_nodes_ids@),
            ),
            final(self).wf(),
            final(network_state)@.len() == old(network_state)@.len(),
            forall|j: int|
                0 <= j < old(network_state)@.len() ==> #[trigger] final(network_state)@[j]
                    == if old(self).omniscient_nodes_ids@.contains(j as usize) {
                        master_choice(
                            old(network_state)@,
                            old(self).honest_nodes_ids@,
                        ).to_vote_spec()
                    } else {
                        old(network_state)@[j]
                    },
    {
        self.analyze_and_write_votes(network_state);
    }

    /// A puppet shell that answers with the master's current decision.
    pub fn puppet_node(&self, node_id: usize) -> (r: OmniscientPuppetNode)
        ensures
            r.node_id == node_id,
            r.decision == self.decision,
    {
        OmniscientPuppetNode { node_id, decision: self.decision }
    }
}

impl ComputeNode for MasterOmniscientNode {
    open spec fn decision_spec(&self) -> Decision<NoTx> {
        self.decision
    }

    open spec fn id_spec(&self) -> usize {
        self.node_id
    }

    fn id(&self) -> usize {
        self.node_id
    }

    fn decision(&self) -> Decision<NoTx> {
        self.decision
    }

    fn opinion(&self) -> Opinion<NoTx> {
        self.decision.opinion()
    }

    fn vote(&self) -> Option<Vote<NoTx>> {
        self.decision.to_vote()
    }
}

/// A puppet shell for the omniscient adversary: its vote is driven entirely
/// by the master, and stepping it does nothing.
pub struct OmniscientPuppetNode {
    pub node_id: usize,
    pub decision: Decision<NoTx>,
}

impl OmniscientPuppetNode {
    /// Puppets do no work of their own: the master has already written
    /// their votes.
    pub fn step(&mut self)
        ensures
            *final(self) == *old(self),
    {
    }
}

impl ComputeNode for OmniscientPuppetNode {
    open spec fn decision_spec(&self) -> Decision<NoTx> {
        self.decision
    }

    open spec fn id_spec(&self) -> usize {
        self.node_id
    }

    fn id(&self) -> usize {
        self.node_id
    }

    fn decision(&self) -> Decision<NoTx> {
        self.decision
    }

    fn opinion(&self) -> Opinion<NoTx> {
        self.decision.opinion()
    }

    fn vote(&self) -> Option<Vote<NoTx>> {
        self.decision.to_vote()
    }
}

/// The behaviour a node exhibits, also used to tag output records.
#[derive(Debug, Clone, Copy, PartialEq, Eq)]
pub enum NodeKind {
    Snowball,
    Claro,
    Random,
    Infantile,
    Omniscient,
}

/// Node dispatcher: one variant per behaviour, avoiding dynamic dispatch.
pub enum Node {
    Snowball(SnowballNode),
    Claro(ClaroNode),
    Random(RandomNode),
    Infantile(InfantileNode),
    OmniscientPuppet(OmniscientPuppetNode),
}

impl Node {
    pub open spec fn wf(self) -> bool {
        match self {
            Node::Snowball(n) => n.wf(),
            Node::Claro(n) => n.wf(),
            Node::Random(n) => !n.decision.is_decided(),
            Node::Infantile(n) => n.wf() && !n.decision.is_decided(),
            Node::OmniscientPuppet(n) => !n.decision.is_decided(),
        }
    }

    pub open spec fn kind_spec(self) -> NodeKind {
        match self {
            Node::Snowball(_) => NodeKind::Snowball,
            Node::Claro(_) => NodeKind::Claro,
            Node::Random(_) => NodeKind::Random,
            Node::Infantile(_) => NodeKind::Infantile,
            Node::OmniscientPuppet(_) => NodeKind::Omniscient,
        }
    }

    pub fn new_snowball(node_id: usize, solver: SnowballSolver<NoTx>, rng: SimRng) -> (r: Self)
        requires
            solver.wf(),
            solver.node_query.node_size < usize::MAX,
        ensures
            r.wf(),
            r.id_spec() == node_id,
            r.kind_spec() == NodeKind::Snowball,
            r.decision_spec() == solver.decision,
            r matches Node::Snowball(n) && n.solver == solver && n.node_id == node_id,
    {
        Node::Snowball(SnowballNode::new(node_id, solver, rng))
    }

    pub fn new_claro(node_id: usize, solver: ClaroSolver<NoTx>, rng: SimRng) -> (r: Self)
        requires
            solver.wf(),
            solver.node_query.node_size < usize::MAX,
            solver.node_query.node_size <= COUNT_CAP,
        ensures
            r.wf(),
            r.id_spec() == node_id,
            r.kind_spec() == NodeKind::Claro,
            r.decision_spec() == solver.decision,
            r matches Node::Claro(n) && n.solver == solver && n.node_id == node_id,
    {
        Node::Claro(ClaroNode::new(node_id, solver, rng))
    }

    pub fn new_random(node_id: usize) -> (r: Self)
        ensures
            r.wf(),
            r.id_spec() == node_id,
            r.kind_spec() == NodeKind::Random,
            !r.decision_spec().is_decided(),
    {
        Node::Random(RandomNode::new(node_id))
    }

    pub fn new_infantile(node_id: usize, query_size: usize, rng: SimRng) -> (r: Self)
        requires
            query_size < usize::MAX,
        ensures
            r.wf(),
            r.id_spec() == node_id,
            r.kind_spec() == NodeKind::Infantile,
            !r.decision_spec().is_decided(),
    {
        Node::Infantile(InfantileNode::new(node_id, query_size, rng))
    }

    pub fn new_omniscient_puppet(puppet: OmniscientPuppetNode) -> (r: Self)
        requires
            !puppet.decision.is_decided(),
        ensures
            r.wf(),
            r.id_spec() == puppet.node_id,
            r.kind_spec() == NodeKind::Omniscient,
            r.decision_spec() == puppet.decision,
    {
        Node::OmniscientPuppet(puppet)
    }

    /// Step this node against the current network state: honest nodes
    /// sample and solve, the random and contrarian nodes re-derive an
    /// opinion, and puppets do nothing. Once decided, a node never changes
    /// its decision; each variant advances exactly as its own step relation
    /// says.
    pub fn step(&mut self, network_state: &NetworkState)
        requires
            old(self).wf(),
        ensures
            final(self).wf(),
            final(self).id_spec() == old(self).id_spec(),
            final(self).kind_spec() == old(self).kind_spec(),
            old(self).decision_spec().is_decided()
                ==> final(self).decision_spec() == old(self).decision_spec(),
            (*old(self)) matches Node::Snowball(b) ==> (*final(self)) matches Node::Snowball(a)
                && snowball_node_steps_to(b, a, network_state@),
            (*old(self)) matches Node::Claro(b) ==> (*final(self)) matches Node::Claro(a)
                && claro_node_steps_to(b, a, network_state@),
            (*old(self)) matches Node::Random(b) ==> (*final(self)) matches Node::Random(a)
                && random_node_steps_to(b, a),
            (*old(self)) matches Node::Infantile(b) ==> (*final(self)) matches Node::Infantile(a)
                && infantile_node_steps_to(b, a, network_state@),
            (*old(self)) matches Node::OmniscientPuppet(_) ==> *final(self) == *old(self),
    {
        match self {
            Node::Snowball(n) => n.step(network_state),
            Node::Claro(n) => n.step(network_state),
            Node::Random(n) => n.step(),
            Node::Infantile(n) => n.step(network_state),
            Node::OmniscientPuppet(n) => n.step(),
        }
    }

    /// Overwrite a puppet's decision with the master's; any other node is
    /// left alone.
    pub fn sync_puppet(&mut self, decision: Decision<NoTx>)
        requires
            old(self).wf(),
            !decision.is_decided(),
        ensures
            final(self).wf(),
            final(self).id_spec() == old(self).id_spec(),
            final(self).kind_spec() == old(self).kind_spec(),
            old(self).kind_spec() == NodeKind::Omniscient ==> final(self).decision_spec()
                == decision,
            old(self).kind_spec() != NodeKind::Omniscient ==> *final(self) == *old(self),
    {
        if let Node::OmniscientPuppet(n) = self {
            n.decision = decision;
        }
    }

    /// The behaviour tag of this node.
    pub fn kind(&self) -> (r: NodeKind)
        ensures
            r == self.kind_spec(),
    {
        match self {
            Node::Snowball(_) => NodeKind::Snowball,
            Node::Claro(_) => NodeKind::Claro,
            Node::Random(_) => NodeKind::Random,
            Node::Infantile(_) => NodeKind::Infantile,
            Node::OmniscientPuppet(_) => NodeKind::Omniscient,
        }
    }

    /// The behaviour tag as text.
    pub fn type_as_string(&self) -> (r: String)
        ensures
            r@ == kind_str(self.kind_spec()),
    {
        match self {
            Node::Snowball(_) => "snowball".to_owned(),
            Node::Claro(_) => "claro".to_owned(),
            Node::Random(_) => "random".to_owned(),
            Node::Infantile(_) => "infantile".to_owned(),
            Node::OmniscientPuppet(_) => "omniscient".to_owned(),
        }
    }
}

/// The text tag of each node behaviour.
pub open spec fn kind_str(kind: NodeKind) -> Seq<char> {
    match kind {
        NodeKind::Snowball => "snowball"@,
        NodeKind::Claro => "claro"@,
        NodeKind::Random => "random"@,
        NodeKind::Infantile => "infantile"@,
        NodeKind::Omniscient => "omniscient"@,
    }
}

impl ComputeNode for Node {
    open spec fn decision_spec(&self) -> Decision<NoTx> {
        match self {
            Node::Snowball(n) => n.decision_spec(),
            Node::Claro(n) => n.decision_spec(),
            Node::Random(n) => n.decision_spec(),
            Node::Infantile(n) => n.decision_spec(),
            Node::OmniscientPuppet(n) => n.decision_spec(),
        }
    }

    open spec fn id_spec(&self) -> usize {
        match self {
            Node::Snowball(n) => n.id_spec(),
            Node::Claro(n) => n.id_spec(),
            Node::Random(n) => n.id_spec(),
            Node::Infantile(n) => n.id_spec(),
            Node::OmniscientPuppet(n) => n.id_spec(),
        }
    }

    fn id(&self) -> usize {
        match self {
            Node::Snowball(n) => n.id(),
            Node::Claro(n) => n.id(),
            Node::Random(n) => n.id(),
            Node::Infantile(n) => n.id(),
            Node::OmniscientPuppet(n) => n.id(),
        }
    }

    fn decision(&self) -> Decision<NoTx> {
        match self {
            Node::Snowball(n) => n.decision(),
            Node::Claro(n) => n.decision(),
            Node::Random(n) => n.decision(),
            Node::Infantile(n) => n.decision(),
            Node::OmniscientPuppet(n) => n.decision(),
        }
    }

    fn opinion(&self) -> Opinion<NoTx> {
        match self {
            Node::Snowball(n) => n.opinion(),
            Node::Claro(n) => n.opinion(),
            Node::Random(n) => n.opinion(),
            Node::Infantile(n) => n.opinion(),
            Node::OmniscientPuppet(n) => n.opinion(),
        }
    }

    fn vote(&self) -> Option<Vote<NoTx>> {
        match self {
            Node::Snowball(n) => n.vote(),
            Node::Claro(n) => n.vote(),
            Node::Random(n) => n.vote(),
            Node::Infantile(n) => n.vote(),
            Node::OmniscientPuppet(n) => n.vote(),
        }
    }
}

/// Count the `Yes` votes in a sample.
fn count_yes_exec(votes: &Vec<Vote<NoTx>>) -> (r: usize)
    ensures
        r == crate::claro::count_yes_votes(votes@),
        r <= votes@.len(),
{
    let mut count: usize = 0;
    let mut i: usize = 0;
    while i < votes.len()
        invariant
            i <= votes@.len(),
            count == crate::claro::count_yes_votes(votes@.take(i as int)),
            count <= i,
        decreases votes@.len() - i,
    {
        proof {
            assert(votes@.take(i + 1 as int).drop_last() =~= votes@.take(i as int));
            assert(votes@.take(i + 1 as int).last() == votes@[i as int]);
        }
        if let Vote::Yes(_) = votes[i] {
            count = count + 1;
        }
        i = i + 1;
    }
    proof {
        assert(votes@.take(votes@.len() as int) =~= votes@);
    }
    count
}

} // verus!
