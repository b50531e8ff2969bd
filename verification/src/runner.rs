//! The simulation runner: the shared vote vector, the simulated nodes and
//! the settings, driven under one of four scheduling disciplines.
//!
//! Every discipline preserves the same invariants: the vote vector keeps its
//! length; a decided node never changes its decision; and every present
//! entry of the vote vector is the vote its node's current opinion derives.

use vstd::prelude::*;

use crate::network_behaviour::NetworkModifiers;
use crate::node::{
    ComputeNode, MasterOmniscientNode, NetworkState, Node, NodeKind,
};
use crate::output_processors::{record_for_node, records_node, OutData};
use crate::rng::SimRng;
use crate::settings::SimulationSettings;
use crate::vote::{NoTx, Vote};
use crate::warding::{SimulationState, SimulationWard};

verus! {

/// Every node is well-formed and sits at the slot of its own id.
pub open spec fn nodes_wf(nodes: Seq<Node>) -> bool {
    forall|i: int|
        0 <= i < nodes.len() ==> (#[trigger] nodes[i]).wf() && nodes[i].id_spec() == i
}

/// Every present entry of the vote vector is the vote that the owning
/// node's current opinion derives.
pub open spec fn votes_match(net: Seq<Option<Vote<NoTx>>>, nodes: Seq<Node>) -> bool {
    &&& net.len() == nodes.len()
    &&& forall|i: int|
        0 <= i < net.len() && (#[trigger] net[i]) is Some ==> net[i]
            == nodes[i].decision_spec().to_vote_spec()
}

/// Once a node is decided, its decision never changes.
pub open spec fn decisions_preserved(before: Seq<Node>, after: Seq<Node>) -> bool {
    &&& after.len() == before.len()
    &&& forall|i: int|
        0 <= i < before.len() && (#[trigger] before[i]).decision_spec().is_decided()
            ==> after[i].decision_spec() == before[i].decision_spec()
}

/// Every node keeps its behaviour kind.
pub open spec fn kinds_preserved(before: Seq<Node>, after: Seq<Node>) -> bool {
    &&& after.len() == before.len()
    &&& forall|i: int|
        0 <= i < before.len() ==> (#[trigger] after[i]).kind_spec() == before[i].kind_spec()
}

/// The preserved-decision relation composes across successive steps.
pub proof fn lemma_decisions_preserved_trans(a: Seq<Node>, b: Seq<Node>, c: Seq<Node>)
    requires
        decisions_preserved(a, b),
        decisions_preserved(b, c),
    ensures
        decisions_preserved(a, c),
{
    assert forall|i: int|
        0 <= i < a.len() && (#[trigger] a[i]).decision_spec().is_decided()
        implies c[i].decision_spec() == a[i].decision_spec() by {
        assert(b[i].decision_spec() == a[i].decision_spec());
    }
}

/// One recorded block of output: a record per node in slot order, all at
/// one iteration and round, each describing some node that carries that
/// slot's id.
pub open spec fn records_block(block: Seq<OutData>, n: nat) -> bool {
    &&& block.len() == n
    &&& forall|j: int|
        0 <= j < block.len() ==> {
            let record = #[trigger] block[j];
            &&& record.id == j as u64
            &&& record.iteration == block[0].iteration
            &&& record.round == block[0].round
            &&& exists|node: Node|
                node.id_spec() == j && #[trigger] records_node(
                    record,
                    node,
                    block[0].iteration,
                    block[0].round,
                )
        }
}

/// The run appends output only as whole recorded blocks, one per recorded
/// point.
pub open spec fn recorded_blocks(suffix: Seq<OutData>, n: nat) -> bool
    decreases suffix.len(),
{
    if suffix.len() == 0 {
        true
    } else if n == 0 || suffix.len() < n {
        false
    } else {
        records_block(suffix.take(n as int), n) && recorded_blocks(suffix.skip(n as int), n)
    }
}

/// Appending one more recorded block keeps the output a sequence of whole
/// recorded blocks.
pub proof fn lemma_recorded_blocks_append(s: Seq<OutData>, b: Seq<OutData>, n: nat)
    requires
        recorded_blocks(s, n),
        records_block(b, n),
        n >= 1,
    ensures
        recorded_blocks(s + b, n),
    decreases s.len(),
{
    if s.len() == 0 {
        assert(s + b =~= b);
        assert(recorded_blocks(Seq::<OutData>::empty(), n));
        assert(b.take(n as int) =~= b);
        assert(b.skip(n as int) =~= Seq::<OutData>::empty());
        assert(recorded_blocks(b, n));
    } else {
        assert(s.len() >= n);
        lemma_recorded_blocks_append(s.skip(n as int), b, n);
        assert((s + b).take(n as int) =~= s.take(n as int));
        assert((s + b).skip(n as int) =~= s.skip(n as int) + b);
        assert(records_block((s + b).take(n as int), n));
        assert(recorded_blocks((s + b).skip(n as int), n));
    }
}

/// Encapsulation of the simulation run: the shared network state, the
/// simulated nodes, the optional coordinated adversary, the settings and
/// the run-level random source.
pub struct SimulationRunner {
    pub network_state: NetworkState,
    pub nodes: Vec<Node>,
    pub master_omniscient: Option<MasterOmniscientNode>,
    pub settings: SimulationSettings,
    pub rng: SimRng,
}

impl SimulationRunner {
    /// The coordinated adversary, when present, names only slots that
    /// exist, and its puppet list is exactly the set of puppet nodes.
    pub open spec fn master_wf(self) -> bool {
        match self.master_omniscient {
            None => true,
            Some(m) => {
                &&& m.wf()
                &&& forall|k: int|
                    0 <= k < m.honest_nodes_ids@.len()
                        ==> (#[trigger] m.honest_nodes_ids@[k]) < self.nodes@.len()
                &&& forall|j: int|
                    0 <= j < self.nodes@.len()
                        ==> (m.omniscient_nodes_ids@.contains(j as usize)
                            <==> (#[trigger] self.nodes@[j]).kind_spec() == NodeKind::Omniscient)
            },
        }
    }

    pub open spec fn wf(self) -> bool {
        &&& nodes_wf(self.nodes@)
        &&& self.network_state@.len() == self.nodes@.len()
        &&& self.master_wf()
        &&& forall|i: int|
            0 <= i < self.settings.wards@.len() ==> (#[trigger] self.settings.wards@[i]).wf()
        &&& self.settings.simulation_style.wf()
    }

    /// The votes every node currently publishes, in slot order.
    fn collect_votes(&self) -> (r: NetworkState)
        ensures
            r@.len() == self.nodes@.len(),
            forall|i: int|
                0 <= i < r@.len() ==> #[trigger] r@[i]
                    == self.nodes@[i].decision_spec().to_vote_spec(),
    {
        let mut votes: NetworkState = Vec::new();
        let mut i: usize = 0;
        while i < self.nodes.len()
            invariant
                i <= self.nodes@.len(),
                votes@.len() == i,
                forall|k: int|
                    0 <= k < i ==> #[trigger] votes@[k]
                        == self.nodes@[k].decision_spec().to_vote_spec(),
            decreases self.nodes@.len() - i,
        {
            votes.push(self.nodes[i].vote());
            i = i + 1;
        }
        votes
    }

    /// Replace the shared vote vector wholesale.
    fn set_new_network_state(&mut self, new_network_state: NetworkState)
        ensures
            final(self).network_state == new_network_state,
            final(self).nodes == old(self).nodes,
            final(self).master_omniscient == old(self).master_omniscient,
            final(self).settings == old(self).settings,
    {
        self.network_state = new_network_state;
    }

    /// Write one node's vote to its own slot.
    fn update_single_network_state_vote(&mut self, id: usize, vote: Option<Vote<NoTx>>)
        requires
            id < old(self).network_state@.len(),
        ensures
            final(self).network_state@ == old(self).network_state@.update(id as int, vote),
            final(self).nodes == old(self).nodes,
            final(self).master_omniscient == old(self).master_omniscient,
            final(self).settings == old(self).settings,
    {
        self.network_state.set(id, vote);
    }

    /// A snapshot of the state the wards judge.
    fn snapshot_state(&self, iteration: usize, round: usize) -> (r: SimulationState)
        ensures
            r.network_state@ == self.network_state@,
            r.decisions@.len() == self.nodes@.len(),
            forall|i: int|
                0 <= i < r.decisions@.len() ==> #[trigger] r.decisions@[i]
                    == self.nodes@[i].decision_spec(),
            r.iteration == iteration,
            r.round == round,
    {
        let mut network_state: NetworkState = Vec::new();
        let mut i: usize = 0;
        while i < self.network_state.len()
            invariant
                i <= self.network_state@.len(),
                network_state@ == self.network_state@.take(i as int),
            decreases self.network_state@.len() - i,
        {
            network_state.push(self.network_state[i]);
            proof {
                assert(network_state@ =~= self.network_state@.take(i + 1 as int));
            }
            i = i + 1;
        }
        proof {
            assert(self.network_state@.take(self.network_state@.len() as int)
                =~= self.network_state@);
        }
        let mut decisions: Vec<crate::vote::Decision<NoTx>> = Vec::new();
        let mut k: usize = 0;
        while k < self.nodes.len()
            invariant
                k <= self.nodes@.len(),
                decisions@.len() == k,
                forall|j: int|
                    0 <= j < k ==> #[trigger] decisions@[j] == self.nodes@[j].decision_spec(),
            decreases self.nodes@.len() - k,
        {
            decisions.push(self.nodes[k].decision());
            k = k + 1;
        }
        SimulationState { network_state, decisions, iteration, round }
    }

    /// Append one output record per node for this recorded point: one whole
    /// recorded block.
    pub fn dump_state_to_out_data(
        &self,
        simulation_state: &SimulationState,
        out_data: &mut Vec<OutData>,
    )
        requires
            nodes_wf(self.nodes@),
        ensures
            final(out_data)@.len() == old(out_data)@.len() + self.nodes@.len(),
            forall|j: int|
                0 <= j < old(out_data)@.len() ==> #[trigger] final(out_data)@[j]
                    == old(out_data)@[j],
            forall|j: int|
                0 <= j < self.nodes@.len() ==> records_node(
                    #[trigger] final(out_data)@[old(out_data)@.len() + j],
                    self.nodes@[j],
                    simulation_state.iteration as u64,
                    simulation_state.round as u64,
                ),
            records_block(
                final(out_data)@.skip(old(out_data)@.len() as int),
                self.nodes@.len() as nat,
            ),
    {
        let iteration = simulation_state.iteration as u64;
        let round = simulation_state.round as u64;
        let ghost base = out_data@.len();
        let mut i: usize = 0;
        while i < self.nodes.len()
            invariant
                i <= self.nodes@.len(),
                out_data@.len() == base + i,
                forall|j: int| 0 <= j < base ==> #[trigger] out_data@[j] == old(out_data)@[j],
                forall|j: int|
                    0 <= j < i ==> records_node(
                        #[trigger] out_data@[base + j],
                        self.nodes@[j],
                        iteration,
                        round,
                    ),
                iteration == simulation_state.iteration as u64,
                round == simulation_state.round as u64,
            decreases self.nodes@.len() - i,
        {
            let record = record_for_node(&self.nodes[i], iteration, round);
            out_data.push(record);
            i = i + 1;
        }
        proof {
            let block = out_data@.skip(base as int);
            assert forall|j: int| 0 <= j < block.len() implies {
                let record = #[trigger] block[j];
                &&& record.id == j as u64
                &&& record.iteration == block[0].iteration
                &&& record.round == block[0].round
                &&& exists|node: Node|
                    node.id_spec() == j && #[trigger] records_node(
                        record,
                        node,
                        block[0].iteration,
                        block[0].round,
                    )
            } by {
                assert(block[j] == out_data@[base + j]);
                assert(block[0] == out_data@[base + (0 as int)]);
                assert(records_node(out_data@[base + j], self.nodes@[j], iteration, round));
                assert(records_node(out_data@[base + (0 as int)], self.nodes@[0], iteration, round));
                assert(self.nodes@[j].id_spec() == j);
                assert(records_node(block[j], self.nodes@[j], block[0].iteration, block[0].round));
            }
        }
    }

    /// Ask every ward whether the run should stop; true when any fires.
    pub fn check_wards(&mut self, state: &SimulationState) -> (r: bool)
        requires
            forall|i: int|
                0 <= i < old(self).settings.wards@.len()
                    ==> (#[trigger] old(self).settings.wards@[i]).wf(),
        ensures
            final(self).settings.wards@.len() == old(self).settings.wards@.len(),
            forall|i: int|
                0 <= i < final(self).settings.wards@.len()
                    ==> (#[trigger] final(self).settings.wards@[i]).wf(),
            r == exists|i: int|
                0 <= i < old(self).settings.wards@.len()
                    && (#[trigger] old(self).settings.wards@[i]).fires(state),
            final(self).nodes == old(self).nodes,
            final(self).network_state == old(self).network_state,
            final(self).master_omniscient == old(self).master_omniscient,
            final(self).settings.consensus_settings == old(self).settings.consensus_settings,
            final(self).settings.distribution == old(self).settings.distribution,
            final(self).settings.byzantine_settings == old(self).settings.byzantine_settings,
            final(self).settings.network_modifiers == old(self).settings.network_modifiers,
            final(self).settings.simulation_style == old(self).settings.simulation_style,
            final(self).settings.seed == old(self).settings.seed,
    {
        let ghost wards0 = self.settings.wards@;
        let mut fired = false;
        let mut i: usize = 0;
        while i < self.settings.wards.len()
            invariant
                i <= wards0.len(),
                self.settings.wards@.len() == wards0.len(),
                forall|k: int|
                    i <= k < wards0.len() ==> #[trigger] self.settings.wards@[k] == wards0[k],
                forall|k: int|
                    0 <= k < wards0.len() ==> (#[trigger] self.settings.wards@[k]).wf(),
                fired == exists|k: int| 0 <= k < i && (#[trigger] wards0[k]).fires(state),
                self.nodes == old(self).nodes,
                self.network_state == old(self).network_state,
                self.master_omniscient == old(self).master_omniscient,
                self.settings.consensus_settings == old(self).settings.consensus_settings,
                self.settings.distribution == old(self).settings.distribution,
                self.settings.byzantine_settings == old(self).settings.byzantine_settings,
                self.settings.network_modifiers == old(self).settings.network_modifiers,
                self.settings.simulation_style == old(self).settings.simulation_style,
                self.settings.seed == old(self).settings.seed,
            decreases wards0.len() - i,
        {
            let ward = &mut self.settings.wards[i];
            let ward_fired = ward.analyze(state);
            proof {
                if ward_fired {
                    assert(wards0[i as int].fires(state));
                }
            }
            fired = fired || ward_fired;
            i = i + 1;
        }
        fired
    }

    /// Run every configured network modifier over the shared vote vector.
    pub fn run_network_behaviour_modifiers(&mut self)
        ensures
            final(self).network_state@.len() == old(self).network_state@.len(),
            forall|j: int|
                0 <= j < final(self).network_state@.len()
                    ==> #[trigger] final(self).network_state@[j]
                        == old(self).network_state@[j]
                        || final(self).network_state@[j] is None,
            final(self).nodes == old(self).nodes,
            final(self).master_omniscient == old(self).master_omniscient,
            final(self).settings == old(self).settings,
    {
        let mut i: usize = 0;
        while i < self.settings.network_modifiers.len()
            invariant
                self.network_state@.len() == old(self).network_state@.len(),
                forall|j: int|
                    0 <= j < self.network_state@.len() ==> #[trigger] self.network_state@[j]
                        == old(self).network_state@[j] || self.network_state@[j] is None,
                self.nodes == old(self).nodes,
                self.master_omniscient == old(self).master_omniscient,
                self.settings == old(self).settings,
            decreases self.settings.network_modifiers@.len() - i,
        {
            let modifier = self.settings.network_modifiers[i];
            match modifier {
                NetworkModifiers::RandomDrop(behaviour) => {
                    behaviour.drop_votes(&mut self.network_state, &mut self.rng);
                },
            }
            i = i + 1;
        }
    }

    /// Step the coordinated adversary, when present: it writes its chosen
    /// vote into every puppet slot, and the puppet nodes adopt its
    /// decision.
    fn step_master(&mut self)
        requires
            old(self).wf(),
            votes_match(old(self).network_state@, old(self).nodes@),
        ensures
            final(self).wf(),
            votes_match(final(self).network_state@, final(self).nodes@),
            decisions_preserved(old(self).nodes@, final(self).nodes@),
            kinds_preserved(old(self).nodes@, final(self).nodes@),
            final(self).nodes@.len() == old(self).nodes@.len(),
            final(self).network_state@.len() == old(self).network_state@.len(),
            final(self).settings == old(self).settings,
            final(self).master_omniscient is Some <==> old(self).master_omniscient is Some,
    {
        let ghost nodes0 = self.nodes@;
        let ghost net0 = self.network_state@;
        if let Some(master) = &mut self.master_omniscient {
            let ghost m_before = *master;
            proof {
                assert(old(self).master_omniscient == Some(m_before));
            }
            master.step(&mut self.network_state);
            let decision = master.decision();
            let ghost m = *master;
            let ghost choice = crate::node::master_choice(net0, m_before.honest_nodes_ids@);
            proof {
                assert(m.omniscient_nodes_ids@ == m_before.omniscient_nodes_ids@);
                assert(decision == crate::vote::Decision::<NoTx>::Undecided(choice));
            }
            let mut i: usize = 0;
            while i < self.nodes.len()
                invariant
                    i <= self.nodes@.len(),
                    self.nodes@.len() == nodes0.len(),
                    !decision.is_decided(),
                    decision.opinion_spec() == choice,
                    self.master_omniscient matches Some(mm) && mm == m,
                    m.wf(),
                    self.settings == old(self).settings,
                    self.network_state@.len() == net0.len(),
                    net0.len() == nodes0.len(),
                    forall|j: int|
                        0 <= j < net0.len() ==> #[trigger] self.network_state@[j]
                            == if m.omniscient_nodes_ids@.contains(j as usize) {
                                choice.to_vote_spec()
                            } else {
                                net0[j]
                            },
                    votes_match(net0, nodes0),
                    forall|k: int|
                        0 <= k < m.honest_nodes_ids@.len()
                            ==> (#[trigger] m.honest_nodes_ids@[k]) < nodes0.len(),
                    forall|j: int|
                        0 <= j < nodes0.len()
                            ==> (m.omniscient_nodes_ids@.contains(j as usize)
                                <==> (#[trigger] nodes0[j]).kind_spec() == NodeKind::Omniscient),
                    forall|j: int|
                        0 <= j < nodes0.len() ==> (#[trigger] self.nodes@[j]).wf()
                            && self.nodes@[j].id_spec() == nodes0[j].id_spec()
                            && self.nodes@[j].kind_spec() == nodes0[j].kind_spec(),
                    forall|j: int|
                        0 <= j < i ==> #[trigger] self.nodes@[j] == if nodes0[j].kind_spec()
                            == NodeKind::Omniscient {
                            sync_puppet_result(nodes0[j], decision)
                        } else {
                            nodes0[j]
                        },
                    forall|j: int| i <= j < nodes0.len() ==> #[trigger] self.nodes@[j] == nodes0[j],
                decreases self.nodes@.len() - i,
            {
                let node = &mut self.nodes[i];
                let ghost before = *node;
                node.sync_puppet(decision);
                proof {
                    if before.kind_spec() == NodeKind::Omniscient {
                        assert(self.nodes@[i as int].decision_spec() == decision);
                        assert(self.nodes@[i as int] == sync_puppet_result(before, decision));
                    } else {
                        assert(self.nodes@[i as int] == before);
                    }
                }
                i = i + 1;
            }
            proof {
                assert forall|j: int|
                    0 <= j < self.network_state@.len()
                        && (#[trigger] self.network_state@[j]) is Some
                    implies self.network_state@[j]
                        == self.nodes@[j].decision_spec().to_vote_spec() by {
                    if m.omniscient_nodes_ids@.contains(j as usize) {
                        assert(nodes0[j].kind_spec() == NodeKind::Omniscient);
                        assert(self.nodes@[j] == sync_puppet_result(nodes0[j], decision));
                        assert(self.nodes@[j].decision_spec() == decision);
                    } else {
                        assert(self.network_state@[j] == net0[j]);
                        assert(self.nodes@[j] == nodes0[j]);
                    }
                }
            }
        }
    }
}

impl SimulationRunner {
    /// Step the adversary, then every node against the adversary-updated
    /// votes, and collect the votes they publish afterwards.
    fn run_step(&mut self) -> (r: NetworkState)
        requires
            old(self).wf(),
            votes_match(old(self).network_state@, old(self).nodes@),
        ensures
            final(self).wf(),
            decisions_preserved(old(self).nodes@, final(self).nodes@),
            kinds_preserved(old(self).nodes@, final(self).nodes@),
            final(self).nodes@.len() == old(self).nodes@.len(),
            final(self).network_state@.len() == old(self).network_state@.len(),
            final(self).settings == old(self).settings,
            r@.len() == final(self).nodes@.len(),
            forall|i: int|
                0 <= i < r@.len() ==> #[trigger] r@[i]
                    == final(self).nodes@[i].decision_spec().to_vote_spec(),
    {
        self.step_master();
        let ghost mid = self.nodes@;
        let mut i: usize = 0;
        while i < self.nodes.len()
            invariant
                i <= self.nodes@.len(),
                self.nodes@.len() == mid.len(),
                self.network_state@.len() == mid.len(),
                nodes_wf(self.nodes@),
                self.master_wf(),
                kinds_preserved(mid, self.nodes@),
                decisions_preserved(mid, self.nodes@),
                self.settings == old(self).settings,
                forall|j: int| i <= j < mid.len() ==> #[trigger] self.nodes@[j] == mid[j],
            decreases self.nodes@.len() - i,
        {
            let ghost pre = self.nodes@;
            let node = &mut self.nodes[i];
            node.step(&self.network_state);
            proof {
                assert forall|j: int|
                    0 <= j < mid.len() && (#[trigger] mid[j]).decision_spec().is_decided()
                    implies self.nodes@[j].decision_spec() == mid[j].decision_spec() by {
                    if j != i {
                        assert(self.nodes@[j] == pre[j]);
                    }
                }
            }
            i = i + 1;
        }
        proof {
            lemma_decisions_preserved_trans(old(self).nodes@, mid, self.nodes@);
        }
        self.collect_votes()
    }

    /// Run one full synchronous step: every node steps against the same
    /// vote vector, and the votes they publish afterwards replace it.
    pub fn step(&mut self)
        requires
            old(self).wf(),
            votes_match(old(self).network_state@, old(self).nodes@),
        ensures
            final(self).wf(),
            votes_match(final(self).network_state@, final(self).nodes@),
            decisions_preserved(old(self).nodes@, final(self).nodes@),
            kinds_preserved(old(self).nodes@, final(self).nodes@),
            final(self).nodes@.len() == old(self).nodes@.len(),
            final(self).network_state@.len() == old(self).network_state@.len(),
            final(self).settings == old(self).settings,
    {
        let new_network_state = self.run_step();
        self.set_new_network_state(new_network_state);
    }

    /// Synchronous discipline: every node steps every iteration against the
    /// previous iteration's votes, until a ward fires.
    fn simulate_sync(&mut self, out_data: &mut Vec<OutData>)
        requires
            old(self).wf(),
            votes_match(old(self).network_state@, old(self).nodes@),
        ensures
            final(self).wf(),
            votes_match(final(self).network_state@, final(self).nodes@),
            decisions_preserved(old(self).nodes@, final(self).nodes@),
            final(self).nodes@.len() == old(self).nodes@.len(),
            final(self).network_state@.len() == old(self).network_state@.len(),
            final(out_data)@.len() >= old(out_data)@.len(),
            forall|j: int|
                0 <= j < old(out_data)@.len() ==> #[trigger] final(out_data)@[j]
                    == old(out_data)@[j],
            recorded_blocks(
                final(out_data)@.skip(old(out_data)@.len() as int),
                old(self).nodes@.len() as nat,
            ),
    {
        let state = self.snapshot_state(0, 0);
        let ghost out_before = out_data@;
        self.dump_state_to_out_data(&state, out_data);
            proof {
                let base = old(out_data)@.len() as int;
                let n = old(self).nodes@.len() as nat;
                if n == 0 {
                    assert(out_data@.skip(base) =~= out_before.skip(base));
                } else {
                    lemma_recorded_blocks_append(
                        out_before.skip(base),
                        out_data@.skip(out_before.len() as int),
                        n,
                    );
                    assert(out_data@.skip(base) =~= out_before.skip(base) + out_data@.skip(
                        out_before.len() as int,
                    ));
                }
            }
        let mut i: usize = 1;
        loop
            invariant
                1 <= i,
                self.wf(),
                votes_match(self.network_state@, self.nodes@),
                decisions_preserved(old(self).nodes@, self.nodes@),
                self.nodes@.len() == old(self).nodes@.len(),
                self.network_state@.len() == old(self).network_state@.len(),
                out_data@.len() >= old(out_data)@.len(),
                forall|j: int|
                    0 <= j < old(out_data)@.len() ==> #[trigger] out_data@[j]
                        == old(out_data)@[j],
                recorded_blocks(
                    out_data@.skip(old(out_data)@.len() as int),
                    old(self).nodes@.len() as nat,
                ),
            decreases usize::MAX - i,
        {
            let ghost before = self.nodes@;
            self.step();
            proof {
                lemma_decisions_preserved_trans(old(self).nodes@, before, self.nodes@);
            }
            let state = self.snapshot_state(i, i);
            let ghost out_before = out_data@;
            self.dump_state_to_out_data(&state, out_data);
            proof {
                let base = old(out_data)@.len() as int;
                let n = old(self).nodes@.len() as nat;
                if n == 0 {
                    assert(out_data@.skip(base) =~= out_before.skip(base));
                } else {
                    lemma_recorded_blocks_append(
                        out_before.skip(base),
                        out_data@.skip(out_before.len() as int),
                        n,
                    );
                    assert(out_data@.skip(base) =~= out_before.skip(base) + out_data@.skip(
                        out_before.len() as int,
                    ));
                }
            }
            if self.check_wards(&state) {
                break;
            }
            self.run_network_behaviour_modifiers();
            if i == usize::MAX {
                break;
            }
            i = i + 1;
        }
    }
}

impl SimulationRunner {
    /// Chunked-asynchronous discipline: each round visits the nodes in a
    /// fresh random order, cut into chunks; every chunk's votes become
    /// visible to the chunks after it.
    fn simulate_async(&mut self, chunk_size: usize, out_data: &mut Vec<OutData>)
        requires
            old(self).wf(),
            votes_match(old(self).network_state@, old(self).nodes@),
            chunk_size >= 1,
        ensures
            final(self).wf(),
            votes_match(final(self).network_state@, final(self).nodes@),
            decisions_preserved(old(self).nodes@, final(self).nodes@),
            final(self).nodes@.len() == old(self).nodes@.len(),
            final(self).network_state@.len() == old(self).network_state@.len(),
            final(out_data)@.len() >= old(out_data)@.len(),
            forall|j: int|
                0 <= j < old(out_data)@.len() ==> #[trigger] final(out_data)@[j]
                    == old(out_data)@[j],
            recorded_blocks(
                final(out_data)@.skip(old(out_data)@.len() as int),
                old(self).nodes@.len() as nat,
            ),
    {
        let mut node_ids: Vec<usize> = Vec::new();
        let mut t: usize = 0;
        while t < self.nodes.len()
            invariant
                t <= self.nodes@.len(),
                node_ids@.len() == t,
                forall|k: int| 0 <= k < t ==> #[trigger] node_ids@[k] == k,
            decreases self.nodes@.len() - t,
        {
            node_ids.push(t);
            t = t + 1;
        }
        let mut iteration: usize = 0;
        let mut round: usize = 0;
        let state0 = self.snapshot_state(0, 0);
        let ghost out_before = out_data@;
        self.dump_state_to_out_data(&state0, out_data);
        proof {
            let base = old(out_data)@.len() as int;
            let n = old(self).nodes@.len() as nat;
            if n == 0 {
                assert(out_data@.skip(base) =~= out_before.skip(base));
            } else {
                lemma_recorded_blocks_append(
                    out_before.skip(base),
                    out_data@.skip(out_before.len() as int),
                    n,
                );
                assert(out_data@.skip(base) =~= out_before.skip(base) + out_data@.skip(
                    out_before.len() as int,
                ));
            }
        }
        loop
            invariant
                self.wf(),
                votes_match(self.network_state@, self.nodes@),
                decisions_preserved(old(self).nodes@, self.nodes@),
                self.nodes@.len() == old(self).nodes@.len(),
                self.network_state@.len() == old(self).network_state@.len(),
                node_ids@.len() == self.nodes@.len(),
                forall|k: int| 0 <= k < node_ids@.len() ==> #[trigger] node_ids@[k]
                    < self.nodes@.len(),
                chunk_size >= 1,
                out_data@.len() >= old(out_data)@.len(),
                forall|j: int|
                    0 <= j < old(out_data)@.len() ==> #[trigger] out_data@[j]
                        == old(out_data)@[j],
                recorded_blocks(
                    out_data@.skip(old(out_data)@.len() as int),
                    old(self).nodes@.len() as nat,
                ),
            decreases usize::MAX - round,
        {
            let ghost ids_before = node_ids@;
            crate::rng::shuffle_ids(&mut self.rng, &mut node_ids);
            proof {
                assert forall|k: int| 0 <= k < node_ids@.len()
                    implies #[trigger] node_ids@[k] < self.nodes@.len() by {
                    assert(node_ids@.contains(node_ids@[k]));
                    assert(ids_before.contains(node_ids@[k]));
                    let j = choose|j: int| 0 <= j < ids_before.len() && ids_before[j]
                        == node_ids@[k];
                    assert(ids_before[j] < self.nodes@.len());
                }
            }
            let mut start: usize = 0;
            while start < node_ids.len()
                invariant
                    self.wf(),
                    votes_match(self.network_state@, self.nodes@),
                    decisions_preserved(old(self).nodes@, self.nodes@),
                    self.nodes@.len() == old(self).nodes@.len(),
                    self.network_state@.len() == old(self).network_state@.len(),
                    node_ids@.len() == self.nodes@.len(),
                    forall|k: int| 0 <= k < node_ids@.len() ==> #[trigger] node_ids@[k]
                        < self.nodes@.len(),
                    chunk_size >= 1,
                    out_data@.len() >= old(out_data)@.len(),
                    forall|j: int|
                        0 <= j < old(out_data)@.len() ==> #[trigger] out_data@[j]
                            == old(out_data)@[j],
                    recorded_blocks(
                        out_data@.skip(old(out_data)@.len() as int),
                        old(self).nodes@.len() as nat,
                    ),
                decreases node_ids@.len() - start,
            {
                let ghost before_chunk = self.nodes@;
                self.step_master();
                let ghost settings_mid = self.settings;
                let end = if node_ids.len() - start < chunk_size {
                    node_ids.len()
                } else {
                    start + chunk_size
                };
                let ghost mid = self.nodes@;
                let mut k: usize = start;
                while k < end
                    invariant
                        start <= k <= end,
                        end <= node_ids@.len(),
                        self.nodes@.len() == mid.len(),
                        self.network_state@.len() == mid.len(),
                        node_ids@.len() == mid.len(),
                        forall|q: int| 0 <= q < node_ids@.len() ==> #[trigger] node_ids@[q]
                            < mid.len(),
                        nodes_wf(self.nodes@),
                        self.master_wf(),
                        kinds_preserved(mid, self.nodes@),
                        decisions_preserved(mid, self.nodes@),
                        self.settings == settings_mid,
                        forall|w: int|
                            0 <= w < settings_mid.wards@.len()
                                ==> (#[trigger] settings_mid.wards@[w]).wf(),
                        settings_mid.simulation_style.wf(),
                    decreases end - k,
                {
                    let id = node_ids[k];
                    let ghost pre = self.nodes@;
                    let node = &mut self.nodes[id];
                    node.step(&self.network_state);
                    proof {
                        assert forall|j: int|
                            0 <= j < mid.len()
                                && (#[trigger] mid[j]).decision_spec().is_decided()
                            implies self.nodes@[j].decision_spec() == mid[j].decision_spec() by {
                            if j != id {
                                assert(self.nodes@[j] == pre[j]);
                            }
                        }
                    }
                    k = k + 1;
                }
                let votes = self.collect_votes();
                self.set_new_network_state(votes);
                proof {
                    lemma_decisions_preserved_trans(old(self).nodes@, before_chunk, mid);
                    lemma_decisions_preserved_trans(old(self).nodes@, mid, self.nodes@);
                }
                let state = self.snapshot_state(iteration, round);
                let ghost out_before = out_data@;
                self.dump_state_to_out_data(&state, out_data);
                proof {
                    let base = old(out_data)@.len() as int;
                    let n = old(self).nodes@.len() as nat;
                    if n == 0 {
                        assert(out_data@.skip(base) =~= out_before.skip(base));
                    } else {
                        lemma_recorded_blocks_append(
                            out_before.skip(base),
                            out_data@.skip(out_before.len() as int),
                            n,
                        );
                        assert(out_data@.skip(base) =~= out_before.skip(base) + out_data@.skip(
                            out_before.len() as int,
                        ));
                    }
                }
                if iteration < usize::MAX {
                    iteration = iteration + 1;
                }
                start = end;
            }
            if round == usize::MAX {
                break;
            }
            round = round + 1;
            let state = self.snapshot_state(iteration, round);
            if self.check_wards(&state) {
                break;
            }
            self.run_network_behaviour_modifiers();
        }
    }

    /// Glauber discipline: one uniformly chosen still-undecided node steps
    /// per iteration, its vote is written through, and the run stops when
    /// all nodes are decided, a ward fires, or the iteration bound is
    /// reached.
    fn simulate_glauber(
        &mut self,
        update_rate: usize,
        maximum_iterations: usize,
        out_data: &mut Vec<OutData>,
    )
        requires
            old(self).wf(),
            votes_match(old(self).network_state@, old(self).nodes@),
            update_rate >= 1,
        ensures
            final(self).wf(),
            votes_match(final(self).network_state@, final(self).nodes@),
            decisions_preserved(old(self).nodes@, final(self).nodes@),
            final(self).nodes@.len() == old(self).nodes@.len(),
            final(self).network_state@.len() == old(self).network_state@.len(),
            final(out_data)@.len() >= old(out_data)@.len(),
            forall|j: int|
                0 <= j < old(out_data)@.len() ==> #[trigger] final(out_data)@[j]
                    == old(out_data)@[j],
            recorded_blocks(
                final(out_data)@.skip(old(out_data)@.len() as int),
                old(self).nodes@.len() as nat,
            ),
    {
        let mut nodes_remaining: Vec<usize> = Vec::new();
        let mut t: usize = 0;
        while t < self.nodes.len()
            invariant
                t <= self.nodes@.len(),
                nodes_remaining@.len() == t,
                forall|k: int| 0 <= k < t ==> #[trigger] nodes_remaining@[k] == k,
            decreases self.nodes@.len() - t,
        {
            nodes_remaining.push(t);
            t = t + 1;
        }
        let mut it: usize = 0;
        while it < maximum_iterations
            invariant
                self.wf(),
                votes_match(self.network_state@, self.nodes@),
                decisions_preserved(old(self).nodes@, self.nodes@),
                self.nodes@.len() == old(self).nodes@.len(),
                self.network_state@.len() == old(self).network_state@.len(),
                forall|k: int| 0 <= k < nodes_remaining@.len()
                    ==> #[trigger] nodes_remaining@[k] < self.nodes@.len(),
                forall|a: int, b: int|
                    0 <= a < b < nodes_remaining@.len()
                        ==> #[trigger] nodes_remaining@[a] != #[trigger] nodes_remaining@[b],
                update_rate >= 1,
                it <= maximum_iterations,
                out_data@.len() >= old(out_data)@.len(),
                forall|j: int|
                    0 <= j < old(out_data)@.len() ==> #[trigger] out_data@[j]
                        == old(out_data)@[j],
                recorded_blocks(
                    out_data@.skip(old(out_data)@.len() as int),
                    old(self).nodes@.len() as nat,
                ),
            decreases maximum_iterations - it,
        {
            if nodes_remaining.len() == 0 {
                break;
            }
            let ghost before = self.nodes@;
            self.step_master();
            let pick = crate::rng::gen_index_below(&mut self.rng, nodes_remaining.len());
            let node_id = nodes_remaining[pick];
            let ghost mid = self.nodes@;
            let node = &mut self.nodes[node_id];
            node.step(&self.network_state);
            proof {
                assert forall|j: int|
                    0 <= j < mid.len() && (#[trigger] mid[j]).decision_spec().is_decided()
                    implies self.nodes@[j].decision_spec() == mid[j].decision_spec() by {
                    if j != node_id {
                        assert(self.nodes@[j] == mid.update(node_id as int, self.nodes@[node_id as int])[j]);
                    }
                }
                lemma_decisions_preserved_trans(old(self).nodes@, before, mid);
                lemma_decisions_preserved_trans(old(self).nodes@, mid, self.nodes@);
            }
            let decided = match self.nodes[node_id].decision() {
                crate::vote::Decision::Decided(_) => true,
                crate::vote::Decision::Undecided(_) => false,
            };
            if decided {
                let last = nodes_remaining.len() - 1;
                let last_value = nodes_remaining[last];
                nodes_remaining.set(pick, last_value);
                let _ = nodes_remaining.pop();
            }
            let vote = self.nodes[node_id].vote();
            self.update_single_network_state_vote(node_id, vote);
            let state = self.snapshot_state(it, 0);
            if self.check_wards(&state) {
                break;
            }
            self.run_network_behaviour_modifiers();
            if (it + 1) % update_rate == 0 {
                let state = self.snapshot_state(it, 0);
                let ghost out_before = out_data@;
                self.dump_state_to_out_data(&state, out_data);
                proof {
                    let base = old(out_data)@.len() as int;
                    let n = old(self).nodes@.len() as nat;
                    if n == 0 {
                        assert(out_data@.skip(base) =~= out_before.skip(base));
                    } else {
                        lemma_recorded_blocks_append(
                            out_before.skip(base),
                            out_data@.skip(out_before.len() as int),
                            n,
                        );
                        assert(out_data@.skip(base) =~= out_before.skip(base) + out_data@.skip(
                            out_before.len() as int,
                        ));
                    }
                }
            }
            it = it + 1;
        }
    }
}

/// All node ids held by a window of layers are below the population size.
pub open spec fn layers_in_range(layers: Seq<Seq<usize>>, len: int) -> bool {
    forall|l: int, k: int|
        0 <= l < layers.len() && 0 <= k < layers[l].len() ==> #[trigger] layers[l][k] < len
}

/// The layers hold sets of node ids: no id twice within a layer, and no id
/// in two layers, so a node sits in exactly one layer at a time.
pub open spec fn layers_distinct(layers: Seq<Seq<usize>>) -> bool {
    &&& forall|l: int, a: int, b: int|
        0 <= l < layers.len() && 0 <= a < b < layers[l].len() ==> #[trigger] layers[l][a]
            != #[trigger] layers[l][b]
    &&& forall|l1: int, l2: int, a: int, b: int|
        0 <= l1 < layers.len() && 0 <= l2 < layers.len() && l1 != l2 && 0 <= a < layers[l1].len()
            && 0 <= b < layers[l2].len() ==> #[trigger] layers[l1][a] != #[trigger] layers[l2][b]
}

impl SimulationRunner {
    /// Layered discipline: a sliding window of `gap + 1` layers of node
    /// ids, disjoint sets that each node passes through one layer at a
    /// time. Each iteration picks a non-empty layer by weight, steps one
    /// uniformly chosen node from it, and moves the node to the next layer
    /// if it is still undecided; an emptied front layer slides the window
    /// and closes a round. When the non-empty selectable layers all carry
    /// zero weight, no layer can be picked and the run ends.
    fn simulate_layered(&mut self, gap: usize, weights: Vec<u32>, out_data: &mut Vec<OutData>)
        requires
            old(self).wf(),
            votes_match(old(self).network_state@, old(self).nodes@),
            gap >= 1,
            gap < usize::MAX,
            weights@.len() >= gap,
            crate::settings::weights_total(weights@, gap as int) <= u32::MAX,
        ensures
            final(self).wf(),
            votes_match(final(self).network_state@, final(self).nodes@),
            decisions_preserved(old(self).nodes@, final(self).nodes@),
            final(self).nodes@.len() == old(self).nodes@.len(),
            final(self).network_state@.len() == old(self).network_state@.len(),
            final(out_data)@.len() >= old(out_data)@.len(),
            forall|j: int|
                0 <= j < old(out_data)@.len() ==> #[trigger] final(out_data)@[j]
                    == old(out_data)@[j],
            recorded_blocks(
                final(out_data)@.skip(old(out_data)@.len() as int),
                old(self).nodes@.len() as nat,
            ),
    {
        let mut deque = crate::deque::layer_deque_new(gap + 1);
        let mut first_layer: Vec<usize> = Vec::new();
        let mut t: usize = 0;
        while t < self.nodes.len()
            invariant
                t <= self.nodes@.len(),
                first_layer@.len() == t,
                forall|k: int| 0 <= k < t ==> #[trigger] first_layer@[k] == k,
            decreases self.nodes@.len() - t,
        {
            first_layer.push(t);
            t = t + 1;
        }
        let _ = crate::deque::layer_deque_try_push_back(&mut deque, first_layer);
        let mut filled: usize = 1;
        while filled < gap + 1
            invariant
                gap < usize::MAX,
                1 <= filled <= gap + 1,
                crate::deque::layer_deque_capacity(deque) == gap + 1,
                crate::deque::layer_deque_seq(deque).len() == filled,
                layers_in_range(crate::deque::layer_deque_seq(deque), self.nodes@.len() as int),
                layers_distinct(crate::deque::layer_deque_seq(deque)),
            decreases gap + 1 - filled,
        {
            let _ = crate::deque::layer_deque_try_push_back(&mut deque, Vec::new());
            filled = filled + 1;
        }
        let mut iteration: usize = 0;
        let mut round: usize = 0;
        loop
            invariant
                self.wf(),
                votes_match(self.network_state@, self.nodes@),
                decisions_preserved(old(self).nodes@, self.nodes@),
                self.nodes@.len() == old(self).nodes@.len(),
                self.network_state@.len() == old(self).network_state@.len(),
                crate::deque::layer_deque_capacity(deque) == gap + 1,
                crate::deque::layer_deque_seq(deque).len() == gap + 1,
                layers_in_range(crate::deque::layer_deque_seq(deque), self.nodes@.len() as int),
                layers_distinct(crate::deque::layer_deque_seq(deque)),
                gap >= 1,
                gap < usize::MAX,
                weights@.len() >= gap,
                crate::settings::weights_total(weights@, gap as int) <= u32::MAX,
                out_data@.len() >= old(out_data)@.len(),
                forall|j: int|
                    0 <= j < old(out_data)@.len() ==> #[trigger] out_data@[j]
                        == old(out_data)@[j],
                recorded_blocks(
                    out_data@.skip(old(out_data)@.len() as int),
                    old(self).nodes@.len() as nat,
                ),
            decreases usize::MAX - iteration,
        {
            let ghost before = self.nodes@;
            self.step_master();
            let mut candidates: Vec<(usize, u32)> = Vec::new();
            let mut total_weight: u64 = 0;
            let mut l: usize = 0;
            while l < gap
                invariant
                    l <= gap,
                    weights@.len() >= gap,
                    crate::settings::weights_total(weights@, gap as int) <= u32::MAX,
                    crate::deque::layer_deque_seq(deque).len() == gap + 1,
                    total_weight == crate::rng::sum_weights(candidates@),
                    total_weight <= crate::settings::weights_total(weights@, l as int),
                    forall|j: int|
                        0 <= j < candidates@.len() ==> (#[trigger] candidates@[j]).0 < gap
                            && crate::deque::layer_deque_seq(deque)[candidates@[j].0 as int].len()
                            > 0,
                decreases gap - l,
            {
                proof {
                    crate::settings::lemma_weights_total_monotone(weights@, l as int, gap as int);
                }
                let layer = crate::deque::layer_deque_get(&deque, l);
                if layer.len() > 0 {
                    let ghost pre = candidates@;
                    let weight = weights[l];
                    candidates.push((l, weight));
                    proof {
                        assert(candidates@.drop_last() =~= pre);
                        assert(candidates@.last() == (l, weight));
                    }
                    total_weight = total_weight + weight as u64;
                }
                l = l + 1;
            }
            proof {
                crate::settings::lemma_weights_total_monotone(weights@, l as int, gap as int);
            }
            if candidates.len() == 0 || total_weight == 0 {
                break;
            }
            let layer_index = crate::rng::choose_weighted_id(&mut self.rng, &candidates);
            proof {
                let j = choose|j: int|
                    0 <= j < candidates@.len() && (#[trigger] candidates@[j]).0 == layer_index;
                assert(layer_index < gap);
                assert(crate::deque::layer_deque_seq(deque)[layer_index as int].len() > 0);
            }
            let mut layer = crate::deque::layer_deque_get(&deque, layer_index);
            let pick = crate::rng::gen_index_below(&mut self.rng, layer.len());
            let node_id = layer[pick];
            let last = layer.len() - 1;
            let last_value = layer[last];
            layer.set(pick, last_value);
            let _ = layer.pop();
            let ghost layers_before = crate::deque::layer_deque_seq(deque);
            let ghost layer_before = layers_before[layer_index as int];
            crate::deque::layer_deque_set(&mut deque, layer_index, layer);
            proof {
                let layers = crate::deque::layer_deque_seq(deque);
                let n = self.nodes@.len() as int;
                assert forall|l2: int, k: int|
                    0 <= l2 < layers.len() && 0 <= k < layers[l2].len()
                    implies #[trigger] layers[l2][k] < n by {
                    if l2 == layer_index {
                        assert(layers[l2][k] == layer_before.update(
                            pick as int,
                            layer_before[last as int],
                        ).drop_last()[k]);
                    } else {
                        assert(layers[l2] == layers_before[l2]);
                    }
                }
                assert forall|k: int| 0 <= k < layers[layer_index as int].len()
                    implies exists|q: int|
                        0 <= q < layer_before.len() && q != pick as int
                            && #[trigger] layers[layer_index as int][k] == layer_before[q] by {
                    let shifted = layer_before.update(pick as int, layer_before[last as int]);
                    assert(layers[layer_index as int][k] == shifted.drop_last()[k]);
                    if k == pick as int {
                        assert((pick as int) < (last as int));
                        assert(layers[layer_index as int][k] == layer_before[last as int]);
                    } else {
                        assert(layers[layer_index as int][k] == layer_before[k]);
                    }
                }
                assert forall|l: int, a: int, b: int|
                    0 <= l < layers.len() && 0 <= a < b < layers[l].len()
                    implies #[trigger] layers[l][a] != #[trigger] layers[l][b] by {
                    if l != layer_index {
                        assert(layers[l] == layers_before[l]);
                    } else {
                        let qa = choose|q: int|
                            0 <= q < layer_before.len() && q != pick as int && layers[l][a]
                                == layer_before[q];
                        let qb = choose|q: int|
                            0 <= q < layer_before.len() && q != pick as int && layers[l][b]
                                == layer_before[q];
                        let shifted = layer_before.update(pick as int, layer_before[last as int]);
                        assert(layers[l][a] == shifted.drop_last()[a]);
                        assert(layers[l][b] == shifted.drop_last()[b]);
                        if a == pick as int {
                            assert(layers[l][a] == layer_before[last as int]);
                            assert(layers[l][b] == layer_before[b]);
                            assert(b < last as int);
                        } else if b == pick as int {
                            assert(layers[l][b] == layer_before[last as int]);
                            assert(layers[l][a] == layer_before[a]);
                            assert(a < last as int);
                        } else {
                            assert(layers[l][a] == layer_before[a]);
                            assert(layers[l][b] == layer_before[b]);
                        }
                    }
                }
                assert forall|l1: int, l2: int, a: int, b: int|
                    0 <= l1 < layers.len() && 0 <= l2 < layers.len() && l1 != l2 && 0 <= a
                        < layers[l1].len() && 0 <= b < layers[l2].len()
                    implies #[trigger] layers[l1][a] != #[trigger] layers[l2][b] by {
                    if l1 == layer_index {
                        let q = choose|q: int|
                            0 <= q < layer_before.len() && q != pick as int && layers[l1][a]
                                == layer_before[q];
                        assert(layers[l2][b] == layers_before[l2][b]);
                        assert(layers_before[layer_index as int][q] != layers_before[l2][b]);
                    } else if l2 == layer_index {
                        let q = choose|q: int|
                            0 <= q < layer_before.len() && q != pick as int && layers[l2][b]
                                == layer_before[q];
                        assert(layers[l1][a] == layers_before[l1][a]);
                        assert(layers_before[layer_index as int][q] != layers_before[l1][a]);
                    } else {
                        assert(layers[l1] == layers_before[l1]);
                        assert(layers[l2] == layers_before[l2]);
                    }
                }
                assert forall|l: int, k: int|
                    0 <= l < layers.len() && 0 <= k < layers[l].len()
                    implies #[trigger] layers[l][k] != node_id by {
                    if l == layer_index {
                        let q = choose|q: int|
                            0 <= q < layer_before.len() && q != pick as int && layers[l][k]
                                == layer_before[q];
                        assert(layer_before[q] != layer_before[pick as int]);
                    } else {
                        assert(layers[l][k] == layers_before[l][k]);
                        assert(layers_before[l][k] != layers_before[layer_index as int][pick as int]);
                    }
                }
            }
            let ghost mid = self.nodes@;
            let node = &mut self.nodes[node_id];
            node.step(&self.network_state);
            proof {
                assert forall|j: int|
                    0 <= j < mid.len() && (#[trigger] mid[j]).decision_spec().is_decided()
                    implies self.nodes@[j].decision_spec() == mid[j].decision_spec() by {
                    if j != node_id {
                        assert(self.nodes@[j] == mid.update(
                            node_id as int,
                            self.nodes@[node_id as int],
                        )[j]);
                    }
                }
                lemma_decisions_preserved_trans(old(self).nodes@, before, mid);
                lemma_decisions_preserved_trans(old(self).nodes@, mid, self.nodes@);
            }
            let decided = match self.nodes[node_id].decision() {
                crate::vote::Decision::Decided(_) => true,
                crate::vote::Decision::Undecided(_) => false,
            };
            if !decided {
                let mut next_layer = crate::deque::layer_deque_get(&deque, layer_index + 1);
                let ghost next_before = crate::deque::layer_deque_seq(deque);
                next_layer.push(node_id);
                crate::deque::layer_deque_set(&mut deque, layer_index + 1, next_layer);
                proof {
                    let layers = crate::deque::layer_deque_seq(deque);
                    let n = self.nodes@.len() as int;
                    let target = layer_index + 1 as int;
                    assert forall|l2: int, k: int|
                        0 <= l2 < layers.len() && 0 <= k < layers[l2].len()
                        implies #[trigger] layers[l2][k] < n by {
                        if l2 == layer_index + 1 {
                            assert(layers[l2] == next_before[l2].push(node_id));
                            if k < next_before[l2].len() {
                                assert(layers[l2][k] == next_before[l2][k]);
                            }
                        } else {
                            assert(layers[l2] == next_before[l2]);
                        }
                    }
                    assert forall|l: int, a: int, b: int|
                        0 <= l < layers.len() && 0 <= a < b < layers[l].len()
                        implies #[trigger] layers[l][a] != #[trigger] layers[l][b] by {
                        if l == target {
                            assert(layers[l] == next_before[l].push(node_id));
                            if b == layers[l].len() - 1 {
                                assert(layers[l][a] == next_before[l][a]);
                                assert(layers[l][b] == node_id);
                                assert(next_before[l][a] != node_id);
                            } else {
                                assert(layers[l][a] == next_before[l][a]);
                                assert(layers[l][b] == next_before[l][b]);
                            }
                        } else {
                            assert(layers[l] == next_before[l]);
                        }
                    }
                    assert forall|l1: int, l2: int, a: int, b: int|
                        0 <= l1 < layers.len() && 0 <= l2 < layers.len() && l1 != l2 && 0 <= a
                            < layers[l1].len() && 0 <= b < layers[l2].len()
                        implies #[trigger] layers[l1][a] != #[trigger] layers[l2][b] by {
                        if l1 == target {
                            assert(layers[l2] == next_before[l2]);
                            if a == layers[l1].len() - 1 {
                                assert(layers[l1][a] == node_id);
                                assert(next_before[l2][b] != node_id);
                            } else {
                                assert(layers[l1][a] == next_before[l1][a]);
                            }
                        } else if l2 == target {
                            assert(layers[l1] == next_before[l1]);
                            if b == layers[l2].len() - 1 {
                                assert(layers[l2][b] == node_id);
                                assert(next_before[l1][a] != node_id);
                            } else {
                                assert(layers[l2][b] == next_before[l2][b]);
                            }
                        } else {
                            assert(layers[l1] == next_before[l1]);
                            assert(layers[l2] == next_before[l2]);
                        }
                    }
                }
            }
            let vote = self.nodes[node_id].vote();
            self.update_single_network_state_vote(node_id, vote);
            let state = self.snapshot_state(iteration, round);
            if self.check_wards(&state) {
                break;
            }
            self.run_network_behaviour_modifiers();
            if iteration == usize::MAX {
                break;
            }
            iteration = iteration + 1;
            let front = crate::deque::layer_deque_get(&deque, 0);
            if front.len() == 0 {
                let ghost slide_before = crate::deque::layer_deque_seq(deque);
                crate::deque::layer_deque_push_back(&mut deque, Vec::new());
                proof {
                    let layers = crate::deque::layer_deque_seq(deque);
                    let n = self.nodes@.len() as int;
                    assert forall|l2: int, k: int|
                        0 <= l2 < layers.len() && 0 <= k < layers[l2].len()
                        implies #[trigger] layers[l2][k] < n by {
                        if l2 < layers.len() - 1 {
                            assert(layers[l2] == slide_before.drop_first()[l2]);
                            assert(layers[l2] == slide_before[l2 + 1]);
                        }
                    }
                    assert forall|l: int, a: int, b: int|
                        0 <= l < layers.len() && 0 <= a < b < layers[l].len()
                        implies #[trigger] layers[l][a] != #[trigger] layers[l][b] by {
                        if l < layers.len() - 1 {
                            assert(layers[l] == slide_before[l + 1]);
                        }
                    }
                    assert forall|l1: int, l2: int, a: int, b: int|
                        0 <= l1 < layers.len() && 0 <= l2 < layers.len() && l1 != l2 && 0 <= a
                            < layers[l1].len() && 0 <= b < layers[l2].len()
                        implies #[trigger] layers[l1][a] != #[trigger] layers[l2][b] by {
                        if l1 < layers.len() - 1 && l2 < layers.len() - 1 {
                            assert(layers[l1] == slide_before[l1 + 1]);
                            assert(layers[l2] == slide_before[l2 + 1]);
                        } else if l1 == layers.len() - 1 {
                            assert(layers[l1].len() == 0);
                        } else {
                            assert(layers[l2].len() == 0);
                        }
                    }
                }
                let state = self.snapshot_state(iteration, round);
                let ghost out_before = out_data@;
                self.dump_state_to_out_data(&state, out_data);
                proof {
                    let base = old(out_data)@.len() as int;
                    let n = old(self).nodes@.len() as nat;
                    if n == 0 {
                        assert(out_data@.skip(base) =~= out_before.skip(base));
                    } else {
                        lemma_recorded_blocks_append(
                            out_before.skip(base),
                            out_data@.skip(out_before.len() as int),
                            n,
                        );
                        assert(out_data@.skip(base) =~= out_before.skip(base) + out_data@.skip(
                            out_before.len() as int,
                        ));
                    }
                }
                if round < usize::MAX {
                    round = round + 1;
                }
            }
            let mut all_empty = true;
            let mut q: usize = 0;
            while q < gap + 1
                invariant
                    gap < usize::MAX,
                    q <= gap + 1,
                    crate::deque::layer_deque_seq(deque).len() == gap + 1,
                decreases gap + 1 - q,
            {
                let layer_q = crate::deque::layer_deque_get(&deque, q);
                if layer_q.len() > 0 {
                    all_empty = false;
                }
                q = q + 1;
            }
            if all_empty {
                break;
            }
        }
        let state = self.snapshot_state(iteration, round);
        let ghost out_before = out_data@;
        self.dump_state_to_out_data(&state, out_data);
        proof {
            let base = old(out_data)@.len() as int;
            let n = old(self).nodes@.len() as nat;
            if n == 0 {
                assert(out_data@.skip(base) =~= out_before.skip(base));
            } else {
                lemma_recorded_blocks_append(
                    out_before.skip(base),
                    out_data@.skip(out_before.len() as int),
                    n,
                );
                assert(out_data@.skip(base) =~= out_before.skip(base) + out_data@.skip(
                    out_before.len() as int,
                ));
            }
        }
    }
}

/// What holds of a freshly built population: well-formed nodes sitting at
/// their own slots, a vote vector of the same length, and a coordinated
/// adversary that names only puppet slots.
pub open spec fn population_wf(
    nodes: Seq<Node>,
    net: Seq<Option<Vote<NoTx>>>,
    master: Option<MasterOmniscientNode>,
) -> bool {
    &&& nodes_wf(nodes)
    &&& net.len() == nodes.len()
    &&& match master {
        None => true,
        Some(m) => {
            &&& m.wf()
            &&& forall|k: int|
                0 <= k < m.honest_nodes_ids@.len()
                    ==> (#[trigger] m.honest_nodes_ids@[k]) < nodes.len()
            &&& forall|j: int|
                0 <= j < nodes.len()
                    ==> (m.omniscient_nodes_ids@.contains(j as usize)
                        <==> (#[trigger] nodes[j]).kind_spec() == NodeKind::Omniscient)
        },
    }
}

/// `round(ppm_value * total)`: the share of a population a ppm fraction
/// names, rounded to the nearest integer.
pub open spec fn rounded_share(total: int, ppm_value: int) -> int {
    (ppm_value * total + (crate::claro::PPM as int) / 2) / (crate::claro::PPM as int)
}

/// `floor(ppm_value * total)`: the share truncated.
pub open spec fn floor_share(total: int, ppm_value: int) -> int {
    (ppm_value * total) / (crate::claro::PPM as int)
}

/// The honest share of the population.
pub open spec fn honest_share(settings: SimulationSettings) -> int {
    rounded_share(
        settings.byzantine_settings.total_size as int,
        settings.byzantine_settings.distribution.honest as int,
    )
}

/// The contrarian share: its rounded part, clamped to what the honest
/// share leaves.
pub open spec fn infantile_share(settings: SimulationSettings) -> int {
    let total = settings.byzantine_settings.total_size as int;
    let part = rounded_share(total, settings.byzantine_settings.distribution.infantile as int);
    let room = total - honest_share(settings);
    if part < room { part } else { room }
}

/// The random share: its rounded part, clamped to what the earlier shares
/// leave.
pub open spec fn random_share(settings: SimulationSettings) -> int {
    let total = settings.byzantine_settings.total_size as int;
    let part = rounded_share(total, settings.byzantine_settings.distribution.random as int);
    let room = total - honest_share(settings) - infantile_share(settings);
    if part < room { part } else { room }
}

/// The omniscient share: its rounded part, clamped to what the earlier
/// shares leave.
pub open spec fn omniscient_share(settings: SimulationSettings) -> int {
    let total = settings.byzantine_settings.total_size as int;
    let part = rounded_share(total, settings.byzantine_settings.distribution.omniscient as int);
    let room = total - honest_share(settings) - infantile_share(settings) - random_share(
        settings,
    );
    if part < room { part } else { room }
}

/// How many nodes the builder creates: the four shares together.
pub open spec fn population_size(settings: SimulationSettings) -> int {
    honest_share(settings) + infantile_share(settings) + random_share(settings)
        + omniscient_share(settings)
}

/// `n` copies of one opinion.
pub open spec fn opinion_run(opinion: crate::vote::Opinion<NoTx>, n: int) -> Seq<
    crate::vote::Opinion<NoTx>,
> {
    Seq::new(n as nat, |i: int| opinion)
}

/// The initial opinions handed to the honest nodes, before they are dealt
/// out in random order: the floored `none`, `yes` and `no` parts in that
/// order, truncated at the honest share, padded with unformed opinions.
pub open spec fn initial_opinions(settings: SimulationSettings) -> Seq<
    crate::vote::Opinion<NoTx>,
> {
    let h = honest_share(settings);
    let part_none = floor_share(h, settings.distribution.none as int);
    let n_none = if part_none < h { part_none } else { h };
    let part_yes = floor_share(h, settings.distribution.yes as int);
    let n_yes = if part_yes < h - n_none { part_yes } else { h - n_none };
    let part_no = floor_share(h, settings.distribution.no as int);
    let n_no = if part_no < h - n_none - n_yes { part_no } else { h - n_none - n_yes };
    opinion_run(crate::vote::Opinion::NoneYet(NoTx), n_none)
        + opinion_run(crate::vote::Opinion::Yes(NoTx), n_yes)
        + opinion_run(crate::vote::Opinion::No(NoTx), n_no)
        + opinion_run(crate::vote::Opinion::NoneYet(NoTx), h - n_none - n_yes - n_no)
}

/// A freshly built honest node: the right solver for the settings, the
/// settings' own configuration, untouched counters, a query over the whole
/// population, and no decision yet.
pub open spec fn fresh_honest_node(
    node: Node,
    consensus_settings: crate::settings::ConsensusSettings,
    total_size: usize,
) -> bool {
    match (node, consensus_settings) {
        (Node::Snowball(n), crate::settings::ConsensusSettings::SnowBall(c)) => {
            &&& n.solver.configuration == c
            &&& n.solver.consecutive_success == 0
            &&& n.solver.node_query.node_size == total_size
            &&& !n.solver.decision.is_decided()
        },
        (Node::Claro(n), crate::settings::ConsensusSettings::Claro(c)) => {
            &&& n.solver.configuration == c
            &&& n.solver.state == (crate::claro::ClaroState {
                evidence: 0,
                evidence_accumulated: 0,
                confidence: 0,
            })
            &&& n.solver.node_query.node_size == total_size
            &&& !n.solver.decision.is_decided()
        },
        _ => false,
    }
}

/// The opinions the honest prefix of the population holds.
pub open spec fn honest_opinions(nodes: Seq<Node>, h: int) -> Seq<crate::vote::Opinion<NoTx>> {
    Seq::new(h as nat, |j: int| nodes[j].decision_spec().opinion_spec())
}

/// Everything the builder promises of the population it returns, beyond
/// `population_wf`: the four behaviour shares sit in slot order with their
/// exact sizes, the honest nodes are freshly configured from the settings
/// and hold the initial opinion distribution (as a multiset: they are dealt
/// out in random order), the adversary exists exactly when its share is
/// positive and names exactly the honest and puppet slot ranges, and the
/// vote vector is exactly what the nodes publish.
pub open spec fn built_population(
    settings: SimulationSettings,
    nodes: Seq<Node>,
    net: Seq<Option<Vote<NoTx>>>,
    master: Option<MasterOmniscientNode>,
) -> bool {
    let h = honest_share(settings);
    let inf = infantile_share(settings);
    let rnd = random_share(settings);
    let omn = omniscient_share(settings);
    &&& nodes.len() == population_size(settings)
    &&& net.len() == nodes.len()
    &&& forall|j: int|
        0 <= j < h ==> fresh_honest_node(
            #[trigger] nodes[j],
            settings.consensus_settings,
            settings.byzantine_settings.total_size,
        )
    &&& honest_opinions(nodes, h).to_multiset() == initial_opinions(settings).to_multiset()
    &&& forall|j: int| h <= j < h + inf ==> (#[trigger] nodes[j]).kind_spec() == NodeKind::Infantile
    &&& forall|j: int|
        h + inf <= j < h + inf + rnd ==> (#[trigger] nodes[j]).kind_spec() == NodeKind::Random
    &&& forall|j: int|
        h + inf + rnd <= j < nodes.len() ==> (#[trigger] nodes[j]).kind_spec()
            == NodeKind::Omniscient
    &&& (master is Some <==> omn > 0)
    &&& match master {
        None => true,
        Some(m) => {
            &&& m.node_id == usize::MAX
            &&& m.honest_nodes_ids@ =~= Seq::new(h as nat, |k: int| k as usize)
            &&& m.omniscient_nodes_ids@ =~= Seq::new(omn as nat, |k: int| (h + inf + rnd + k) as usize)
            &&& m.decision == crate::vote::Decision::<NoTx>::Undecided(
                crate::vote::Opinion::NoneYet(NoTx),
            )
        },
    }
    &&& forall|j: int|
        0 <= j < nodes.len() ==> #[trigger] net[j] == nodes[j].decision_spec().to_vote_spec()
}

/// `round(ppm_value * total)`: the share of a population a ppm fraction
/// names, rounded to the nearest integer.
fn rounded_part(total: usize, ppm_value: u32) -> (r: usize)
    requires
        ppm_value <= crate::claro::PPM,
    ensures
        r == (ppm_value * total + (crate::claro::PPM as int) / 2) / (crate::claro::PPM as int),
        r <= total,
{
    let ppm = crate::claro::PPM;
    proof {
        vstd::arithmetic::mul::lemma_mul_upper_bound(
            ppm_value as int,
            ppm as int,
            total as int,
            u64::MAX as int,
        );
        vstd::arithmetic::mul::lemma_mul_inequality(ppm_value as int, ppm as int, total as int);
        assert(((ppm as int) * (total as int) + (ppm as int) / 2) / (ppm as int) == total as int)
            by (nonlinear_arith)
            requires
                total >= 0,
                ppm == 1_000_000u64,
        ;
    }
    let scaled = (ppm_value as u128) * (total as u128) + ((ppm / 2) as u128);
    let part = scaled / (ppm as u128);
    proof {
        vstd::arithmetic::div_mod::lemma_div_is_ordered(
            scaled as int,
            (ppm as int) * (total as int) + (ppm as int) / 2,
            ppm as int,
        );
    }
    part as usize
}

/// `floor(ppm_value * total)`: the share of a population a ppm fraction
/// names, truncated.
fn floor_part(total: usize, ppm_value: u32) -> (r: usize)
    requires
        ppm_value <= crate::claro::PPM,
    ensures
        r == (ppm_value * total) / (crate::claro::PPM as int),
        r <= total,
{
    let ppm = crate::claro::PPM;
    proof {
        vstd::arithmetic::mul::lemma_mul_upper_bound(
            ppm_value as int,
            ppm as int,
            total as int,
            u64::MAX as int,
        );
        vstd::arithmetic::mul::lemma_mul_inequality(ppm_value as int, ppm as int, total as int);
        assert(((ppm as int) * (total as int)) / (ppm as int) == total as int)
            by (nonlinear_arith)
            requires
                total >= 0,
                ppm == 1_000_000u64,
        ;
    }
    let scaled = (ppm_value as u128) * (total as u128);
    let part = scaled / (ppm as u128);
    proof {
        vstd::arithmetic::div_mod::lemma_div_is_ordered(
            scaled as int,
            (ppm as int) * (total as int),
            ppm as int,
        );
    }
    part as usize
}

/// Append `count` copies of one opinion, but never past the capacity.
fn push_opinions(
    opinions: &mut Vec<crate::vote::Opinion<NoTx>>,
    opinion: crate::vote::Opinion<NoTx>,
    count: usize,
    capacity: usize,
)
    requires
        old(opinions)@.len() <= capacity,
    ensures
        final(opinions)@ == old(opinions)@ + opinion_run(
            opinion,
            if count as int <= capacity - old(opinions)@.len() {
                count as int
            } else {
                capacity - old(opinions)@.len()
            },
        ),
        final(opinions)@.len() <= capacity,
{
    let ghost appended: int = if count as int <= capacity - old(opinions)@.len() {
        count as int
    } else {
        capacity - old(opinions)@.len()
    };
    let mut c: usize = 0;
    while c < count
        invariant
            c <= count,
            opinions@.len() <= capacity,
            old(opinions)@.len() <= opinions@.len(),
            opinions@.len() == old(opinions)@.len() + if c as int <= appended {
                c as int
            } else {
                appended
            },
            forall|j: int| 0 <= j < old(opinions)@.len() ==> opinions@[j] == old(opinions)@[j],
            forall|j: int|
                old(opinions)@.len() <= j < opinions@.len() ==> opinions@[j] == opinion,
            appended == if count as int <= capacity - old(opinions)@.len() {
                count as int
            } else {
                capacity - old(opinions)@.len()
            },
        decreases count - c,
    {
        if opinions.len() < capacity {
            opinions.push(opinion);
        }
        c = c + 1;
    }
    proof {
        assert(opinions@ =~= old(opinions)@ + opinion_run(opinion, appended));
    }
}

impl SimulationRunner {
    /// The votes a population currently publishes, in slot order.
    pub fn network_state_from_nodes(nodes: &Vec<Node>) -> (r: NetworkState)
        ensures
            r@.len() == nodes@.len(),
            forall|i: int|
                0 <= i < r@.len() ==> #[trigger] r@[i]
                    == nodes@[i].decision_spec().to_vote_spec(),
    {
        let mut votes: NetworkState = Vec::new();
        let mut i: usize = 0;
        while i < nodes.len()
            invariant
                i <= nodes@.len(),
                votes@.len() == i,
                forall|k: int|
                    0 <= k < i ==> #[trigger] votes@[k]
                        == nodes@[k].decision_spec().to_vote_spec(),
            decreases nodes@.len() - i,
        {
            votes.push(nodes[i].vote());
            i = i + 1;
        }
        votes
    }

    /// Append one honest node per initial opinion, each node taking the
    /// next free slot as its id.
    fn build_honest_nodes(
        nodes: &mut Vec<Node>,
        opinions: &Vec<crate::vote::Opinion<NoTx>>,
        total_size: usize,
        consensus_settings: crate::settings::ConsensusSettings,
        rng: &mut SimRng,
    )
        requires
            consensus_settings.wf(),
            total_size < usize::MAX,
            total_size <= crate::claro::COUNT_CAP,
            old(nodes)@.len() + opinions@.len() <= usize::MAX,
        ensures
            final(nodes)@.len() == old(nodes)@.len() + opinions@.len(),
            forall|j: int| 0 <= j < old(nodes)@.len() ==> #[trigger] final(nodes)@[j]
                == old(nodes)@[j],
            forall|j: int|
                old(nodes)@.len() <= j < final(nodes)@.len() ==> {
                    let node = #[trigger] final(nodes)@[j];
                    &&& node.wf()
                    &&& node.id_spec() == j
                    &&& node.kind_spec() != NodeKind::Omniscient
                    &&& fresh_honest_node(node, consensus_settings, total_size)
                    &&& node.decision_spec() == crate::vote::Decision::<NoTx>::Undecided(
                        opinions@[j - old(nodes)@.len()],
                    )
                },
    {
        let ghost base = nodes@.len();
        let mut k: usize = 0;
        while k < opinions.len()
            invariant
                k <= opinions@.len(),
                nodes@.len() == base + k,
                base + opinions@.len() <= usize::MAX,
                consensus_settings.wf(),
                total_size < usize::MAX,
                total_size <= crate::claro::COUNT_CAP,
                forall|j: int| 0 <= j < base ==> #[trigger] nodes@[j] == old(nodes)@[j],
                forall|j: int|
                    base <= j < nodes@.len() ==> {
                        let node = #[trigger] nodes@[j];
                        &&& node.wf()
                        &&& node.id_spec() == j
                        &&& node.kind_spec() != NodeKind::Omniscient
                        &&& fresh_honest_node(node, consensus_settings, total_size)
                        &&& node.decision_spec() == crate::vote::Decision::<NoTx>::Undecided(
                            opinions@[j - base],
                        )
                    },
            decreases opinions@.len() - k,
        {
            let id = nodes.len();
            let opinion = opinions[k];
            let node_query = crate::query::NodeQuery::new(
                total_size,
                crate::query::node_id_string(id as u64),
            );
            let node = match consensus_settings {
                crate::settings::ConsensusSettings::SnowBall(config) => Node::new_snowball(
                    id,
                    crate::snowball::SnowballSolver::with_initial_opinion(
                        config,
                        node_query,
                        opinion,
                    ),
                    rng.fork(),
                ),
                crate::settings::ConsensusSettings::Claro(config) => Node::new_claro(
                    id,
                    crate::claro::ClaroSolver::with_initial_opinion(config, node_query, opinion),
                    rng.fork(),
                ),
            };
            nodes.push(node);
            k = k + 1;
        }
    }

    /// Build the population from the settings: honest nodes carrying the
    /// initial opinion distribution, then the contrarian, random and
    /// omniscient shares, each node at the slot of its id; the vote vector
    /// starts as exactly what the nodes publish.
    pub fn nodes_from_initial_settings(settings: &SimulationSettings, rng: &mut SimRng) -> (r: (
        Vec<Node>,
        NetworkState,
        Option<MasterOmniscientNode>,
    ))
        requires
            settings.wf(),
        ensures
            population_wf(r.0@, r.1@, r.2),
            votes_match(r.1@, r.0@),
            built_population(*settings, r.0@, r.1@, r.2),
    {
        let total_size = settings.byzantine_settings.total_size;
        let byz = settings.byzantine_settings.distribution;
        proof {
            assert(byz.honest <= crate::claro::PPM);
            assert(byz.infantile <= crate::claro::PPM);
            assert(byz.random <= crate::claro::PPM);
            assert(byz.omniscient <= crate::claro::PPM);
        }
        let honest_size = rounded_part(total_size, byz.honest);
        let mut remaining = total_size - honest_size;
        let infantile_part = rounded_part(total_size, byz.infantile);
        let infantile_size = if infantile_part < remaining { infantile_part } else { remaining };
        remaining = remaining - infantile_size;
        let random_part = rounded_part(total_size, byz.random);
        let random_size = if random_part < remaining { random_part } else { remaining };
        remaining = remaining - random_size;
        let omniscient_part = rounded_part(total_size, byz.omniscient);
        let omniscient_size = if omniscient_part < remaining { omniscient_part } else {
            remaining
        };
        proof {
            assert(honest_size == honest_share(*settings));
            assert(infantile_size == infantile_share(*settings));
            assert(random_size == random_share(*settings));
            assert(omniscient_size == omniscient_share(*settings));
        }

        let none_count = floor_part(honest_size, settings.distribution.none);
        let yes_count = floor_part(honest_size, settings.distribution.yes);
        let no_count = floor_part(honest_size, settings.distribution.no);
        let mut opinions: Vec<crate::vote::Opinion<NoTx>> = Vec::new();
        push_opinions(
            &mut opinions,
            crate::vote::Opinion::NoneYet(NoTx),
            none_count,
            honest_size,
        );
        push_opinions(&mut opinions, crate::vote::Opinion::Yes(NoTx), yes_count, honest_size);
        push_opinions(&mut opinions, crate::vote::Opinion::No(NoTx), no_count, honest_size);
        let ghost prefix = opinions@;
        while opinions.len() < honest_size
            invariant
                opinions@.len() <= honest_size,
                prefix.len() <= opinions@.len(),
                opinions@ == prefix + opinion_run(
                    crate::vote::Opinion::NoneYet(NoTx),
                    opinions@.len() - prefix.len(),
                ),
            decreases honest_size - opinions@.len(),
        {
            opinions.push(crate::vote::Opinion::NoneYet(NoTx));
            proof {
                assert(opinions@ =~= prefix + opinion_run(
                    crate::vote::Opinion::NoneYet(NoTx),
                    opinions@.len() - prefix.len(),
                ));
            }
        }
        proof {
            assert(opinions@ =~= initial_opinions(*settings));
        }
        crate::rng::shuffle_opinions(rng, &mut opinions);
        let ghost dealt = opinions@;
        proof {
            assert(dealt.to_multiset() == initial_opinions(*settings).to_multiset());
            assert(dealt.len() == honest_size);
        }

        let mut nodes: Vec<Node> = Vec::new();
        Self::build_honest_nodes(
            &mut nodes,
            &opinions,
            total_size,
            settings.consensus_settings,
            rng,
        );
        let query_size = settings.consensus_settings.query_size();
        let mut c: usize = 0;
        while c < infantile_size
            invariant
                c <= infantile_size,
                nodes@.len() == honest_size + c,
                honest_size + infantile_size <= total_size,
                query_size < usize::MAX,
                dealt.len() == honest_size,
                forall|j: int|
                    0 <= j < nodes@.len() ==> {
                        let node = #[trigger] nodes@[j];
                        &&& node.wf()
                        &&& node.id_spec() == j
                        &&& node.kind_spec() != NodeKind::Omniscient
                    },
                forall|j: int|
                    0 <= j < honest_size ==> fresh_honest_node(
                        #[trigger] nodes@[j],
                        settings.consensus_settings,
                        total_size,
                    ) && nodes@[j].decision_spec() == crate::vote::Decision::<NoTx>::Undecided(
                        dealt[j],
                    ),
                forall|j: int|
                    honest_size <= j < nodes@.len() ==> (#[trigger] nodes@[j]).kind_spec()
                        == NodeKind::Infantile,
            decreases infantile_size - c,
        {
            let fork = rng.fork();
            nodes.push(Node::new_infantile(nodes.len(), query_size, fork));
            c = c + 1;
        }
        let mut c2: usize = 0;
        while c2 < random_size
            invariant
                c2 <= random_size,
                nodes@.len() == honest_size + infantile_size + c2,
                honest_size + infantile_size + random_size <= total_size,
                dealt.len() == honest_size,
                forall|j: int|
                    0 <= j < nodes@.len() ==> {
                        let node = #[trigger] nodes@[j];
                        &&& node.wf()
                        &&& node.id_spec() == j
                        &&& node.kind_spec() != NodeKind::Omniscient
                    },
                forall|j: int|
                    0 <= j < honest_size ==> fresh_honest_node(
                        #[trigger] nodes@[j],
                        settings.consensus_settings,
                        total_size,
                    ) && nodes@[j].decision_spec() == crate::vote::Decision::<NoTx>::Undecided(
                        dealt[j],
                    ),
                forall|j: int|
                    honest_size <= j < honest_size + infantile_size
                        ==> (#[trigger] nodes@[j]).kind_spec() == NodeKind::Infantile,
                forall|j: int|
                    honest_size + infantile_size <= j < nodes@.len()
                        ==> (#[trigger] nodes@[j]).kind_spec() == NodeKind::Random,
            decreases random_size - c2,
        {
            nodes.push(Node::new_random(nodes.len()));
            c2 = c2 + 1;
        }

        let mut master: Option<MasterOmniscientNode> = None;
        if omniscient_size > 0 {
            let mut honest_ids: Vec<usize> = Vec::new();
            let mut h: usize = 0;
            while h < honest_size
                invariant
                    h <= honest_size,
                    honest_ids@.len() == h,
                    forall|k: int| 0 <= k < h ==> #[trigger] honest_ids@[k] == k,
                decreases honest_size - h,
            {
                honest_ids.push(h);
                h = h + 1;
            }
            let start = nodes.len();
            let mut omniscient_ids: Vec<usize> = Vec::new();
            let mut o: usize = 0;
            while o < omniscient_size
                invariant
                    o <= omniscient_size,
                    start + omniscient_size <= total_size,
                    omniscient_ids@.len() == o,
                    forall|k: int| 0 <= k < o ==> #[trigger] omniscient_ids@[k] == start + k,
                decreases omniscient_size - o,
            {
                omniscient_ids.push(start + o);
                o = o + 1;
            }
            proof {
                assert(honest_ids@ =~= Seq::new(honest_size as nat, |k: int| k as usize));
                assert(omniscient_ids@ =~= Seq::new(
                    omniscient_size as nat,
                    |k: int| (start + k) as usize,
                ));
            }
            let m = MasterOmniscientNode::new(usize::MAX, honest_ids, omniscient_ids);
            let mut p: usize = 0;
            while p < omniscient_size
                invariant
                    p <= omniscient_size,
                    start == honest_size + infantile_size + random_size,
                    start + omniscient_size <= total_size,
                    nodes@.len() == start + p,
                    dealt.len() == honest_size,
                    m.decision == crate::vote::Decision::<NoTx>::Undecided(
                        crate::vote::Opinion::NoneYet(NoTx),
                    ),
                    forall|j: int|
                        0 <= j < start ==> {
                            let node = #[trigger] nodes@[j];
                            &&& node.wf()
                            &&& node.id_spec() == j
                            &&& node.kind_spec() != NodeKind::Omniscient
                        },
                    forall|j: int|
                        0 <= j < honest_size ==> fresh_honest_node(
                            #[trigger] nodes@[j],
                            settings.consensus_settings,
                            total_size,
                        ) && nodes@[j].decision_spec() == crate::vote::Decision::<NoTx>::Undecided(
                            dealt[j],
                        ),
                    forall|j: int|
                        honest_size <= j < honest_size + infantile_size
                            ==> (#[trigger] nodes@[j]).kind_spec() == NodeKind::Infantile,
                    forall|j: int|
                        honest_size + infantile_size <= j < start
                            ==> (#[trigger] nodes@[j]).kind_spec() == NodeKind::Random,
                    forall|j: int|
                        start <= j < nodes@.len() ==> {
                            let node = #[trigger] nodes@[j];
                            &&& node.wf()
                            &&& node.id_spec() == j
                            &&& node.kind_spec() == NodeKind::Omniscient
                        },
                decreases omniscient_size - p,
            {
                let puppet = m.puppet_node(nodes.len());
                nodes.push(Node::new_omniscient_puppet(puppet));
                p = p + 1;
            }
            proof {
                assert forall|j: int| 0 <= j < nodes@.len()
                    implies (m.omniscient_nodes_ids@.contains(j as usize)
                        <==> (#[trigger] nodes@[j]).kind_spec() == NodeKind::Omniscient) by {
                    if m.omniscient_nodes_ids@.contains(j as usize) {
                        let k = choose|k: int|
                            0 <= k < m.omniscient_nodes_ids@.len()
                                && m.omniscient_nodes_ids@[k] == j as usize;
                        assert(j == start + k);
                    }
                    if nodes@[j].kind_spec() == NodeKind::Omniscient {
                        assert(start <= j < start + omniscient_size);
                        assert(m.omniscient_nodes_ids@[j - start] == j as usize);
                        assert(m.omniscient_nodes_ids@.contains(j as usize));
                    }
                }
            }
            master = Some(m);
        }

        let network_state = Self::network_state_from_nodes(&nodes);
        proof {
            assert(honest_opinions(nodes@, honest_size as int) =~= dealt);
            assert(built_population(*settings, nodes@, network_state@, master));
        }
        (nodes, network_state, master)
    }

    /// Build a runner from settings: the random source is seeded from the
    /// settings, or from the machine when no seed is given.
    pub fn new(settings: SimulationSettings) -> (r: Self)
        requires
            settings.wf(),
        ensures
            r.wf(),
            votes_match(r.network_state@, r.nodes@),
            built_population(settings, r.nodes@, r.network_state@, r.master_omniscient),
            r.settings == settings,
    {
        let seed = match settings.seed {
            Some(seed) => seed,
            None => crate::rng::random_u64(),
        };
        let mut rng = SimRng::seed_from_u64(seed);
        let (nodes, network_state, master_omniscient) = Self::nodes_from_initial_settings(
            &settings,
            &mut rng,
        );
        SimulationRunner { network_state, nodes, master_omniscient, settings, rng }
    }

    /// Run the simulation under the configured scheduling discipline,
    /// appending one whole recorded block per node per recorded point and
    /// never touching what the output already held.
    pub fn simulate(&mut self, out_data: &mut Vec<OutData>)
        requires
            old(self).wf(),
            votes_match(old(self).network_state@, old(self).nodes@),
        ensures
            final(self).wf(),
            votes_match(final(self).network_state@, final(self).nodes@),
            decisions_preserved(old(self).nodes@, final(self).nodes@),
            final(self).nodes@.len() == old(self).nodes@.len(),
            final(self).network_state@.len() == old(self).network_state@.len(),
            final(out_data)@.len() >= old(out_data)@.len(),
            forall|j: int|
                0 <= j < old(out_data)@.len() ==> #[trigger] final(out_data)@[j]
                    == old(out_data)@[j],
            recorded_blocks(
                final(out_data)@.skip(old(out_data)@.len() as int),
                old(self).nodes@.len() as nat,
            ),
    {
        let mut kind: usize = 0;
        let mut first: usize = 0;
        let mut second: usize = 0;
        let mut weights: Vec<u32> = Vec::new();
        match &self.settings.simulation_style {
            crate::settings::SimulationStyle::Sync => {
                kind = 0;
            },
            crate::settings::SimulationStyle::Async { chunks } => {
                kind = 1;
                first = *chunks;
            },
            crate::settings::SimulationStyle::Glauber { maximum_iterations, update_rate } => {
                kind = 2;
                first = *maximum_iterations;
                second = *update_rate;
            },
            crate::settings::SimulationStyle::Layered { rounds_gap, distribution } => {
                kind = 3;
                first = *rounds_gap;
                match distribution {
                    Some(d) => {
                        let mut w: usize = 0;
                        while w < d.len()
                            invariant
                                w <= d@.len(),
                                weights@.len() == w,
                                forall|k: int| 0 <= k < w ==> #[trigger] weights@[k] == d@[k],
                            decreases d@.len() - w,
                        {
                            weights.push(d[w]);
                            w = w + 1;
                        }
                        proof {
                            assert(weights@ =~= d@);
                        }
                    },
                    None => {
                        let mut w: usize = 0;
                        while w < *rounds_gap
                            invariant
                                w <= *rounds_gap,
                                weights@.len() == w,
                                forall|k: int| 0 <= k < w ==> #[trigger] weights@[k] == 1u32,
                            decreases *rounds_gap - w,
                        {
                            weights.push(1);
                            w = w + 1;
                        }
                        proof {
                            crate::settings::lemma_unit_weights_total(
                                weights@,
                                *rounds_gap as int,
                            );
                        }
                    },
                }
            },
        }
        if kind == 0 {
            self.simulate_sync(out_data);
        } else if kind == 1 {
            self.simulate_async(first, out_data);
        } else if kind == 2 {
            self.simulate_glauber(second, first, out_data);
        } else {
            self.simulate_layered(first, weights, out_data);
        }
    }
}

/// A puppet node after adopting the master's decision.
pub open spec fn sync_puppet_result(node: Node, decision: crate::vote::Decision<NoTx>) -> Node {
    match node {
        Node::OmniscientPuppet(p) => Node::OmniscientPuppet(
            crate::node::OmniscientPuppetNode { node_id: p.node_id, decision },
        ),
        other => other,
    }
}

} // verus!
