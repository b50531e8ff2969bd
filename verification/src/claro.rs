//! Claro: evidence/confidence mixture consensus with adaptive sampling.
//!
//! Each round combines the instantaneous Yes-ratio of the sample with the
//! accumulated Yes-ratio of everything seen so far, weighted by a confidence
//! factor that grows as votes accrue; the mixed evidence is compared against
//! a confidence-weighted threshold. Thresholds are parts-per-million
//! fractions and all comparisons are exact integer arithmetic: for rationals
//! with positive denominators, `e > a` holds exactly when the cross products
//! satisfy the same inequality.

use vstd::prelude::*;
use vstd::arithmetic::mul::lemma_mul_upper_bound;

use crate::query::NodeQuery;
use crate::vote::{Decision, Opinion, Vote};

verus! {

/// One million: thresholds and ratios are measured in parts per million.
pub const PPM: u64 = 1_000_000;

/// Ceiling for the evidence and confidence counters. Keeping counters within
/// 32 bits lets every threshold comparison be carried out exactly in 128-bit
/// integers.
pub const COUNT_CAP: u64 = 0xFFFF_FFFF;

/// Addition that saturates at [`COUNT_CAP`].
pub open spec fn cap_add_spec(a: int, b: int) -> int {
    if a + b > COUNT_CAP { COUNT_CAP as int } else { a + b }
}

/// How many of the sampled votes are `Yes`.
pub open spec fn count_yes_votes<Tx>(votes: Seq<Vote<Tx>>) -> nat
    decreases votes.len(),
{
    if votes.len() == 0 {
        0
    } else {
        count_yes_votes(votes.drop_last()) + if votes.last() is Yes { 1nat } else { 0nat }
    }
}

/// Count the `Yes` votes in a sample.
pub(crate) fn count_yes<Tx>(votes: &Vec<Vote<Tx>>) -> (r: usize)
    ensures
        r == count_yes_votes(votes@),
        r <= votes@.len(),
{
    let mut count: usize = 0;
    let mut i: usize = 0;
    while i < votes.len()
        invariant
            i <= votes@.len(),
            count == count_yes_votes(votes@.take(i as int)),
            count <= i,
        decreases votes@.len() - i,
    {
        proof {
            assert(votes@.take(i + 1 as int).drop_last() =~= votes@.take(i as int));
            assert(votes@.take(i + 1 as int).last() == votes@[i as int]);
        }
        if let Vote::Yes(_) = votes[i] {
            count = count + 1;
        }
        i = i + 1;
    }
    proof {
        assert(votes@.take(votes@.len() as int) =~= votes@);
    }
    count
}

/// Saturating counter addition, bounded by [`COUNT_CAP`].
fn cap_add(a: u64, b: u64) -> (r: u64)
    requires
        a <= COUNT_CAP,
    ensures
        r == cap_add_spec(a as int, b as int),
        a <= r <= COUNT_CAP,
{
    let add = if b > COUNT_CAP { COUNT_CAP } else { b };
    let sum = a + add;
    if sum > COUNT_CAP { COUNT_CAP } else { sum }
}

/// Claro internal state: the counters only ever grow, saturating at
/// [`COUNT_CAP`].
#[derive(Debug, Clone, Copy, PartialEq, Eq)]
pub struct ClaroState {
    /// Positive votes seen.
    pub evidence: u64,
    /// Total votes seen, positive and negative.
    pub evidence_accumulated: u64,
    /// Total votes seen, kept apart from `evidence_accumulated` so the two
    /// may diverge in the future.
    pub confidence: u64,
}

impl Default for ClaroState {
    /// A fresh state with no votes seen.
    fn default() -> (r: ClaroState)
        ensures
            r == (ClaroState { evidence: 0, evidence_accumulated: 0, confidence: 0 }),
    {
        ClaroState { evidence: 0, evidence_accumulated: 0, confidence: 0 }
    }
}

impl ClaroState {
    pub open spec fn wf(self) -> bool {
        &&& self.evidence <= COUNT_CAP
        &&& self.evidence_accumulated <= COUNT_CAP
        &&& self.confidence <= COUNT_CAP
    }

    /// Account a round's total vote count into the confidence counter.
    pub fn update_confidence<Tx>(&mut self, votes: &Vec<Vote<Tx>>)
        requires
            old(self).wf(),
        ensures
            final(self).wf(),
            final(self).confidence == cap_add_spec(
                old(self).confidence as int,
                votes@.len() as int,
            ),
            final(self).confidence >= old(self).confidence,
            final(self).evidence == old(self).evidence,
            final(self).evidence_accumulated == old(self).evidence_accumulated,
    {
        let total_votes = votes.len() as u64;
        self.confidence = cap_add(self.confidence, total_votes);
    }

    /// Account a round's Yes votes and total votes into the evidence
    /// counters.
    pub fn update_evidence<Tx>(&mut self, votes: &Vec<Vote<Tx>>)
        requires
            old(self).wf(),
        ensures
            final(self).wf(),
            final(self).evidence == cap_add_spec(
                old(self).evidence as int,
                count_yes_votes(votes@) as int,
            ),
            final(self).evidence_accumulated == cap_add_spec(
                old(self).evidence_accumulated as int,
                votes@.len() as int,
            ),
            final(self).evidence >= old(self).evidence,
            final(self).evidence_accumulated >= old(self).evidence_accumulated,
            final(self).confidence == old(self).confidence,
    {
        let total_votes = votes.len() as u64;
        let total_yes = count_yes(votes) as u64;
        self.evidence = cap_add(self.evidence, total_yes);
        self.evidence_accumulated = cap_add(self.evidence_accumulated, total_votes);
    }

    pub fn confidence(&self) -> (r: u64)
        ensures
            r == self.confidence,
    {
        self.confidence
    }

    pub fn evidence(&self) -> (r: u64)
        ensures
            r == self.evidence,
    {
        self.evidence
    }

    pub fn evidence_accumulated(&self) -> (r: u64)
        ensures
            r == self.evidence_accumulated,
    {
        self.evidence_accumulated
    }
}

/// Node query configuration.
#[derive(Debug, Clone, Copy, PartialEq, Eq)]
pub struct QueryConfiguration {
    /// How many nodes to query.
    pub query_size: usize,
    /// The query size the solver started from.
    pub initial_query_size: usize,
    /// Growth factor applied on an inconclusive round.
    pub query_multiplier: usize,
    /// The query size may grow to at most `initial_query_size *
    /// max_multiplier`.
    pub max_multiplier: usize,
}

impl QueryConfiguration {
    /// The growth ceiling must be representable, so that growing can
    /// saturate at it.
    pub open spec fn wf(self) -> bool {
        self.initial_query_size * self.max_multiplier <= usize::MAX
    }

    /// The query size after one growth step:
    /// `min(query_size * query_multiplier, initial_query_size * max_multiplier)`.
    pub open spec fn grown_query_size(self) -> int {
        let grown = self.query_size * self.query_multiplier;
        let ceiling = self.initial_query_size * self.max_multiplier;
        if grown < ceiling { grown } else { ceiling }
    }

    pub fn new(query_size: usize) -> (r: Self)
        requires
            query_size * 4 <= usize::MAX,
        ensures
            r.wf(),
            r.query_size == query_size,
            r.initial_query_size == query_size,
            r.query_multiplier == 2,
            r.max_multiplier == 4,
    {
        QueryConfiguration {
            query_size,
            initial_query_size: query_size,
            query_multiplier: 2,
            max_multiplier: 4,
        }
    }

    /// Grow the query size by the configured multiplier, saturating at the
    /// ceiling `initial_query_size * max_multiplier`.
    pub fn grow(&mut self)
        requires
            old(self).wf(),
        ensures
            final(self).query_size == old(self).grown_query_size(),
            final(self).query_size <= old(self).initial_query_size * old(self).max_multiplier,
            final(self).initial_query_size == old(self).initial_query_size,
            final(self).query_multiplier == old(self).query_multiplier,
            final(self).max_multiplier == old(self).max_multiplier,
            final(self).wf(),
    {
        proof {
            lemma_mul_upper_bound(
                self.query_size as int,
                u64::MAX as int,
                self.query_multiplier as int,
                u64::MAX as int,
            );
        }
        let grown = (self.query_size as u128) * (self.query_multiplier as u128);
        let ceiling = (self.initial_query_size as u128) * (self.max_multiplier as u128);
        let next = if grown < ceiling { grown } else { ceiling };
        self.query_size = next as usize;
    }
}

/// The query size never shrinks under growth (the multiplier being at least
/// one), and never exceeds the ceiling `initial_query_size * max_multiplier`.
pub proof fn lemma_query_growth_monotone_and_bounded(q: QueryConfiguration)
    requires
        q.wf(),
        q.query_multiplier >= 1,
        q.query_size <= q.initial_query_size * q.max_multiplier,
    ensures
        q.query_size <= q.grown_query_size(),
        q.grown_query_size() <= q.initial_query_size * q.max_multiplier,
{
    lemma_mul_upper_bound(
        q.query_size as int,
        q.query_size as int,
        1,
        q.query_multiplier as int,
    );
}

/// Claro algorithm configuration. Thresholds are parts-per-million
/// fractions in `[0, 1]`.
#[derive(Debug, Clone, Copy, PartialEq, Eq)]
pub struct ClaroConfiguration {
    /// Per-round Yes-ratio threshold while confidence is low, in ppm.
    pub evidence_alpha: u32,
    /// Per-round Yes-ratio threshold once confidence has accrued, in ppm.
    pub evidence_alpha_2: u32,
    /// Confidence threshold above which the decision is finalised, in ppm.
    pub confidence_beta: u32,
    /// How many further votes the confidence weight looks ahead to.
    pub look_ahead: u32,
    /// Node query configuration.
    pub query: QueryConfiguration,
}

impl ClaroConfiguration {
    pub open spec fn wf(self) -> bool {
        &&& self.evidence_alpha <= PPM
        &&& self.evidence_alpha_2 <= PPM
        &&& self.confidence_beta <= PPM
        &&& self.query.wf()
    }
}

/// The outcome of one Claro round's threshold comparisons.
pub struct ClaroRoundCalculation {
    /// The mixed evidence exceeded the mixed alpha threshold.
    pub evidence_high: bool,
    /// The mixed evidence fell below one minus the mixed alpha threshold.
    pub evidence_low: bool,
    /// The confidence weight exceeded the beta threshold.
    pub confident: bool,
}

/// Claro computation object.
pub struct ClaroSolver<Tx> {
    /// Internal state.
    pub state: ClaroState,
    /// Configuration, including the node query configuration.
    pub configuration: ClaroConfiguration,
    /// Current decision on the transaction.
    pub decision: Decision<Tx>,
    /// Node query setup for the current node.
    pub node_query: NodeQuery,
}

impl<Tx> ClaroSolver<Tx> {
    pub open spec fn wf(self) -> bool {
        &&& self.state.wf()
        &&& self.configuration.wf()
    }

    pub open spec fn decision_spec(self) -> Decision<Tx> {
        self.decision
    }

    pub open spec fn opinion_spec(self) -> Opinion<Tx> {
        self.decision.opinion_spec()
    }

    pub open spec fn vote_spec(self) -> Option<Vote<Tx>> {
        self.decision.to_vote_spec()
    }

    /// The confidence weight `confidence / (confidence + look_ahead)`
    /// exceeds the beta threshold `confidence_beta / PPM`: compared by cross
    /// products.
    pub open spec fn confident_spec(self) -> bool {
        let conf = self.state.confidence as int;
        let la = self.configuration.look_ahead as int;
        let beta = self.configuration.confidence_beta as int;
        conf * (PPM as int) > beta * (conf + la)
    }

    /// The numerator of the mixed evidence
    /// `e1 * (1 - c) + e2 * c` over denominator
    /// `total * acc * (conf + la)`, where `c = conf / (conf + la)`,
    /// `e1 = yes / total` and `e2 = ev / acc`.
    pub open spec fn mixed_evidence_num(self, yes: int, total: int) -> int {
        let ev = self.state.evidence as int;
        let acc = self.state.evidence_accumulated as int;
        let conf = self.state.confidence as int;
        let la = self.configuration.look_ahead as int;
        yes * la * acc + ev * conf * total
    }

    /// The mixed evidence exceeds the mixed threshold
    /// `alpha * (1 - c) + alpha_2 * c`: both rationals share the positive
    /// factor `conf + la`, so comparing `num_e * PPM` with
    /// `num_a * total * acc` decides it exactly.
    pub open spec fn evidence_high_spec(self, yes: int, total: int) -> bool {
        let acc = self.state.evidence_accumulated as int;
        let conf = self.state.confidence as int;
        let la = self.configuration.look_ahead as int;
        let a1 = self.configuration.evidence_alpha as int;
        let a2 = self.configuration.evidence_alpha_2 as int;
        self.mixed_evidence_num(yes, total) * (PPM as int) > (a1 * la + a2 * conf) * total * acc
    }

    /// The mixed evidence falls below one minus the mixed threshold.
    pub open spec fn evidence_low_spec(self, yes: int, total: int) -> bool {
        let acc = self.state.evidence_accumulated as int;
        let conf = self.state.confidence as int;
        let la = self.configuration.look_ahead as int;
        let a1 = self.configuration.evidence_alpha as int;
        let a2 = self.configuration.evidence_alpha_2 as int;
        self.mixed_evidence_num(yes, total) * (PPM as int)
            < (((PPM as int) - a1) * la + ((PPM as int) - a2) * conf) * total * acc
    }

    /// The solver after adopting the first sampled vote's polarity, when it
    /// has no opinion yet.
    pub open spec fn adopted_decision(self, votes: Seq<Vote<Tx>>) -> Decision<Tx> {
        if self.decision matches Decision::Undecided(Opinion::NoneYet(_)) && votes.len() > 0 {
            Decision::Undecided(votes[0].to_opinion_spec())
        } else {
            self.decision
        }
    }

    /// The state after accounting one round of votes.
    pub open spec fn updated_state(self, votes: Seq<Vote<Tx>>) -> ClaroState {
        ClaroState {
            evidence: cap_add_spec(
                self.state.evidence as int,
                count_yes_votes(votes) as int,
            ) as u64,
            evidence_accumulated: cap_add_spec(
                self.state.evidence_accumulated as int,
                votes.len() as int,
            ) as u64,
            confidence: cap_add_spec(self.state.confidence as int, votes.len() as int) as u64,
        }
    }

    /// The whole solver after one step on the given sample: a no-op on an
    /// empty sample; otherwise counters are accounted, the opinion follows
    /// the threshold comparisons (an inconclusive round grows the query
    /// size instead), and high confidence finalises the decision.
    pub open spec fn step_spec(self, tx: Tx, votes: Seq<Vote<Tx>>) -> ClaroSolver<Tx> {
        if votes.len() == 0 {
            self
        } else {
            let adopted = self.adopted_decision(votes);
            let updated = ClaroSolver { state: self.updated_state(votes), ..self };
            let yes = count_yes_votes(votes) as int;
            let total = votes.len() as int;
            let opinion = if updated.evidence_high_spec(yes, total) {
                Opinion::Yes(tx)
            } else if updated.evidence_low_spec(yes, total) {
                Opinion::No(tx)
            } else {
                adopted.opinion_spec()
            };
            let grows = !updated.evidence_high_spec(yes, total)
                && !updated.evidence_low_spec(yes, total);
            let query = if grows {
                QueryConfiguration {
                    query_size: self.configuration.query.grown_query_size() as usize,
                    ..self.configuration.query
                }
            } else {
                self.configuration.query
            };
            let decision = if updated.confident_spec() {
                Decision::Decided(opinion)
            } else {
                Decision::Undecided(opinion)
            };
            ClaroSolver {
                state: self.updated_state(votes),
                configuration: ClaroConfiguration { query, ..self.configuration },
                decision,
                node_query: self.node_query,
            }
        }
    }
}

impl<Tx: Copy> ClaroSolver<Tx> {
    /// A fresh solver that starts with a `Yes` opinion on the transaction.
    pub fn new(tx: Tx, configuration: ClaroConfiguration, node_query: NodeQuery) -> (r: Self)
        requires
            configuration.wf(),
        ensures
            r.wf(),
            r.configuration == configuration,
            r.decision_spec() == Decision::Undecided(Opinion::Yes(tx)),
            r.state == (ClaroState { evidence: 0, evidence_accumulated: 0, confidence: 0 }),
            r.node_query == node_query,
    {
        ClaroSolver {
            state: ClaroState { evidence: 0, evidence_accumulated: 0, confidence: 0 },
            configuration,
            decision: Decision::Undecided(Opinion::Yes(tx)),
            node_query,
        }
    }

    /// A fresh solver that starts from the given opinion.
    pub fn with_initial_opinion(
        configuration: ClaroConfiguration,
        node_query: NodeQuery,
        opinion: Opinion<Tx>,
    ) -> (r: Self)
        requires
            configuration.wf(),
        ensures
            r.wf(),
            r.configuration == configuration,
            r.decision_spec() == Decision::Undecided(opinion),
            r.state == (ClaroState { evidence: 0, evidence_accumulated: 0, confidence: 0 }),
            r.node_query == node_query,
    {
        ClaroSolver {
            state: ClaroState { evidence: 0, evidence_accumulated: 0, confidence: 0 },
            configuration,
            decision: Decision::Undecided(opinion),
            node_query,
        }
    }

    /// Compute one round's threshold comparisons from the already-updated
    /// state and the sampled votes, exactly, in 128-bit arithmetic.
    fn round_state(&self, votes: &Vec<Vote<Tx>>) -> (r: ClaroRoundCalculation)
        requires
            self.wf(),
            votes@.len() > 0,
            votes@.len() <= COUNT_CAP,
        ensures
            r.evidence_high == self.evidence_high_spec(
                count_yes_votes(votes@) as int,
                votes@.len() as int,
            ),
            r.evidence_low == self.evidence_low_spec(
                count_yes_votes(votes@) as int,
                votes@.len() as int,
            ),
            r.confident == self.confident_spec(),
    {
        let yes = count_yes(votes) as u128;
        let total = votes.len() as u128;
        let ev = self.state.evidence as u128;
        let acc = self.state.evidence_accumulated as u128;
        let conf = self.state.confidence as u128;
        let la = self.configuration.look_ahead as u128;
        let a1 = self.configuration.evidence_alpha as u128;
        let a2 = self.configuration.evidence_alpha_2 as u128;
        let beta = self.configuration.confidence_beta as u128;
        let ppm = PPM as u128;

        proof {
            let cap = COUNT_CAP as int;
            let ppmi = PPM as int;
            lemma_mul_upper_bound(yes as int, cap, la as int, cap);
            lemma_mul_upper_bound(yes as int * la as int, cap * cap, acc as int, cap);
            lemma_mul_upper_bound(ev as int, cap, conf as int, cap);
            lemma_mul_upper_bound(ev as int * conf as int, cap * cap, total as int, cap);
            lemma_mul_upper_bound(
                yes as int * la as int * acc as int + ev as int * conf as int * total as int,
                2 * cap * cap * cap,
                ppmi,
                ppmi,
            );
            lemma_mul_upper_bound(a1 as int, ppmi, la as int, cap);
            lemma_mul_upper_bound(a2 as int, ppmi, conf as int, cap);
            lemma_mul_upper_bound(
                a1 as int * la as int + a2 as int * conf as int,
                2 * ppmi * cap,
                total as int,
                cap,
            );
            lemma_mul_upper_bound(
                (a1 as int * la as int + a2 as int * conf as int) * total as int,
                2 * ppmi * cap * cap,
                acc as int,
                cap,
            );
            lemma_mul_upper_bound(ppmi - a1 as int, ppmi, la as int, cap);
            lemma_mul_upper_bound(ppmi - a2 as int, ppmi, conf as int, cap);
            lemma_mul_upper_bound(
                (ppmi - a1 as int) * la as int + (ppmi - a2 as int) * conf as int,
                2 * ppmi * cap,
                total as int,
                cap,
            );
            lemma_mul_upper_bound(
                ((ppmi - a1 as int) * la as int + (ppmi - a2 as int) * conf as int)
                    * total as int,
                2 * ppmi * cap * cap,
                acc as int,
                cap,
            );
            lemma_mul_upper_bound(conf as int, cap, ppmi, ppmi);
            lemma_mul_upper_bound(beta as int, ppmi, conf as int + la as int, 2 * cap);
        }

        let evidence_num = yes * la * acc + ev * conf * total;
        let lhs = evidence_num * ppm;
        let alpha_num = a1 * la + a2 * conf;
        let high_rhs = alpha_num * total * acc;
        let low_num = (ppm - a1) * la + (ppm - a2) * conf;
        let low_rhs = low_num * total * acc;

        ClaroRoundCalculation {
            evidence_high: lhs > high_rhs,
            evidence_low: lhs < low_rhs,
            confident: conf * ppm > beta * (conf + la),
        }
    }

    /// Advance the solver by one round on a sample of peer votes.
    ///
    /// An empty sample changes nothing. Otherwise: a solver with no opinion
    /// yet first adopts the first vote's polarity; the counters account the
    /// round; the opinion follows the exact threshold comparisons, an
    /// inconclusive round growing the query size instead; and once the
    /// confidence weight exceeds beta the decision is finalised.
    pub fn step(&mut self, tx: Tx, votes: &Vec<Vote<Tx>>)
        requires
            !old(self).decision_spec().is_decided(),
            old(self).wf(),
            votes@.len() <= COUNT_CAP,
        ensures
            final(self).wf(),
            *final(self) == old(self).step_spec(tx, votes@),
    {
        if let Decision::Undecided(Opinion::NoneYet(_)) = self.decision() {
            if votes.len() > 0 {
                self.decision = Decision::Undecided(votes[0].to_opinion());
            }
        }

        if votes.len() > 0 {
            self.state.update_evidence(votes);
            self.state.update_confidence(votes);

            let round = self.round_state(votes);
            if round.evidence_high {
                self.decision = Decision::Undecided(Opinion::Yes(tx));
            } else if round.evidence_low {
                self.decision = Decision::Undecided(Opinion::No(tx));
            } else {
                self.configuration.query.grow();
            }
            if round.confident {
                self.decision = Decision::Decided(self.opinion());
            }
        }
    }

    /// Derive the published vote from the solver's current decision.
    pub fn vote(&self) -> (r: Option<Vote<Tx>>)
        ensures
            r == self.vote_spec(),
    {
        self.decision.to_vote()
    }

    pub fn decision(&self) -> (r: Decision<Tx>)
        ensures
            r == self.decision_spec(),
    {
        self.decision
    }

    pub fn opinion(&self) -> (r: Opinion<Tx>)
        ensures
            r == self.opinion_spec(),
    {
        self.decision.opinion()
    }

    pub fn state(&self) -> (r: &ClaroState)
        ensures
            r == self.state,
    {
        &self.state
    }

    pub fn node_query(&self) -> (r: &NodeQuery)
        ensures
            r == self.node_query,
    {
        &self.node_query
    }
}

/// Stepping a Claro solver on an empty vote slice changes nothing: not the
/// counters, not the decision, not the query size.
pub proof fn lemma_claro_empty_step_is_noop<Tx>(solver: ClaroSolver<Tx>, tx: Tx)
    ensures
        solver.step_spec(tx, Seq::<Vote<Tx>>::empty()) == solver,
{
}

/// Under stepping, the query size never shrinks (the multiplier being at
/// least one) and never exceeds the ceiling
/// `initial_query_size * max_multiplier`; an inconclusive round is the only
/// step that changes it, by one growth step.
pub proof fn lemma_claro_step_query_monotone<Tx>(
    solver: ClaroSolver<Tx>,
    tx: Tx,
    votes: Seq<Vote<Tx>>,
)
    requires
        solver.wf(),
        solver.configuration.query.query_multiplier >= 1,
        solver.configuration.query.query_size <= solver.configuration.query.initial_query_size
            * solver.configuration.query.max_multiplier,
    ensures
        solver.configuration.query.query_size <= solver.step_spec(
            tx,
            votes,
        ).configuration.query.query_size,
        solver.step_spec(tx, votes).configuration.query.query_size
            <= solver.configuration.query.initial_query_size
            * solver.configuration.query.max_multiplier,
{
    lemma_query_growth_monotone_and_bounded(solver.configuration.query);
}

/// The Claro counters are monotone non-decreasing under stepping.
pub proof fn lemma_claro_counters_monotone<Tx>(
    solver: ClaroSolver<Tx>,
    tx: Tx,
    votes: Seq<Vote<Tx>>,
)
    requires
        solver.wf(),
    ensures
        solver.step_spec(tx, votes).state.evidence >= solver.state.evidence,
        solver.step_spec(tx, votes).state.evidence_accumulated
            >= solver.state.evidence_accumulated,
        solver.step_spec(tx, votes).state.confidence >= solver.state.confidence,
{
}

} // verus!
