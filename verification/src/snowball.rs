//! Snowball: streak-threshold binary consensus.
//!
//! Each step counts how many sampled votes agree with the solver's current
//! opinion. A quorum of agreement extends a success streak, a quorum of
//! disagreement flips the opinion and restarts the streak at one, and an
//! inconclusive sample resets the streak. Once the streak exceeds the
//! decision threshold the solver finalises its opinion.

use vstd::prelude::*;

use crate::claro::count_yes_votes;
use crate::query::NodeQuery;
use crate::vote::{Decision, Opinion, Vote};

verus! {

/// Snowball algorithm configuration.
#[derive(Debug, Clone, Copy, PartialEq, Eq)]
pub struct SnowballConfiguration {
    /// How many same-polarity votes one sample must carry to count as a
    /// success (or to force a flip).
    pub quorum_size: usize,
    /// How many peers a node queries each round.
    pub sample_size: usize,
    /// How many consecutive successes beyond this threshold finalise the
    /// decision.
    pub decision_threshold: usize,
}

/// Snowball computation object.
pub struct SnowballSolver<Tx> {
    pub configuration: SnowballConfiguration,
    pub decision: Decision<Tx>,
    pub consecutive_success: u64,
    pub node_query: NodeQuery,
}

/// How many of the sampled votes agree with the solver's published vote.
/// A solver with no published vote (opinion not yet formed) agrees with
/// nothing.
pub open spec fn count_agreeing<Tx>(votes: Seq<Vote<Tx>>, mine: Option<Vote<Tx>>) -> nat
    decreases votes.len(),
{
    if votes.len() == 0 {
        0
    } else {
        count_agreeing(votes.drop_last(), mine)
            + if vote_agrees(votes.last(), mine) { 1nat } else { 0nat }
    }
}

/// One sampled vote agrees with a published vote when both are `Yes` or both
/// are `No`, whatever their payloads.
pub open spec fn vote_agrees<Tx>(v: Vote<Tx>, mine: Option<Vote<Tx>>) -> bool {
    match (v, mine) {
        (Vote::Yes(_), Some(Vote::Yes(_))) => true,
        (Vote::No(_), Some(Vote::No(_))) => true,
        _ => false,
    }
}

impl<Tx> SnowballSolver<Tx> {
    /// The solver never counts successes past the decision threshold while
    /// still undecided, and the threshold leaves room for one more success
    /// in a 64-bit counter.
    pub open spec fn wf(self) -> bool {
        &&& self.configuration.decision_threshold < u64::MAX
        &&& !self.decision.is_decided()
            ==> self.consecutive_success <= self.configuration.decision_threshold
    }

    pub open spec fn decision_spec(self) -> Decision<Tx> {
        self.decision
    }

    pub open spec fn opinion_spec(self) -> Opinion<Tx> {
        self.decision.opinion_spec()
    }

    pub open spec fn vote_spec(self) -> Option<Vote<Tx>> {
        self.decision.to_vote_spec()
    }

    pub open spec fn consecutive_success_spec(self) -> u64 {
        self.consecutive_success
    }

    pub open spec fn node_query_spec(self) -> NodeQuery {
        self.node_query
    }

    /// The streak counter and decision after one step on the given sample.
    ///
    /// A solver with no opinion yet agrees with nothing, so a sample that
    /// reaches quorum fires the flip branch, and the first quorum decides
    /// the preference direction: the polarity that carries the quorum is
    /// adopted (checked for `Yes` first), while a mixed sample in which
    /// neither polarity alone reaches quorum leaves the opinion unformed
    /// and resets the streak.
    pub open spec fn step_result(self, votes: Seq<Vote<Tx>>) -> (u64, Decision<Tx>) {
        let pref = count_agreeing(votes, self.vote_spec());
        let quorum = self.configuration.quorum_size as nat;
        let (success, decision) = if pref >= quorum {
            ((self.consecutive_success + 1) as u64, self.decision)
        } else if votes.len() - pref >= quorum {
            match self.opinion_spec() {
                Opinion::NoneYet(tx) => {
                    let yes = count_yes_votes(votes);
                    if yes >= quorum {
                        (1u64, Decision::Undecided(Opinion::Yes(tx)))
                    } else if votes.len() - yes >= quorum {
                        (1u64, Decision::Undecided(Opinion::No(tx)))
                    } else {
                        (0u64, self.decision)
                    }
                },
                formed => (1u64, Decision::Undecided(formed.flip_spec())),
            }
        } else {
            (0u64, self.decision)
        };
        if success > self.configuration.decision_threshold as u64 {
            (success, Decision::Decided(decision.opinion_spec()))
        } else {
            (success, decision)
        }
    }
}

impl<Tx: Copy> SnowballSolver<Tx> {
    /// A fresh solver with no opinion formed yet.
    pub fn new(tx: Tx, configuration: SnowballConfiguration, node_query: NodeQuery) -> (r: Self)
        requires
            configuration.decision_threshold < u64::MAX,
        ensures
            r.wf(),
            r.configuration == configuration,
            r.decision_spec() == Decision::Undecided(Opinion::NoneYet(tx)),
            r.consecutive_success_spec() == 0u64,
            r.node_query_spec() == node_query,
    {
        SnowballSolver {
            configuration,
            decision: Decision::Undecided(Opinion::NoneYet(tx)),
            consecutive_success: 0,
            node_query,
        }
    }

    /// A fresh solver that starts from the given opinion.
    pub fn with_initial_opinion(
        configuration: SnowballConfiguration,
        node_query: NodeQuery,
        opinion: Opinion<Tx>,
    ) -> (r: Self)
        requires
            configuration.decision_threshold < u64::MAX,
        ensures
            r.wf(),
            r.configuration == configuration,
            r.decision_spec() == Decision::Undecided(opinion),
            r.consecutive_success_spec() == 0u64,
            r.node_query_spec() == node_query,
    {
        SnowballSolver {
            configuration,
            decision: Decision::Undecided(opinion),
            consecutive_success: 0,
            node_query,
        }
    }

    /// Count the sampled votes that agree with the solver's current vote.
    fn count_opinion_votes(&self, votes: &Vec<Vote<Tx>>) -> (r: usize)
        ensures
            r == count_agreeing(votes@, self.vote_spec()),
            r <= votes.len(),
    {
        let mine = self.vote();
        let mut count: usize = 0;
        let mut i: usize = 0;
        while i < votes.len()
            invariant
                i <= votes@.len(),
                count == count_agreeing(votes@.take(i as int), mine),
                count <= i,
                mine == self.vote_spec(),
            decreases votes@.len() - i,
        {
            let agrees = match (votes[i], &mine) {
                (Vote::Yes(_), Some(Vote::Yes(_))) => true,
                (Vote::No(_), Some(Vote::No(_))) => true,
                _ => false,
            };
            proof {
                assert(votes@.take(i + 1 as int).drop_last() =~= votes@.take(i as int));
                assert(votes@.take(i + 1 as int).last() == votes@[i as int]);
            }
            if agrees {
                count = count + 1;
            }
            i = i + 1;
        }
        proof {
            assert(votes@.take(votes@.len() as int) =~= votes@);
        }
        count
    }

    /// Advance the solver by one round on a sample of peer votes.
    ///
    /// A quorum of agreeing votes extends the success streak; a quorum of
    /// non-agreeing votes flips the opinion and restarts the streak; anything
    /// else resets it. A solver with no opinion yet adopts, on the flip
    /// branch, the polarity that carries the quorum; a mixed sample in which
    /// neither polarity alone reaches quorum leaves the opinion unformed and
    /// resets the streak. A streak beyond the decision threshold finalises
    /// the decision.
    pub fn step(&mut self, votes: &Vec<Vote<Tx>>)
        requires
            !old(self).decision_spec().is_decided(),
            old(self).wf(),
        ensures
            final(self).wf(),
            ({
                let (success, decision) = old(self).step_result(votes@);
                &&& final(self).consecutive_success_spec() == success
                &&& final(self).decision_spec() == decision
            }),
            final(self).configuration == old(self).configuration,
            final(self).node_query_spec() == old(self).node_query_spec(),
    {
        let preference_count = self.count_opinion_votes(votes);
        let not_preference_count = votes.len() - preference_count;

        if preference_count >= self.configuration.quorum_size {
            self.consecutive_success = self.consecutive_success + 1;
        } else if not_preference_count >= self.configuration.quorum_size {
            if let Opinion::NoneYet(tx) = self.opinion() {
                let yes = crate::claro::count_yes(votes);
                if yes >= self.configuration.quorum_size {
                    self.decision = Decision::Undecided(Opinion::Yes(tx));
                    self.consecutive_success = 1;
                } else if votes.len() - yes >= self.configuration.quorum_size {
                    self.decision = Decision::Undecided(Opinion::No(tx));
                    self.consecutive_success = 1;
                } else {
                    self.consecutive_success = 0;
                }
            } else {
                self.decision = Decision::Undecided(self.opinion().flip());
                self.consecutive_success = 1;
            }
        } else {
            self.consecutive_success = 0;
        }

        if self.consecutive_success > self.configuration.decision_threshold as u64 {
            self.decision = Decision::Decided(self.opinion());
        }
    }

    pub fn consecutive_success(&self) -> (r: u64)
        ensures
            r == self.consecutive_success_spec(),
    {
        self.consecutive_success
    }

    pub fn decision(&self) -> (r: Decision<Tx>)
        ensures
            r == self.decision_spec(),
    {
        self.decision
    }

    pub fn opinion(&self) -> (r: Opinion<Tx>)
        ensures
            r == self.opinion_spec(),
    {
        self.decision.opinion()
    }

    /// Derive the published vote from the solver's current decision.
    pub fn vote(&self) -> (r: Option<Vote<Tx>>)
        ensures
            r == self.vote_spec(),
    {
        self.decision.to_vote()
    }

    pub fn node_query(&self) -> (r: &NodeQuery)
        ensures
            r == self.node_query_spec(),
    {
        &self.node_query
    }
}

/// An empty vote slice carries no quorum, so stepping a Snowball solver on
/// one resets the success streak and leaves the decision unchanged,
/// provided agreement quorums cannot be empty.
pub proof fn lemma_snowball_empty_step_keeps_decision<Tx>(solver: SnowballSolver<Tx>)
    requires
        solver.wf(),
        !solver.decision_spec().is_decided(),
        solver.configuration.quorum_size >= 1,
    ensures
        solver.step_result(Seq::<Vote<Tx>>::empty())
            == (0u64, solver.decision_spec()),
{
    assert(count_agreeing(Seq::<Vote<Tx>>::empty(), solver.vote_spec()) == 0);
}

/// A success streak beyond the decision threshold always means the solver
/// has decided: after any step, an undecided solver's streak is bounded by
/// the threshold.
pub proof fn lemma_snowball_streak_bounded<Tx>(solver: SnowballSolver<Tx>, votes: Seq<Vote<Tx>>)
    requires
        solver.wf(),
        !solver.decision_spec().is_decided(),
    ensures
        ({
            let (success, decision) = solver.step_result(votes);
            success > solver.configuration.decision_threshold as u64 ==> decision.is_decided()
        }),
{
}

} // verus!
