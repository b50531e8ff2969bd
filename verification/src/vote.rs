//! Tri-valued opinion algebra and the decision wrapper.
//!
//! A node's internal `Opinion` is `None`, `Yes` or `No`; its network-visible
//! `Vote` is `Yes` or `No` (a node with no opinion publishes nothing). A
//! `Decision` wraps an opinion with a finality flag.

use vstd::prelude::*;

verus! {

/// Transaction payload for simulations that care about the voting itself and
/// not about any transaction content.
#[derive(Copy, Clone, Debug, PartialEq, Eq)]
pub struct NoTx;

/// A network-visible vote over a transaction payload.
#[derive(Debug, Clone, Copy, Eq, PartialEq)]
pub enum Vote<Tx> {
    Yes(Tx),
    No(Tx),
}

/// A node's internal opinion: none formed yet, or one of the two polarities.
#[derive(Debug, Clone, Copy, Eq, PartialEq)]
pub enum Opinion<Tx> {
    NoneYet(Tx),
    Yes(Tx),
    No(Tx),
}

/// An opinion together with a finality flag.
#[derive(Debug, Clone, Copy, Eq, PartialEq)]
pub enum Decision<Tx> {
    Decided(Opinion<Tx>),
    Undecided(Opinion<Tx>),
}

impl<Tx> Vote<Tx> {
    /// The opinion that publishing this vote expresses.
    pub open spec fn to_opinion_spec(self) -> Opinion<Tx> {
        match self {
            Vote::Yes(tx) => Opinion::Yes(tx),
            Vote::No(tx) => Opinion::No(tx),
        }
    }

    pub open spec fn is_yes(self) -> bool {
        self is Yes
    }
}

impl<Tx: Copy> Vote<Tx> {
    /// Lift a vote back into the opinion it expresses.
    pub fn to_opinion(self) -> (r: Opinion<Tx>)
        ensures
            r == self.to_opinion_spec(),
    {
        match self {
            Vote::Yes(tx) => Opinion::Yes(tx),
            Vote::No(tx) => Opinion::No(tx),
        }
    }
}

impl<Tx> Opinion<Tx> {
    /// The opposite opinion; `None` stays `None`.
    pub open spec fn flip_spec(self) -> Opinion<Tx> {
        match self {
            Opinion::Yes(tx) => Opinion::No(tx),
            Opinion::No(tx) => Opinion::Yes(tx),
            none => none,
        }
    }

    /// The vote a node with this opinion publishes: none when no opinion has
    /// been formed.
    pub open spec fn to_vote_spec(self) -> Option<Vote<Tx>> {
        match self {
            Opinion::Yes(tx) => Some(Vote::Yes(tx)),
            Opinion::No(tx) => Some(Vote::No(tx)),
            Opinion::NoneYet(_) => None,
        }
    }
}

impl<Tx: Copy> Opinion<Tx> {
    /// Flip the polarity of an opinion; an absent opinion is unchanged.
    pub fn flip(self) -> (r: Self)
        ensures
            r == self.flip_spec(),
    {
        match self {
            Opinion::Yes(tx) => Opinion::No(tx),
            Opinion::No(tx) => Opinion::Yes(tx),
            none => none,
        }
    }

    /// Derive the published vote from an opinion.
    pub fn to_vote(self) -> (r: Option<Vote<Tx>>)
        ensures
            r == self.to_vote_spec(),
    {
        match self {
            Opinion::Yes(tx) => Some(Vote::Yes(tx)),
            Opinion::No(tx) => Some(Vote::No(tx)),
            Opinion::NoneYet(_) => None,
        }
    }
}

impl<Tx> Decision<Tx> {
    /// The opinion inside the decision, whatever the finality flag.
    pub open spec fn opinion_spec(self) -> Opinion<Tx> {
        match self {
            Decision::Decided(o) => o,
            Decision::Undecided(o) => o,
        }
    }

    pub open spec fn is_decided(self) -> bool {
        self is Decided
    }

    /// The vote a node holding this decision publishes.
    pub open spec fn to_vote_spec(self) -> Option<Vote<Tx>> {
        self.opinion_spec().to_vote_spec()
    }
}

impl<Tx: Copy> Decision<Tx> {
    /// Extract the opinion, whatever the finality flag.
    pub fn opinion(self) -> (r: Opinion<Tx>)
        ensures
            r == self.opinion_spec(),
    {
        match self {
            Decision::Decided(o) => o,
            Decision::Undecided(o) => o,
        }
    }

    /// Derive the published vote from a decision.
    pub fn to_vote(self) -> (r: Option<Vote<Tx>>)
        ensures
            r == self.to_vote_spec(),
    {
        self.opinion().to_vote()
    }
}

} // verus!
