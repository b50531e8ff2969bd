//! Simulation settings: consensus selection, initial opinion distribution,
//! byzantine population mix, wards, modifiers and scheduling style.
//!
//! All fractions are parts-per-million values; a distribution is normalized
//! when its parts sum to exactly one million.

use vstd::prelude::*;

use crate::claro::{ClaroConfiguration, PPM};
use crate::network_behaviour::NetworkModifiers;
use crate::snowball::SnowballConfiguration;
use crate::vote::{NoTx, Opinion};
use crate::warding::{SimulationWard, Ward};

verus! {

/// Which consensus algorithm the honest nodes run.
#[derive(Debug, Clone, Copy, PartialEq, Eq)]
pub enum ConsensusSettings {
    SnowBall(SnowballConfiguration),
    Claro(ClaroConfiguration),
}

impl ConsensusSettings {
    pub open spec fn wf(self) -> bool {
        match self {
            ConsensusSettings::SnowBall(c) => c.decision_threshold < u64::MAX,
            ConsensusSettings::Claro(c) => c.wf(),
        }
    }

    pub open spec fn query_size_spec(self) -> usize {
        match self {
            ConsensusSettings::SnowBall(snowball) => snowball.sample_size,
            ConsensusSettings::Claro(claro) => claro.query.query_size,
        }
    }

    /// How many peers one honest node samples each round.
    pub fn query_size(&self) -> (r: usize)
        ensures
            r == self.query_size_spec(),
    {
        match self {
            ConsensusSettings::SnowBall(snowball) => snowball.sample_size,
            ConsensusSettings::Claro(claro) => claro.query.query_size,
        }
    }
}

/// A distribution is reported back with the sum its parts reached when that
/// sum is not exactly one.
#[derive(Debug, Clone, Copy, PartialEq, Eq)]
pub enum SettingsError {
    /// The parts of a distribution summed to this many ppm instead of one
    /// million.
    NotNormalized { sum: u64 },
}

/// Initial opinion distribution for honest nodes, in ppm. Must sum to one.
#[derive(Debug, Clone, Copy, PartialEq, Eq)]
pub struct InitialDistribution {
    pub yes: u32,
    pub no: u32,
    pub none: u32,
}

impl InitialDistribution {
    pub open spec fn sum(self) -> int {
        self.yes + self.no + self.none
    }

    /// The ppm weight of one opinion in this distribution.
    pub fn weight_by_opinion(&self, opinion: &Opinion<NoTx>) -> (r: u32)
        ensures
            r == match *opinion {
                Opinion::NoneYet(_) => self.none,
                Opinion::Yes(_) => self.yes,
                Opinion::No(_) => self.no,
            },
    {
        match opinion {
            Opinion::NoneYet(_) => self.none,
            Opinion::Yes(_) => self.yes,
            Opinion::No(_) => self.no,
        }
    }

    /// Accept the distribution exactly when its parts sum to one.
    pub fn check_distribution(&self) -> (r: Result<(), SettingsError>)
        ensures
            r is Ok <==> self.sum() == PPM,
            r matches Err(e) ==> e == (SettingsError::NotNormalized { sum: self.sum() as u64 }),
    {
        let sum = self.yes as u64 + self.no as u64 + self.none as u64;
        if sum == PPM {
            Ok(())
        } else {
            Err(SettingsError::NotNormalized { sum })
        }
    }
}

/// Byzantine population mix, in ppm. Must sum to one.
#[derive(Debug, Clone, Copy, PartialEq, Eq)]
pub struct ByzantineDistribution {
    pub honest: u32,
    pub infantile: u32,
    pub random: u32,
    pub omniscient: u32,
}

impl ByzantineDistribution {
    pub open spec fn sum(self) -> int {
        self.honest + self.infantile + self.random + self.omniscient
    }

    /// Accept the distribution exactly when its parts sum to one.
    pub fn check_distribution(&self) -> (r: Result<(), SettingsError>)
        ensures
            r is Ok <==> self.sum() == PPM,
            r matches Err(e) ==> e == (SettingsError::NotNormalized { sum: self.sum() as u64 }),
    {
        let sum = self.honest as u64 + self.infantile as u64 + self.random as u64
            + self.omniscient as u64;
        if sum == PPM {
            Ok(())
        } else {
            Err(SettingsError::NotNormalized { sum })
        }
    }
}

/// Byzantine settings: the population size and its behaviour mix.
#[derive(Debug, Clone, Copy, PartialEq, Eq)]
pub struct ByzantineSettings {
    pub total_size: usize,
    pub distribution: ByzantineDistribution,
}

/// The total of the first `n` layer weights.
pub open spec fn weights_total(ws: Seq<u32>, n: int) -> int
    decreases n,
{
    if n <= 0 {
        0
    } else {
        weights_total(ws, n - 1) + ws[n - 1]
    }
}

/// The weight total only grows with more layers.
pub proof fn lemma_weights_total_monotone(ws: Seq<u32>, a: int, b: int)
    requires
        0 <= a <= b,
    ensures
        weights_total(ws, a) <= weights_total(ws, b),
    decreases b,
{
    if a < b {
        lemma_weights_total_monotone(ws, a, b - 1);
    }
}

/// A run of unit weights totals its length.
pub proof fn lemma_unit_weights_total(ws: Seq<u32>, n: int)
    requires
        0 <= n <= ws.len(),
        forall|k: int| 0 <= k < n ==> #[trigger] ws[k] == 1,
    ensures
        weights_total(ws, n) == n,
    decreases n,
{
    if n > 0 {
        lemma_unit_weights_total(ws, n - 1);
    }
}

/// The scheduling discipline a run uses.
#[derive(Debug, Clone, PartialEq, Eq)]
pub enum SimulationStyle {
    /// Every node steps every iteration against the previous iteration's
    /// votes.
    Sync,
    /// Each round is a random permutation of the nodes cut into chunks;
    /// chunks see the votes written by earlier chunks.
    Async { chunks: usize },
    /// One uniformly chosen still-undecided node steps per iteration, up to
    /// a bound, with snapshots grouped by the update rate.
    Glauber { maximum_iterations: usize, update_rate: usize },
    /// A bounded window of layers; nodes advance to the next layer as they
    /// step, weighted by the layer distribution.
    Layered { rounds_gap: usize, distribution: Option<Vec<u32>> },
}

impl SimulationStyle {
    pub open spec fn wf(self) -> bool {
        match self {
            SimulationStyle::Sync => true,
            SimulationStyle::Async { chunks } => chunks >= 1,
            SimulationStyle::Glauber { maximum_iterations, update_rate } => update_rate >= 1,
            SimulationStyle::Layered { rounds_gap, distribution } => {
                &&& rounds_gap >= 1
                &&& rounds_gap < usize::MAX
                &&& match distribution {
                    Some(d) => d@.len() >= rounds_gap && weights_total(d@, rounds_gap as int)
                        <= u32::MAX,
                    None => rounds_gap <= u32::MAX,
                }
            },
        }
    }
}

/// Full simulation settings: consensus configuration, initial opinion
/// distribution, byzantine mix, wards, network modifiers, scheduling style
/// and the optional seed.
pub struct SimulationSettings {
    pub consensus_settings: ConsensusSettings,
    pub distribution: InitialDistribution,
    pub byzantine_settings: ByzantineSettings,
    pub wards: Vec<Ward>,
    pub network_modifiers: Vec<NetworkModifiers>,
    pub simulation_style: SimulationStyle,
    pub seed: Option<u64>,
}

impl SimulationSettings {
    /// What a runner needs of its settings: well-formed consensus and ward
    /// configuration, normalized distributions, and a population small
    /// enough that every node can sample it.
    pub open spec fn wf(self) -> bool {
        &&& self.consensus_settings.wf()
        &&& self.consensus_settings.query_size_spec() < usize::MAX
        &&& self.byzantine_settings.total_size < usize::MAX
        &&& self.byzantine_settings.total_size <= crate::claro::COUNT_CAP
        &&& self.distribution.sum() == PPM
        &&& self.byzantine_settings.distribution.sum() == PPM
        &&& forall|i: int| 0 <= i < self.wards@.len() ==> (#[trigger] self.wards@[i]).wf()
        &&& self.simulation_style.wf()
    }
}

} // verus!
