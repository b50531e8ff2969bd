//! Wards: termination predicates over the simulation state.
//!
//! A ward is a computation over the simulation state that returns true when
//! the state satisfies its condition; the runner stops as soon as any
//! configured ward fires.

use vstd::prelude::*;
use vstd::arithmetic::mul::lemma_mul_upper_bound;

use fixed_slice_deque::FixedSliceDeque;

use crate::claro::PPM;
use crate::deque::{
    pair_deque_capacity, pair_deque_is_full, pair_deque_new, pair_deque_push_back,
    pair_deque_seq, pair_deque_to_vec,
};
use crate::node::NetworkState;
use crate::vote::{Decision, NoTx, Vote};

verus! {

/// A snapshot of the simulation the wards judge: the shared votes, every
/// node's decision, and the iteration and round counters.
pub struct SimulationState {
    pub network_state: NetworkState,
    pub decisions: Vec<Decision<NoTx>>,
    pub iteration: usize,
    pub round: usize,
}

/// A ward is a computation over the simulation state; it must return true
/// when the state satisfies its condition. `fires` says exactly when it
/// answers true, and `steps_to` how its own state advances in the process.
pub trait SimulationWard {
    spec fn wf(&self) -> bool;

    /// Whether analysing this state answers true.
    spec fn fires(&self, state: &SimulationState) -> bool;

    /// How the ward's own bookkeeping advances when analysing this state.
    spec fn steps_to(&self, next: &Self, state: &SimulationState) -> bool;

    fn analyze(&mut self, state: &SimulationState) -> (r: bool)
        requires
            old(self).wf(),
        ensures
            final(self).wf(),
            old(self).steps_to(final(self), state),
            r == old(self).fires(state),
    ;
}

/// Time-to-finality ward: fires once the round counter passes the
/// threshold.
#[derive(Debug, Clone, Copy, PartialEq, Eq)]
pub struct TimeToFinalityWard {
    pub ttf_threshold: usize,
}

impl SimulationWard for TimeToFinalityWard {
    open spec fn wf(&self) -> bool {
        true
    }

    open spec fn fires(&self, state: &SimulationState) -> bool {
        state.round > self.ttf_threshold
    }

    open spec fn steps_to(&self, next: &Self, state: &SimulationState) -> bool {
        next == self
    }

    fn analyze(&mut self, state: &SimulationState) -> bool {
        state.round > self.ttf_threshold
    }
}

/// How many of the decisions are final.
pub open spec fn count_decided(decisions: Seq<Decision<NoTx>>) -> nat
    decreases decisions.len(),
{
    if decisions.len() == 0 {
        0
    } else {
        count_decided(decisions.drop_last()) + if decisions.last() is Decided {
            1nat
        } else {
            0nat
        }
    }
}

/// The fraction `decided / len` reaches `ratio` (a ppm fraction), compared
/// exactly by cross products; an empty population never converges.
pub open spec fn converged_spec(ratio: int, len: int, decisions: Seq<Decision<NoTx>>) -> bool {
    len > 0 && count_decided(decisions) * (PPM as int) >= ratio * len
}

/// Converged ward: fires when the fraction of nodes in the `Decided` state
/// reaches the configured ratio, a parts-per-million fraction of one.
#[derive(Debug, Clone, Copy, PartialEq, Eq)]
pub struct ConvergedWard {
    pub ratio: u32,
}

impl ConvergedWard {
    pub fn new(ratio: u32) -> (r: Self)
        requires
            ratio <= PPM,
        ensures
            r.ratio == ratio,
            r.wf(),
    {
        ConvergedWard { ratio }
    }

    /// Whether `decisions` carries at least `ratio` of `len` many final
    /// decisions.
    pub fn converged(&self, len: usize, decisions: &Vec<Decision<NoTx>>) -> (r: bool)
        ensures
            r == converged_spec(self.ratio as int, len as int, decisions@),
    {
        let mut total_decided: usize = 0;
        let mut i: usize = 0;
        while i < decisions.len()
            invariant
                i <= decisions@.len(),
                total_decided == count_decided(decisions@.take(i as int)),
                total_decided <= i,
            decreases decisions@.len() - i,
        {
            proof {
                assert(decisions@.take(i + 1 as int).drop_last() =~= decisions@.take(i as int));
                assert(decisions@.take(i + 1 as int).last() == decisions@[i as int]);
            }
            if let Decision::Decided(_) = decisions[i] {
                total_decided = total_decided + 1;
            }
            i = i + 1;
        }
        proof {
            assert(decisions@.take(decisions@.len() as int) =~= decisions@);
            lemma_mul_upper_bound(total_decided as int, u64::MAX as int, PPM as int, PPM as int);
            lemma_mul_upper_bound(self.ratio as int, u32::MAX as int, len as int, u64::MAX as int);
        }
        len > 0 && (total_decided as u128) * (PPM as u128) >= (self.ratio as u128) * (len as u128)
    }
}

impl SimulationWard for ConvergedWard {
    open spec fn wf(&self) -> bool {
        self.ratio <= PPM
    }

    open spec fn fires(&self, state: &SimulationState) -> bool {
        converged_spec(self.ratio as int, state.decisions@.len() as int, state.decisions@)
    }

    open spec fn steps_to(&self, next: &Self, state: &SimulationState) -> bool {
        next == self
    }

    fn analyze(&mut self, state: &SimulationState) -> bool {
        self.converged(state.decisions.len(), &state.decisions)
    }
}

/// When the stabilised ward samples: on every `chunk`th iteration, or
/// whenever the round counter has advanced since the last sample.
#[derive(Debug, Clone, Copy, PartialEq, Eq)]
pub enum StabilisedCheck {
    Iterations { chunk: usize },
    Rounds { last_round: usize },
}

impl StabilisedCheck {
    pub open spec fn wf(self) -> bool {
        self matches StabilisedCheck::Iterations { chunk } ==> chunk > 0
    }

    /// Whether this state is sampled.
    pub open spec fn should_check_spec(self, state: SimulationState) -> bool {
        match self {
            StabilisedCheck::Iterations { chunk } => state.iteration % chunk == 0,
            StabilisedCheck::Rounds { last_round } => last_round < state.round,
        }
    }

    /// The check's own bookkeeping after looking at this state.
    pub open spec fn after_check(self, state: SimulationState) -> StabilisedCheck {
        match self {
            StabilisedCheck::Iterations { chunk } => self,
            StabilisedCheck::Rounds { last_round } => StabilisedCheck::Rounds {
                last_round: state.round,
            },
        }
    }

    /// Decide whether to sample this state, remembering the round counter.
    pub fn should_check(&mut self, state: &SimulationState) -> (r: bool)
        requires
            old(self).wf(),
        ensures
            final(self).wf(),
            r == old(self).should_check_spec(*state),
            *final(self) == old(self).after_check(*state),
    {
        match self {
            StabilisedCheck::Iterations { chunk } => (state.iteration % *chunk) == 0,
            StabilisedCheck::Rounds { last_round } => {
                let different_round = *last_round < state.round;
                *last_round = state.round;
                different_round
            },
        }
    }
}

/// How many entries of the shared vote vector are `Yes` votes.
pub open spec fn count_yes_entries(net: Seq<Option<Vote<NoTx>>>) -> nat
    decreases net.len(),
{
    if net.len() == 0 {
        0
    } else {
        count_yes_entries(net.drop_last()) + if net.last() matches Some(Vote::Yes(_)) {
            1nat
        } else {
            0nat
        }
    }
}

/// How many entries of the shared vote vector are `No` votes.
pub open spec fn count_no_entries(net: Seq<Option<Vote<NoTx>>>) -> nat
    decreases net.len(),
{
    if net.len() == 0 {
        0
    } else {
        count_no_entries(net.drop_last()) + if net.last() matches Some(Vote::No(_)) {
            1nat
        } else {
            0nat
        }
    }
}

/// A buffer of samples is stabilised when it is full and all its samples
/// are equal.
pub open spec fn stabilised_seq(samples: Seq<(usize, usize)>, capacity: nat) -> bool {
    &&& samples.len() == capacity
    &&& forall|k: int| 0 <= k < samples.len() ==> #[trigger] samples[k] == samples[0]
}

/// The sample buffer after pushing one more sample into a bounded buffer:
/// a full buffer forgets its oldest sample.
pub open spec fn pushed_sample(
    samples: Seq<(usize, usize)>,
    capacity: nat,
    sample: (usize, usize),
) -> Seq<(usize, usize)> {
    if samples.len() == capacity {
        samples.drop_first().push(sample)
    } else {
        samples.push(sample)
    }
}

/// Stabilised ward: keeps the last `N` samples of the network's
/// `(yes, no)` vote counts and fires when the buffer is full and all
/// samples are equal.
pub struct StabilisedWard {
    pub buffer: FixedSliceDeque<(usize, usize)>,
    pub check: StabilisedCheck,
}

impl StabilisedWard {
    /// A ward that samples every `chunk` iterations into a buffer of
    /// `buffer_size` samples.
    pub fn new_iterations(buffer_size: usize, chunk: usize) -> (r: Self)
        requires
            buffer_size >= 1,
            chunk >= 1,
        ensures
            r.wf(),
            pair_deque_seq(r.buffer) == Seq::<(usize, usize)>::empty(),
            pair_deque_capacity(r.buffer) == buffer_size,
            r.check == (StabilisedCheck::Iterations { chunk }),
    {
        StabilisedWard {
            buffer: pair_deque_new(buffer_size),
            check: StabilisedCheck::Iterations { chunk },
        }
    }

    /// A ward that samples once per round into a buffer of `buffer_size`
    /// samples.
    pub fn new_rounds(buffer_size: usize) -> (r: Self)
        requires
            buffer_size >= 1,
        ensures
            r.wf(),
            pair_deque_seq(r.buffer) == Seq::<(usize, usize)>::empty(),
            pair_deque_capacity(r.buffer) == buffer_size,
            r.check == (StabilisedCheck::Rounds { last_round: 0 }),
    {
        StabilisedWard {
            buffer: pair_deque_new(buffer_size),
            check: StabilisedCheck::Rounds { last_round: 0 },
        }
    }

    /// The `(yes, no)` vote counts of the shared vector.
    pub fn count_state(network_state: &NetworkState) -> (r: (usize, usize))
        ensures
            r.0 == count_yes_entries(network_state@),
            r.1 == count_no_entries(network_state@),
    {
        let mut yes: usize = 0;
        let mut no: usize = 0;
        let mut i: usize = 0;
        while i < network_state.len()
            invariant
                i <= network_state@.len(),
                yes == count_yes_entries(network_state@.take(i as int)),
                no == count_no_entries(network_state@.take(i as int)),
                yes <= i,
                no <= i,
            decreases network_state@.len() - i,
        {
            proof {
                assert(network_state@.take(i + 1 as int).drop_last()
                    =~= network_state@.take(i as int));
                assert(network_state@.take(i + 1 as int).last() == network_state@[i as int]);
            }
            match network_state[i] {
                Some(Vote::Yes(_)) => {
                    yes = yes + 1;
                },
                Some(Vote::No(_)) => {
                    no = no + 1;
                },
                _ => {},
            }
            i = i + 1;
        }
        proof {
            assert(network_state@.take(network_state@.len() as int) =~= network_state@);
        }
        (yes, no)
    }

    /// Whether the buffer is full and all its samples are equal.
    fn is_stabilised(&self) -> (r: bool)
        requires
            self.wf(),
        ensures
            r == stabilised_seq(pair_deque_seq(self.buffer), pair_deque_capacity(self.buffer)),
    {
        if !pair_deque_is_full(&self.buffer) {
            return false;
        }
        let samples = pair_deque_to_vec(&self.buffer);
        let mut k: usize = 1;
        while k < samples.len()
            invariant
                samples@ == pair_deque_seq(self.buffer),
                samples@.len() == pair_deque_capacity(self.buffer),
                samples@.len() >= 1,
                1 <= k <= samples@.len(),
                forall|j: int| 0 <= j < k ==> #[trigger] samples@[j] == samples@[0],
            decreases samples@.len() - k,
        {
            let (a, b) = samples[k];
            let (a0, b0) = samples[0];
            if a != a0 || b != b0 {
                proof {
                    assert(samples@[k as int] != samples@[0]);
                }
                return false;
            }
            k = k + 1;
        }
        true
    }
}

impl SimulationWard for StabilisedWard {
    open spec fn wf(&self) -> bool {
        &&& pair_deque_capacity(self.buffer) >= 1
        &&& pair_deque_seq(self.buffer).len() <= pair_deque_capacity(self.buffer)
        &&& self.check.wf()
    }

    open spec fn fires(&self, state: &SimulationState) -> bool {
        &&& self.check.should_check_spec(*state)
        &&& stabilised_seq(
            pushed_sample(
                pair_deque_seq(self.buffer),
                pair_deque_capacity(self.buffer),
                (
                    count_yes_entries(state.network_state@) as usize,
                    count_no_entries(state.network_state@) as usize,
                ),
            ),
            pair_deque_capacity(self.buffer),
        )
    }

    open spec fn steps_to(&self, next: &Self, state: &SimulationState) -> bool {
        &&& next.check == self.check.after_check(*state)
        &&& pair_deque_capacity(next.buffer) == pair_deque_capacity(self.buffer)
        &&& pair_deque_seq(next.buffer) == if self.check.should_check_spec(*state) {
            pushed_sample(
                pair_deque_seq(self.buffer),
                pair_deque_capacity(self.buffer),
                (
                    count_yes_entries(state.network_state@) as usize,
                    count_no_entries(state.network_state@) as usize,
                ),
            )
        } else {
            pair_deque_seq(self.buffer)
        }
    }

    fn analyze(&mut self, state: &SimulationState) -> bool {
        if !self.check.should_check(state) {
            return false;
        }
        let sample = StabilisedWard::count_state(&state.network_state);
        let _ = pair_deque_push_back(&mut self.buffer, sample);
        self.is_stabilised()
    }
}

/// Ward dispatcher: one variant per ward, avoiding dynamic dispatch.
pub enum Ward {
    Ttf(TimeToFinalityWard),
    Stabilised(StabilisedWard),
    Converged(ConvergedWard),
}

impl SimulationWard for Ward {
    open spec fn wf(&self) -> bool {
        match self {
            Ward::Ttf(w) => w.wf(),
            Ward::Stabilised(w) => w.wf(),
            Ward::Converged(w) => w.wf(),
        }
    }

    open spec fn fires(&self, state: &SimulationState) -> bool {
        match self {
            Ward::Ttf(w) => w.fires(state),
            Ward::Stabilised(w) => w.fires(state),
            Ward::Converged(w) => w.fires(state),
        }
    }

    open spec fn steps_to(&self, next: &Self, state: &SimulationState) -> bool {
        match (self, next) {
            (Ward::Ttf(a), Ward::Ttf(b)) => a.steps_to(b, state),
            (Ward::Stabilised(a), Ward::Stabilised(b)) => a.steps_to(b, state),
            (Ward::Converged(a), Ward::Converged(b)) => a.steps_to(b, state),
            _ => false,
        }
    }

    fn analyze(&mut self, state: &SimulationState) -> bool {
        match self {
            Ward::Ttf(w) => w.analyze(state),
            Ward::Stabilised(w) => w.analyze(state),
            Ward::Converged(w) => w.analyze(state),
        }
    }
}

/// A converged ward demanding full convergence (a ratio of one) fires
/// exactly when every node is decided, for a non-empty population.
pub proof fn lemma_converged_full_ratio(len: int, decisions: Seq<Decision<NoTx>>)
    requires
        decisions.len() == len,
        len > 0,
    ensures
        converged_spec(PPM as int, len, decisions) <==> forall|k: int|
            0 <= k < decisions.len() ==> decisions[k] is Decided,
{
    lemma_count_decided_le(decisions);
    if forall|k: int| 0 <= k < decisions.len() ==> decisions[k] is Decided {
        lemma_count_decided_all(decisions);
    }
    if converged_spec(PPM as int, len, decisions) {
        assert(count_decided(decisions) * (PPM as int) >= (PPM as int) * len);
        assert(count_decided(decisions) >= len) by (nonlinear_arith)
            requires
                count_decided(decisions) * (PPM as int) >= (PPM as int) * len,
                PPM as int > 0,
        ;
        lemma_count_decided_complete(decisions);
    }
}

/// The decided count never exceeds the number of decisions.
pub proof fn lemma_count_decided_le(decisions: Seq<Decision<NoTx>>)
    ensures
        count_decided(decisions) <= decisions.len(),
    decreases decisions.len(),
{
    if decisions.len() > 0 {
        lemma_count_decided_le(decisions.drop_last());
    }
}

/// All decisions final means the decided count is the whole length.
proof fn lemma_count_decided_all(decisions: Seq<Decision<NoTx>>)
    requires
        forall|k: int| 0 <= k < decisions.len() ==> decisions[k] is Decided,
    ensures
        count_decided(decisions) == decisions.len(),
    decreases decisions.len(),
{
    if decisions.len() > 0 {
        lemma_count_decided_all(decisions.drop_last());
    }
}

/// A full decided count means every decision is final.
proof fn lemma_count_decided_complete(decisions: Seq<Decision<NoTx>>)
    requires
        count_decided(decisions) >= decisions.len(),
    ensures
        forall|k: int| 0 <= k < decisions.len() ==> decisions[k] is Decided,
    decreases decisions.len(),
{
    if decisions.len() > 0 {
        lemma_count_decided_le(decisions.drop_last());
        lemma_count_decided_complete(decisions.drop_last());
        assert forall|k: int| 0 <= k < decisions.len() implies decisions[k] is Decided by {
            if k < decisions.len() - 1 {
                assert(decisions.drop_last()[k] == decisions[k]);
            }
        }
    }
}

} // verus!
