//! Network perturbations applied to the shared vote vector between steps.

use vstd::prelude::*;
use vstd::arithmetic::mul::lemma_mul_inequality;
use vstd::arithmetic::mul::lemma_mul_upper_bound;
use vstd::set_lib::lemma_int_range;
use vstd::set_lib::lemma_len_subset;

use crate::claro::PPM;
use crate::node::NetworkState;
use crate::rng::{choose_indices, SimRng};
use crate::vote::{NoTx, Vote};

verus! {

/// A modifier mutates the shared vote vector under exclusive access: it may
/// drop entries but never invents or alters a vote.
pub trait NetworkBehaviour {
    fn modify_network_state(&mut self, network_state: &mut NetworkState, rng: &mut SimRng)
        ensures
            final(network_state)@.len() == old(network_state)@.len(),
            forall|j: int|
                0 <= j < final(network_state)@.len() ==> final(network_state)@[j]
                    == old(network_state)@[j] || final(network_state)@[j] is None,
    ;
}

/// The dropped positions are pairwise distinct in-range slots, exactly
/// `amount` of them; they are set to absent and every other entry is
/// unchanged.
pub open spec fn drop_positions_for(
    dropped: Seq<usize>,
    before: Seq<Option<Vote<NoTx>>>,
    after: Seq<Option<Vote<NoTx>>>,
    amount: int,
) -> bool {
    &&& after.len() == before.len()
    &&& dropped.len() == amount
    &&& forall|k: int| 0 <= k < dropped.len() ==> (#[trigger] dropped[k]) < before.len()
    &&& forall|a: int, b: int|
        0 <= a < b < dropped.len() ==> #[trigger] dropped[a] != #[trigger] dropped[b]
    &&& forall|j: int|
        0 <= j < before.len() ==> #[trigger] after[j] == if dropped.contains(j as usize) {
            None::<Vote<NoTx>>
        } else {
            before[j]
        }
}

/// Exactly `amount` distinct positions were set to absent; all other
/// entries are unchanged.
pub open spec fn drops_exactly(
    before: Seq<Option<Vote<NoTx>>>,
    after: Seq<Option<Vote<NoTx>>>,
    amount: int,
) -> bool {
    exists|dropped: Seq<usize>| #[trigger] drop_positions_for(dropped, before, after, amount)
}

/// Randomly set a fraction of the network votes to absent. The rate is a
/// parts-per-million fraction, clamped to `[0, 1]`.
#[derive(Debug, Clone, Copy, PartialEq, Eq)]
pub struct RandomDrop {
    pub drop_rate: u32,
}

impl RandomDrop {
    /// The drop rate clamped to one million ppm.
    pub open spec fn clamped_rate(self) -> int {
        if self.drop_rate > PPM { PPM as int } else { self.drop_rate as int }
    }

    /// How many entries are dropped: the rate times the length, rounded to
    /// the nearest integer.
    pub open spec fn drop_amount(self, len: int) -> int {
        (self.clamped_rate() * len + (PPM as int) / 2) / (PPM as int)
    }

    pub fn new(drop_rate: u32) -> (r: Self)
        ensures
            r.drop_rate == drop_rate,
    {
        RandomDrop { drop_rate }
    }

    /// Set `round(rate * len)` uniformly chosen entries to absent: exactly
    /// `drop_amount` distinct entries become absent and no other entry
    /// changes; a rate of zero changes nothing, and a rate of one (or more)
    /// empties every slot.
    pub fn drop_votes(&self, network_state: &mut NetworkState, rng: &mut SimRng)
        ensures
            final(network_state)@.len() == old(network_state)@.len(),
            forall|j: int|
                0 <= j < final(network_state)@.len() ==> final(network_state)@[j]
                    == old(network_state)@[j] || final(network_state)@[j] is None,
            drops_exactly(
                old(network_state)@,
                final(network_state)@,
                self.drop_amount(old(network_state)@.len() as int),
            ),
            self.clamped_rate() == 0 ==> final(network_state)@ == old(network_state)@,
            self.clamped_rate() == PPM ==> forall|j: int|
                0 <= j < final(network_state)@.len() ==> final(network_state)@[j] is None,
    {
        let len = network_state.len();
        let rate: u32 = if self.drop_rate > (PPM as u32) { PPM as u32 } else { self.drop_rate };
        proof {
            lemma_mul_upper_bound(rate as int, PPM as int, len as int, u64::MAX as int);
        }
        let scaled = (rate as u128) * (len as u128) + ((PPM / 2) as u128);
        let amount128 = scaled / (PPM as u128);
        proof {
            lemma_mul_inequality(rate as int, PPM as int, len as int);
            assert(((PPM as int) * (len as int) + (PPM as int) / 2) / (PPM as int) == len as int)
                by (nonlinear_arith)
                requires len >= 0,
            ;
            vstd::arithmetic::div_mod::lemma_div_is_ordered(
                scaled as int,
                (PPM as int) * (len as int) + (PPM as int) / 2,
                PPM as int,
            );
            assert(amount128 <= len);
        }
        let amount = amount128 as usize;
        let indices = choose_indices(rng, len, amount);
        let ghost net0 = network_state@;
        let mut i: usize = 0;
        while i < indices.len()
            invariant
                i <= indices@.len(),
                net0.len() == len as int,
                network_state@.len() == net0.len(),
                forall|k: int| 0 <= k < indices@.len() ==> indices@[k] < net0.len(),
                forall|j: int|
                    0 <= j < net0.len() ==> #[trigger] network_state@[j]
                        == if indices@.take(i as int).contains(j as usize) {
                            None::<Vote<NoTx>>
                        } else {
                            net0[j]
                        },
            decreases indices@.len() - i,
        {
            let idx = indices[i];
            network_state.set(idx, None::<Vote<NoTx>>);
            proof {
                assert forall|j: int| 0 <= j < net0.len() implies #[trigger] network_state@[j]
                    == if indices@.take(i + 1 as int).contains(j as usize) {
                        None::<Vote<NoTx>>
                    } else {
                        net0[j]
                    } by {
                    let pre = indices@.take(i as int);
                    let post = indices@.take(i + 1 as int);
                    let x = indices@[i as int];
                    assert(post =~= pre.push(x));
                    assert(post.contains(x)) by {
                        assert(post[i as int] == x);
                    }
                    assert(j as usize as int == j);
                    if j == x as int {
                        assert(network_state@[j] is None);
                        assert(post.contains(j as usize));
                    } else {
                        assert(j as usize != x);
                        if post.contains(j as usize) {
                            assert(pre.contains(j as usize));
                        } else {
                            assert(!pre.contains(j as usize));
                        }
                    }
                }
            }
            i = i + 1;
        }
        proof {
            assert(indices@.take(indices@.len() as int) =~= indices@);
            assert(drop_positions_for(
                indices@,
                net0,
                network_state@,
                self.drop_amount(net0.len() as int),
            ));
            if self.clamped_rate() == 0 {
                assert((rate as int) * (len as int) == 0) by (nonlinear_arith)
                    requires rate as int == 0,
                ;
                assert(amount128 == 0) by {
                    assert(((PPM / 2) as u128) / (PPM as u128) == 0);
                }
                assert(network_state@ =~= net0);
            }
            if self.clamped_rate() == PPM {
                assert(amount128 == len) by {
                    assert(((PPM as int) * (len as int) + (PPM as int) / 2) / (PPM as int)
                        == len as int) by (nonlinear_arith)
                        requires len >= 0,
                    ;
                }
                if len > 0 {
                    lemma_full_cover(indices@, len as int);
                    assert forall|j: int| 0 <= j < net0.len()
                        implies network_state@[j] is None by {
                        assert(indices@.contains(j as usize));
                    }
                }
            }
        }
    }
}

/// A sequence of `n` distinct positions below `n` covers every position
/// below `n`.
proof fn lemma_full_cover(indices: Seq<usize>, n: int)
    requires
        indices.len() == n,
        n > 0,
        forall|k: int| 0 <= k < indices.len() ==> indices[k] < n,
        forall|i: int, j: int| 0 <= i < j < indices.len() ==> indices[i] != indices[j],
    ensures
        forall|j: usize| j < n ==> #[trigger] indices.contains(j),
{
    broadcast use vstd::seq_lib::seq_to_set_is_finite;
    broadcast use vstd::set::group_set_axioms;

    let mapped = indices.map_values(|u: usize| u as int);
    assert(mapped.no_duplicates()) by {
        assert forall|i: int, j: int|
            0 <= i < mapped.len() && 0 <= j < mapped.len() && i != j
            implies mapped[i] != mapped[j] by {
            if i < j {
                assert(indices[i] != indices[j]);
            } else {
                assert(indices[j] != indices[i]);
            }
        }
    }
    mapped.unique_seq_to_set();
    let s = mapped.to_set();
    let range = vstd::set_lib::set_int_range(0, n);
    lemma_int_range(0, n);
    assert(s.subset_of(range));
    assert forall|j: usize| j < n implies #[trigger] indices.contains(j) by {
        if !s.contains(j as int) {
            assert(s.subset_of(range.remove(j as int)));
            lemma_len_subset(s, range.remove(j as int));
            assert(false);
        }
        let k = choose|k: int| 0 <= k < mapped.len() && mapped[k] == j as int;
        assert(indices[k] == j);
    }
}

/// Network modifier dispatcher: one variant per modifier, avoiding dynamic
/// dispatch.
#[derive(Debug, Clone, Copy, PartialEq, Eq)]
pub enum NetworkModifiers {
    RandomDrop(RandomDrop),
}

impl NetworkBehaviour for NetworkModifiers {
    fn modify_network_state(&mut self, network_state: &mut NetworkState, rng: &mut SimRng) {
        match self {
            NetworkModifiers::RandomDrop(behaviour) => behaviour.drop_votes(network_state, rng),
        }
    }
}

} // verus!
