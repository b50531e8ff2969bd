//! Node-query sampling: weighted random selection of peers excluding self.

use vstd::prelude::*;

use crate::rng::sample_weighted_indices;
use crate::vote::Vote;

verus! {

/// Node identifier used by the samplers.
pub type NodeId = String;

/// Node weight: the amount of stake a node holds.
pub type NodeWeight = u32;

/// Node ids and weights available for sampling. The methods carry no
/// contracts: implementations are the library users' own, so nothing can be
/// promised of what they hand back. The exact sampling contract therefore
/// stands at [`NodeQuery::sample_from`], which takes the lists as
/// arguments.
pub trait NodesSample {
    fn nodes(&self) -> Vec<NodeId>;

    /// The weight of each node, aligned with `nodes`.
    fn weights(&self) -> Vec<NodeWeight>;
}

/// Selector of nodes: a weighted random sample of some size `K`, excluding
/// the querying node itself.
#[derive(Debug, Clone)]
pub struct NodeQuery {
    pub node_size: usize,
    pub node_id: NodeId,
}

impl NodeQuery {
    pub open spec fn query_size_spec(self) -> usize {
        self.node_size
    }

    pub open spec fn node_id_spec(self) -> NodeId {
        self.node_id
    }

    pub fn new(node_size: usize, node_id: NodeId) -> (r: Self)
        ensures
            r.query_size_spec() == node_size,
            r.node_id_spec() == node_id,
    {
        NodeQuery { node_size, node_id }
    }

    pub fn query_size(&self) -> (r: usize)
        ensures
            r == self.query_size_spec(),
    {
        self.node_size
    }

    pub fn node_id(&self) -> (r: &NodeId)
        ensures
            r == self.node_id_spec(),
    {
        &self.node_id
    }

    /// Draw up to `query_size` distinct peer ids by weighted sampling
    /// without replacement, excluding this node's own id. The node weights
    /// come from the sample, aligned with its ids; when the two lists do
    /// not align, no peers are drawn. The `NodesSample` methods carry no
    /// contracts (their implementations are the library users' own), so the
    /// exact clauses — membership, distinctness and the result's exact size
    /// — stand at [`Self::sample_from`], to which this delegates.
    pub fn sample<Sample: NodesSample>(&self, node_sample: &Sample, rng: &mut crate::rng::SimRng)
        -> (r: Vec<NodeId>)
        requires
            self.query_size_spec() < usize::MAX,
        ensures
            r@.len() <= self.query_size_spec(),
            forall|i: int| 0 <= i < r@.len() ==> (#[trigger] r@[i])@ != self.node_id_spec()@,
    {
        let node_ids = node_sample.nodes();
        let weights = node_sample.weights();
        if node_ids.len() == weights.len() {
            self.sample_from(&node_ids, &weights, rng)
        } else {
            Vec::new()
        }
    }

    /// Draw up to `query_size` distinct peer ids by weighted sampling
    /// without replacement from the given ids, excluding this node's own id.
    /// One extra draw is requested so that drawing oneself costs a single
    /// draw.
    ///
    /// Every returned id is one of the given ids and differs from this
    /// node's own; when the given ids are distinct so are the returned
    /// ones; when more than `query_size` distinct ids are given, exactly
    /// `query_size` come back; and when this node's own id is not among
    /// distinct given ids, exactly `min(query_size, ids)` come back.
    pub fn sample_from(
        &self,
        node_ids: &Vec<NodeId>,
        weights: &Vec<u32>,
        rng: &mut crate::rng::SimRng,
    ) -> (r: Vec<NodeId>)
        requires
            self.query_size_spec() < usize::MAX,
            node_ids@.len() == weights@.len(),
        ensures
            r@.len() <= self.query_size_spec(),
            forall|i: int| 0 <= i < r@.len() ==> (#[trigger] r@[i])@ != self.node_id_spec()@,
            forall|i: int|
                0 <= i < r@.len() ==> exists|j: int|
                    0 <= j < node_ids@.len() && (#[trigger] r@[i])@ == node_ids@[j]@,
            distinct_ids(node_ids@) ==> forall|i: int, j: int|
                0 <= i < j < r@.len() ==> (#[trigger] r@[i])@ != (#[trigger] r@[j])@,
            distinct_ids(node_ids@) && node_ids@.len() > self.query_size_spec() ==> r@.len()
                == self.query_size_spec(),
            distinct_ids(node_ids@) && !id_text_listed(node_ids@, self.node_id_spec()@)
                ==> r@.len() == if self.query_size_spec() <= node_ids@.len() {
                    self.query_size_spec() as int
                } else {
                    node_ids@.len() as int
                },
    {
        let mut result: Vec<NodeId> = Vec::new();
        let indices = sample_weighted_indices(rng, &weights, self.node_size + 1);
        let ghost me = self.node_id@;
        let ghost mut sources: Seq<usize> = Seq::empty();
        let mut i: usize = 0;
        while i < indices.len()
            invariant
                i <= indices@.len(),
                result@.len() <= self.node_size,
                node_ids@.len() == weights@.len(),
                forall|k: int| 0 <= k < indices@.len() ==> indices@[k] < node_ids@.len(),
                forall|a: int, b: int|
                    0 <= a < b < indices@.len() ==> #[trigger] indices@[a] != #[trigger] indices@[b],
                me == self.node_id@,
                sources.len() == result@.len(),
                forall|k: int| 0 <= k < sources.len() ==> (#[trigger] sources[k]) < node_ids@.len(),
                forall|k: int|
                    0 <= k < sources.len() ==> (#[trigger] result@[k])@
                        == node_ids@[sources[k] as int]@,
                forall|k: int| 0 <= k < sources.len() ==> (#[trigger] result@[k])@ != me,
                forall|k: int|
                    0 <= k < sources.len() ==> exists|p: int|
                        0 <= p < i && indices@[p] == #[trigger] sources[k],
                forall|a: int, b: int|
                    0 <= a < b < sources.len() ==> #[trigger] sources[a] != #[trigger] sources[b],
                result@.len() == if count_qualifying(indices@.take(i as int), node_ids@, me)
                    <= self.node_size as int {
                    count_qualifying(indices@.take(i as int), node_ids@, me)
                } else {
                    self.node_size as int
                },
            decreases indices@.len() - i,
        {
            let idx = indices[i];
            proof {
                assert(indices@.take(i + 1 as int).drop_last() =~= indices@.take(i as int));
                assert(indices@.take(i + 1 as int).last() == indices@[i as int]);
                lemma_count_qualifying_le(indices@.take(i as int), node_ids@, me);
            }
            let candidate = &node_ids[idx];
            if !(*candidate == self.node_id) && result.len() < self.node_size {
                let ghost pre_sources = sources;
                result.push(candidate.clone());
                proof {
                    sources = pre_sources.push(idx);
                    assert(sources.last() == idx);
                    assert(result@.last()@ == node_ids@[idx as int]@);
                    assert forall|a: int, b: int| 0 <= a < b < sources.len()
                        implies #[trigger] sources[a] != #[trigger] sources[b] by {
                        if b == sources.len() - 1 {
                            assert(sources[a] == pre_sources[a]);
                            let p = choose|p: int| 0 <= p < i && indices@[p] == pre_sources[a];
                            assert(indices@[p] != indices@[i as int]);
                        }
                    }
                    assert forall|k: int| 0 <= k < sources.len()
                        implies exists|p: int|
                            0 <= p < i + 1 && indices@[p] == #[trigger] sources[k] by {
                        if k < sources.len() - 1 {
                            let p = choose|p: int| 0 <= p < i && indices@[p] == pre_sources[k];
                            assert(indices@[p] == sources[k]);
                        } else {
                            assert(indices@[i as int] == sources[k]);
                        }
                    }
                }
            }
            i = i + 1;
        }
        proof {
            assert(indices@.take(indices@.len() as int) =~= indices@);
            if distinct_ids(node_ids@) {
                assert forall|a: int, b: int| 0 <= a < b < result@.len()
                    implies (#[trigger] result@[a])@ != (#[trigger] result@[b])@ by {
                    assert(result@[a]@ == node_ids@[sources[a] as int]@);
                    assert(result@[b]@ == node_ids@[sources[b] as int]@);
                    assert(sources[a] != sources[b]);
                    if sources[a] < sources[b] {
                        assert(node_ids@[sources[a] as int]@ != node_ids@[sources[b] as int]@);
                    } else {
                        assert(node_ids@[sources[b] as int]@ != node_ids@[sources[a] as int]@);
                    }
                }
                if node_ids@.len() > self.node_size {
                    lemma_count_qualifying_nearly_all(indices@, node_ids@, me);
                }
                if !id_text_listed(node_ids@, me) {
                    lemma_count_qualifying_total(indices@, node_ids@, me);
                }
            }
            assert forall|k: int| 0 <= k < result@.len()
                implies exists|j: int|
                    0 <= j < node_ids@.len() && (#[trigger] result@[k])@ == node_ids@[j]@ by {
                assert(result@[k]@ == node_ids@[sources[k] as int]@);
            }
        }
        result
    }
}

/// Whether some id in the list reads as the given text.
pub open spec fn id_text_listed(node_ids: Seq<NodeId>, me: Seq<char>) -> bool {
    exists|j: int| 0 <= j < node_ids.len() && (#[trigger] node_ids[j])@ == me
}

/// When no id reads as the querying node's own, every in-range drawn
/// position qualifies.
proof fn lemma_count_qualifying_total(indices: Seq<usize>, node_ids: Seq<NodeId>, me: Seq<char>)
    requires
        forall|k: int| 0 <= k < indices.len() ==> indices[k] < node_ids.len(),
        !id_text_listed(node_ids, me),
    ensures
        count_qualifying(indices, node_ids, me) == indices.len(),
    decreases indices.len(),
{
    if indices.len() > 0 {
        lemma_count_qualifying_total(indices.drop_last(), node_ids, me);
        assert(node_ids[indices.last() as int]@ != me);
    }
}

/// All ids in the list are pairwise distinct as text.
pub open spec fn distinct_ids(node_ids: Seq<NodeId>) -> bool {
    forall|a: int, b: int|
        0 <= a < b < node_ids.len() ==> (#[trigger] node_ids[a])@ != (#[trigger] node_ids[b])@
}

/// How many of the drawn positions name an id other than the querying
/// node's own.
pub open spec fn count_qualifying(indices: Seq<usize>, node_ids: Seq<NodeId>, me: Seq<char>)
    -> int
    decreases indices.len(),
{
    if indices.len() == 0 {
        0
    } else {
        count_qualifying(indices.drop_last(), node_ids, me)
            + if indices.last() < node_ids.len() && node_ids[indices.last() as int]@ != me {
                1int
            } else {
                0int
            }
    }
}

proof fn lemma_count_qualifying_le(indices: Seq<usize>, node_ids: Seq<NodeId>, me: Seq<char>)
    ensures
        0 <= count_qualifying(indices, node_ids, me) <= indices.len(),
    decreases indices.len(),
{
    if indices.len() > 0 {
        lemma_count_qualifying_le(indices.drop_last(), node_ids, me);
    }
}

/// When every drawn position is in range and all positions are pairwise
/// distinct, and the ids themselves are distinct, at most one drawn
/// position can name the querying node's own id.
proof fn lemma_count_qualifying_nearly_all(
    indices: Seq<usize>,
    node_ids: Seq<NodeId>,
    me: Seq<char>,
)
    requires
        forall|k: int| 0 <= k < indices.len() ==> indices[k] < node_ids.len(),
        forall|a: int, b: int|
            0 <= a < b < indices.len() ==> #[trigger] indices[a] != #[trigger] indices[b],
        distinct_ids(node_ids),
    ensures
        count_qualifying(indices, node_ids, me) >= indices.len() - 1,
    decreases indices.len(),
{
    if indices.len() > 0 {
        let rest = indices.drop_last();
        if indices.last() < node_ids.len() && node_ids[indices.last() as int]@ != me {
            lemma_count_qualifying_nearly_all(rest, node_ids, me);
        } else {
            lemma_count_qualifying_all(rest, node_ids, me, indices.last() as int);
        }
    }
}

/// When one in-range position `taken` names the querying node's own id and
/// the ids are distinct, every other position qualifies.
proof fn lemma_count_qualifying_all(
    indices: Seq<usize>,
    node_ids: Seq<NodeId>,
    me: Seq<char>,
    taken: int,
)
    requires
        forall|k: int| 0 <= k < indices.len() ==> indices[k] < node_ids.len(),
        forall|k: int| 0 <= k < indices.len() ==> indices[k] != taken,
        0 <= taken < node_ids.len(),
        node_ids[taken]@ == me,
        distinct_ids(node_ids),
    ensures
        count_qualifying(indices, node_ids, me) == indices.len(),
    decreases indices.len(),
{
    if indices.len() > 0 {
        lemma_count_qualifying_all(indices.drop_last(), node_ids, me, taken);
        let last = indices.last() as int;
        if last < taken {
            assert(node_ids[last]@ != node_ids[taken]@);
        } else {
            assert(node_ids[taken]@ != node_ids[last]@);
        }
    }
}

/// Relies on `u64::to_string` (std): the decimal text of a node id.
#[verifier::external_body]
pub(crate) fn node_id_string(id: u64) -> String {
    id.to_string()
}

/// Communication abstraction: how a solver queries peers for their votes.
pub trait VoteQuery {
    type Tx;

    fn query(&mut self, node_query: &NodeQuery, tx: Self::Tx) -> Vec<Vote<Self::Tx>>;
}

/// A query layer that always answers with no votes.
pub struct NoQuery<Tx> {
    marker: core::marker::PhantomData<Tx>,
}

impl<Tx> NoQuery<Tx> {
    pub fn new() -> (r: Self) {
        NoQuery { marker: core::marker::PhantomData }
    }
}

impl<Tx> VoteQuery for NoQuery<Tx> {
    type Tx = Tx;

    fn query(&mut self, _node_query: &NodeQuery, _tx: Tx) -> Vec<Vote<Tx>> {
        Vec::new()
    }
}

/// A query layer that answers every draw of the sample with one fixed vote.
pub struct FixedQuery<Tx: Copy> {
    pub vote: Vote<Tx>,
}

impl<Tx: Copy> FixedQuery<Tx> {
    pub open spec fn vote_spec(self) -> Vote<Tx> {
        self.vote
    }

    pub fn new(vote: Vote<Tx>) -> (r: Self)
        ensures
            r.vote_spec() == vote,
    {
        FixedQuery { vote }
    }
}

impl<Tx: Copy> VoteQuery for FixedQuery<Tx> {
    type Tx = Tx;

    /// Answers with `query_size` copies of the fixed vote.
    fn query(&mut self, node_query: &NodeQuery, _tx: Tx) -> Vec<Vote<Tx>> {
        let mut votes: Vec<Vote<Tx>> = Vec::new();
        let size = node_query.query_size();
        let mut i: usize = 0;
        while i < size
            decreases size - i,
        {
            votes.push(self.vote);
            i = i + 1;
        }
        votes
    }
}

} // verus!
