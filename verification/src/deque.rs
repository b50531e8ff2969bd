//! Trusted view of `fixed_slice_deque::FixedSliceDeque`, the bounded deque
//! that backs the stabilised ward's sample buffer and the layered runner's
//! layer window.
//!
//! The deque's contents are named as a sequence, front first, together with
//! the capacity it was built with. Two instantiations are used: pairs of
//! counters, and layers of node ids.

use vstd::prelude::*;

use fixed_slice_deque::FixedSliceDeque;

verus! {

#[verifier::external_type_specification]
#[verifier::external_body]
#[verifier::reject_recursive_types(T)]
pub struct ExFixedSliceDeque<T>(FixedSliceDeque<T>);

/// The contents of a deque of counter pairs, front first.
pub uninterp spec fn pair_deque_seq(d: FixedSliceDeque<(usize, usize)>) -> Seq<(usize, usize)>;

/// The capacity a deque of counter pairs was built with.
pub uninterp spec fn pair_deque_capacity(d: FixedSliceDeque<(usize, usize)>) -> nat;

/// Relies on `FixedSliceDeque::new`: an empty deque with the given
/// capacity.
#[verifier::external_body]
pub(crate) fn pair_deque_new(capacity: usize) -> (r: FixedSliceDeque<(usize, usize)>)
    ensures
        pair_deque_seq(r) == Seq::<(usize, usize)>::empty(),
        pair_deque_capacity(r) == capacity,
{
    FixedSliceDeque::new(capacity)
}

/// Relies on `FixedSliceDeque::push_back`: appends at the back; when the
/// deque is full, the front element is discarded and returned.
#[verifier::external_body]
pub(crate) fn pair_deque_push_back(d: &mut FixedSliceDeque<(usize, usize)>, value: (usize, usize))
    -> (evicted: Option<(usize, usize)>)
    requires
        pair_deque_capacity(*old(d)) >= 1,
        pair_deque_seq(*old(d)).len() <= pair_deque_capacity(*old(d)),
    ensures
        pair_deque_capacity(*final(d)) == pair_deque_capacity(*old(d)),
        pair_deque_seq(*final(d)) == if pair_deque_seq(*old(d)).len()
            == pair_deque_capacity(*old(d)) {
            pair_deque_seq(*old(d)).drop_first().push(value)
        } else {
            pair_deque_seq(*old(d)).push(value)
        },
        evicted == if pair_deque_seq(*old(d)).len() == pair_deque_capacity(*old(d)) {
            Some(pair_deque_seq(*old(d))[0])
        } else {
            None::<(usize, usize)>
        },
{
    d.push_back(value)
}

/// Relies on `FixedSliceDeque::is_full`: the deque holds as many elements
/// as its capacity.
#[verifier::external_body]
pub(crate) fn pair_deque_is_full(d: &FixedSliceDeque<(usize, usize)>) -> (r: bool)
    ensures
        r == (pair_deque_seq(*d).len() == pair_deque_capacity(*d)),
{
    d.is_full()
}

/// Relies on the deque's slice view (`as_slice`): the contents, front
/// first.
#[verifier::external_body]
pub(crate) fn pair_deque_to_vec(d: &FixedSliceDeque<(usize, usize)>) -> (r: Vec<(usize, usize)>)
    ensures
        r@ == pair_deque_seq(*d),
{
    d.as_slice().to_vec()
}

/// The contents of a deque of node-id layers, front first, each layer as
/// the sequence of ids it holds.
pub uninterp spec fn layer_deque_seq(d: FixedSliceDeque<Vec<usize>>) -> Seq<Seq<usize>>;

/// The capacity a deque of node-id layers was built with.
pub uninterp spec fn layer_deque_capacity(d: FixedSliceDeque<Vec<usize>>) -> nat;

/// Relies on `FixedSliceDeque::new`: an empty deque with the given
/// capacity.
#[verifier::external_body]
pub(crate) fn layer_deque_new(capacity: usize) -> (r: FixedSliceDeque<Vec<usize>>)
    ensures
        layer_deque_seq(r) == Seq::<Seq<usize>>::empty(),
        layer_deque_capacity(r) == capacity,
{
    FixedSliceDeque::new(capacity)
}

/// Relies on `FixedSliceDeque::try_push_back`: appends at the back only
/// when the deque is not full.
#[verifier::external_body]
pub(crate) fn layer_deque_try_push_back(d: &mut FixedSliceDeque<Vec<usize>>, value: Vec<usize>)
    -> (pushed: bool)
    ensures
        layer_deque_capacity(*final(d)) == layer_deque_capacity(*old(d)),
        pushed == (layer_deque_seq(*old(d)).len() < layer_deque_capacity(*old(d))),
        layer_deque_seq(*final(d)) == if layer_deque_seq(*old(d)).len()
            < layer_deque_capacity(*old(d)) {
            layer_deque_seq(*old(d)).push(value@)
        } else {
            layer_deque_seq(*old(d))
        },
{
    d.try_push_back(value).is_ok()
}

/// Relies on `FixedSliceDeque::push_back`: appends at the back; when the
/// deque is full, the front layer is discarded and the window slides.
#[verifier::external_body]
pub(crate) fn layer_deque_push_back(d: &mut FixedSliceDeque<Vec<usize>>, value: Vec<usize>)
    requires
        layer_deque_capacity(*old(d)) >= 1,
        layer_deque_seq(*old(d)).len() <= layer_deque_capacity(*old(d)),
    ensures
        layer_deque_capacity(*final(d)) == layer_deque_capacity(*old(d)),
        layer_deque_seq(*final(d)) == if layer_deque_seq(*old(d)).len()
            == layer_deque_capacity(*old(d)) {
            layer_deque_seq(*old(d)).drop_first().push(value@)
        } else {
            layer_deque_seq(*old(d)).push(value@)
        },
{
    let _ = d.push_back(value);
}

/// Relies on the deque's slice view (`get`): a copy of the layer at the
/// given position.
#[verifier::external_body]
pub(crate) fn layer_deque_get(d: &FixedSliceDeque<Vec<usize>>, i: usize) -> (r: Vec<usize>)
    requires
        i < layer_deque_seq(*d).len(),
    ensures
        r@ == layer_deque_seq(*d)[i as int],
{
    d.get(i).unwrap().clone()
}

/// Relies on the deque's slice view (`get_mut`): replaces the layer at the
/// given position.
#[verifier::external_body]
pub(crate) fn layer_deque_set(d: &mut FixedSliceDeque<Vec<usize>>, i: usize, value: Vec<usize>)
    requires
        i < layer_deque_seq(*old(d)).len(),
    ensures
        layer_deque_capacity(*final(d)) == layer_deque_capacity(*old(d)),
        layer_deque_seq(*final(d)) == layer_deque_seq(*old(d)).update(i as int, value@),
{
    *d.get_mut(i).unwrap() = value;
}

} // verus!
