//! Laws that relate several operations of the container. A run is a
//! sequence of states in which each state comes from the one before it by
//! one operation, as the contract of that operation describes it.

use crate::growth::{capacity_after, is_least_block_capacity, lemma_growth_law};
use crate::levec::LeVec;
use vstd::prelude::*;

verus! {

/// Whether `states` is a run of pushes: `states[i + 1]` is `states[i]`
/// after a push of `values[i]`.
pub open spec fn is_push_run<T>(states: Seq<LeVec<T>>, values: Seq<T>) -> bool {
    &&& states.len() == values.len() + 1
    &&& forall|i: int|
        0 <= i < values.len() ==> (#[trigger] states[i + 1]).is_push_of(&states[i], values[i])
}

/// Whether `states` is a run of pops: `states[i + 1]` is `states[i]` after
/// a pop that handed out `outs[i]`.
pub open spec fn is_pop_run<T>(states: Seq<LeVec<T>>, outs: Seq<Option<T>>) -> bool {
    &&& states.len() == outs.len() + 1
    &&& forall|i: int|
        0 <= i < outs.len() ==> (#[trigger] states[i + 1]).is_pop_of(&states[i], outs[i])
}

/// A run of pushes appends the pushed values, in their order, to the
/// elements of the first state.
pub proof fn lemma_push_run_appends<T>(states: Seq<LeVec<T>>, values: Seq<T>)
    requires
        is_push_run(states, values),
    ensures
        forall|n: int|
            0 <= n <= values.len() ==> (#[trigger] states[n])@ == states[0]@ + values.subrange(
                0,
                n,
            ),
        states.last()@ == states[0]@ + values,
{
    assert forall|n: int| 0 <= n <= values.len() implies (#[trigger] states[n])@ == states[0]@
        + values.subrange(0, n) by {
        lemma_push_run_prefix(states, values, n);
    }
    assert(values.subrange(0, values.len() as int) =~= values);
}

proof fn lemma_push_run_prefix<T>(states: Seq<LeVec<T>>, values: Seq<T>, n: int)
    requires
        is_push_run(states, values),
        0 <= n <= values.len(),
    ensures
        states[n]@ == states[0]@ + values.subrange(0, n),
    decreases n,
{
    if n == 0 {
        assert(states[0]@ =~= states[0]@ + values.subrange(0, 0));
    } else {
        lemma_push_run_prefix(states, values, n - 1);
        assert(states[n - 1 + 1].is_push_of(&states[n - 1], values[n - 1]));
        assert(states[n]@ =~= states[0]@ + values.subrange(0, n));
    }
}

/// The growth law on a run: in a run of pushes that starts from a container
/// without elements and without a block, the capacity after the `n`th push
/// is the least one among the initial capacity and its doublings that
/// holds `n` elements.
pub proof fn lemma_push_run_capacity<T>(states: Seq<LeVec<T>>, values: Seq<T>)
    requires
        is_push_run(states, values),
        states[0]@.len() == 0,
        states[0].spec_capacity() == 0,
    ensures
        forall|n: int|
            0 <= n <= values.len() ==> (#[trigger] states[n]).spec_capacity() == capacity_after(
                n as nat,
            ),
        forall|n: int|
            1 <= n <= values.len() ==> is_least_block_capacity(
                (#[trigger] states[n]).spec_capacity() as nat,
                n as nat,
            ),
{
    assert forall|n: int| 0 <= n <= values.len() implies (#[trigger] states[n]).spec_capacity()
        == capacity_after(n as nat) by {
        lemma_push_run_capacity_at(states, values, n);
    }
    assert forall|n: int| 1 <= n <= values.len() implies is_least_block_capacity(
        (#[trigger] states[n]).spec_capacity() as nat,
        n as nat,
    ) by {
        lemma_growth_law(n as nat);
    }
}

proof fn lemma_push_run_capacity_at<T>(states: Seq<LeVec<T>>, values: Seq<T>, n: int)
    requires
        is_push_run(states, values),
        states[0]@.len() == 0,
        states[0].spec_capacity() == 0,
        0 <= n <= values.len(),
    ensures
        states[n].spec_capacity() == capacity_after(n as nat),
        states[n]@.len() == n,
    decreases n,
{
    if n > 0 {
        lemma_push_run_capacity_at(states, values, n - 1);
        assert(states[n - 1 + 1].is_push_of(&states[n - 1], values[n - 1]));
    }
}

/// A run of pops hands out the elements of the first state from the last
/// one backwards, and leaves the others and the capacity as they were.
pub proof fn lemma_pop_run_reverses<T>(states: Seq<LeVec<T>>, outs: Seq<Option<T>>)
    requires
        is_pop_run(states, outs),
        outs.len() <= states[0]@.len(),
    ensures
        forall|i: int|
            0 <= i < outs.len() ==> #[trigger] outs[i] == Some(
                states[0]@[states[0]@.len() - 1 - i],
            ),
        states.last()@ == states[0]@.take(states[0]@.len() - outs.len()),
        states.last().spec_capacity() == states[0].spec_capacity(),
{
    assert forall|i: int| 0 <= i < outs.len() implies #[trigger] outs[i] == Some(
        states[0]@[states[0]@.len() - 1 - i],
    ) by {
        lemma_pop_run_prefix(states, outs, i);
        assert(states[i + 1].is_pop_of(&states[i], outs[i]));
    }
    lemma_pop_run_prefix(states, outs, outs.len() as int);
}

proof fn lemma_pop_run_prefix<T>(states: Seq<LeVec<T>>, outs: Seq<Option<T>>, n: int)
    requires
        is_pop_run(states, outs),
        outs.len() <= states[0]@.len(),
        0 <= n <= outs.len(),
    ensures
        states[n]@ == states[0]@.take(states[0]@.len() - n),
        states[n].spec_capacity() == states[0].spec_capacity(),
    decreases n,
{
    if n == 0 {
        assert(states[0]@ =~= states[0]@.take(states[0]@.len() as int));
    } else {
        lemma_pop_run_prefix(states, outs, n - 1);
        assert(states[n - 1 + 1].is_pop_of(&states[n - 1], outs[n - 1]));
        assert(states[n]@ =~= states[0]@.take(states[0]@.len() - n));
    }
}

/// The round trip: where a run of pushes is followed by a run of as many
/// pops, the pops hand out the pushed values in reverse order, the
/// container ends with the elements that it started with (none, where it
/// started empty), and the pops leave the capacity as the pushes left it.
pub proof fn lemma_round_trip<T>(
    pushes: Seq<LeVec<T>>,
    values: Seq<T>,
    pops: Seq<LeVec<T>>,
    outs: Seq<Option<T>>,
)
    requires
        is_push_run(pushes, values),
        is_pop_run(pops, outs),
        pops[0] == pushes.last(),
        outs.len() == values.len(),
    ensures
        forall|i: int|
            0 <= i < outs.len() ==> #[trigger] outs[i] == Some(values[values.len() - 1 - i]),
        pops.last()@ == pushes[0]@,
        pushes[0]@.len() == 0 ==> pops.last()@.len() == 0,
        pops.last().spec_capacity() == pushes.last().spec_capacity(),
{
    lemma_push_run_appends(pushes, values);
    lemma_pop_run_reverses(pops, outs);
    assert(pops.last()@ =~= pushes[0]@);
}

} // verus!
