//! Work that is done item by item and ends at the first item that fails.

use vstd::prelude::*;

verus! {

/// How far a batch came: the state it reached, what it gave for each item
/// that went through, and the failure that ended it, if one did.
pub struct Run<S, O, E> {
    pub state: S,
    pub outputs: Seq<O>,
    pub failure: Option<E>,
}

/// The batch that takes `step` for each of `inputs` in order, from `state`
/// on, up to the first step that fails.
pub open spec fn run<S, I, O, E>(
    state: S,
    inputs: Seq<I>,
    step: spec_fn(S, I) -> Result<(S, O), E>,
) -> Run<S, O, E>
    decreases inputs.len(),
{
    if inputs.len() == 0 {
        Run { state, outputs: Seq::empty(), failure: None }
    } else {
        let before = run(state, inputs.drop_last(), step);
        if before.failure is Some {
            before
        } else {
            match step(before.state, inputs.last()) {
                Ok((next, output)) => Run {
                    state: next,
                    outputs: before.outputs.push(output),
                    failure: None,
                },
                Err(failure) => Run {
                    state: before.state,
                    outputs: before.outputs,
                    failure: Some(failure),
                },
            }
        }
    }
}

/// A batch of no items does nothing.
pub proof fn lemma_run_none<S, I, O, E>(
    state: S,
    inputs: Seq<I>,
    step: spec_fn(S, I) -> Result<(S, O), E>,
)
    ensures
        run(state, inputs.take(0), step) == (Run::<S, O, E> {
            state,
            outputs: Seq::empty(),
            failure: None,
        }),
{
    assert(inputs.take(0).len() == 0);
}

/// A batch of one item is the step for that item.
pub proof fn lemma_run_one<S, I, O, E>(
    state: S,
    input: I,
    step: spec_fn(S, I) -> Result<(S, O), E>,
)
    ensures
        run(state, seq![input], step) == match step(state, input) {
            Ok((next, output)) => Run::<S, O, E> {
                state: next,
                outputs: seq![output],
                failure: None,
            },
            Err(failure) => Run::<S, O, E> {
                state,
                outputs: Seq::empty(),
                failure: Some(failure),
            },
        },
{
    let inputs = seq![input];
    lemma_run_none(state, inputs, step);
    lemma_run_extends(state, inputs, step, 0);
    assert(inputs.take(1) =~= inputs);
    match step(state, input) {
        Ok((next, output)) => {
            assert(Seq::<O>::empty().push(output) =~= seq![output]);
        },
        Err(failure) => {},
    }
}

/// What a batch over one more item is, where the batch so far went through.
pub proof fn lemma_run_extends<S, I, O, E>(
    state: S,
    inputs: Seq<I>,
    step: spec_fn(S, I) -> Result<(S, O), E>,
    i: int,
)
    requires
        0 <= i < inputs.len(),
        run(state, inputs.take(i), step).failure is None,
    ensures
        run(state, inputs.take(i + 1), step) == ({
            let before = run(state, inputs.take(i), step);
            match step(before.state, inputs[i]) {
                Ok((next, output)) => Run {
                    state: next,
                    outputs: before.outputs.push(output),
                    failure: None,
                },
                Err(failure) => Run {
                    state: before.state,
                    outputs: before.outputs,
                    failure: Some(failure),
                },
            }
        }),
{
    assert(inputs.take(i + 1).drop_last() =~= inputs.take(i));
    assert(inputs.take(i + 1).last() == inputs[i]);
}

/// A batch that has failed stays as it is, whatever items follow.
pub proof fn lemma_run_stops<S, I, O, E>(
    state: S,
    inputs: Seq<I>,
    step: spec_fn(S, I) -> Result<(S, O), E>,
    k: int,
)
    requires
        0 <= k <= inputs.len(),
        run(state, inputs.take(k), step).failure is Some,
    ensures
        run(state, inputs, step) == run(state, inputs.take(k), step),
    decreases inputs.len(),
{
    if k == inputs.len() {
        assert(inputs.take(k) =~= inputs);
    } else {
        assert(inputs.drop_last().take(k) =~= inputs.take(k));
        lemma_run_stops(state, inputs.drop_last(), step, k);
    }
}

} // verus!
