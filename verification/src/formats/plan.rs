//! What a text gives to import, as a run of steps: the pairs to write, up to
//! the first part of the text that cannot be read.

use vstd::prelude::*;

verus! {

/// What one part of a text asks for.
pub enum Step {
    /// Write the value under the key.
    Put(Seq<u8>, Seq<u8>),
    /// Nothing: the part is passed over.
    Skip,
    /// The part cannot be read: nothing after it is written.
    Stop,
}

/// The pairs that the steps write, in order, up to the first `Stop`, and
/// whether there was no `Stop`.
pub open spec fn run(steps: Seq<Step>) -> (Seq<(Seq<u8>, Seq<u8>)>, bool)
    decreases steps.len(),
{
    if steps.len() == 0 {
        (Seq::empty(), true)
    } else {
        let (pairs, complete) = run(steps.drop_last());
        if !complete {
            (pairs, false)
        } else {
            match steps.last() {
                Step::Put(key, value) => (pairs.push((key, value)), true),
                Step::Skip => (pairs, true),
                Step::Stop => (pairs, false),
            }
        }
    }
}

/// A run of one run after another goes through the first and, if that has
/// no `Stop`, through the second.
pub proof fn lemma_run_append(first: Seq<Step>, second: Seq<Step>)
    ensures
        run(first + second) == if run(first).1 {
            (run(first).0 + run(second).0, run(second).1)
        } else {
            run(first)
        },
    decreases second.len(),
{
    if second.len() == 0 {
        assert(first + second =~= first);
        assert(run(first).0 + run(second).0 =~= run(first).0);
    } else {
        assert((first + second).drop_last() =~= first + second.drop_last());
        lemma_run_append(first, second.drop_last());
        if run(first).1 && run(second.drop_last()).1 {
            match second.last() {
                Step::Put(key, value) => {
                    assert((run(first).0 + run(second.drop_last()).0).push((key, value))
                        =~= run(first).0 + run(second).0);
                },
                _ => {},
            }
        }
    }
}

/// A run of a single step.
pub proof fn lemma_run_one(step: Step)
    ensures
        run(seq![step]) == match step {
            Step::Put(key, value) => (seq![(key, value)], true),
            Step::Skip => (Seq::empty(), true),
            Step::Stop => (Seq::empty(), false),
        },
{
    assert(seq![step].drop_last() =~= Seq::empty());
    reveal_with_fuel(run, 2);
    match step {
        Step::Put(key, value) => {
            assert(Seq::<(Seq<u8>, Seq<u8>)>::empty().push((key, value)) =~= seq![(key, value)]);
        },
        _ => {},
    }
}

/// A run that reaches a `Stop` ends there, whatever follows.
pub proof fn lemma_run_stops(steps: Seq<Step>, at: int)
    requires
        0 <= at < steps.len(),
        steps[at] is Stop,
        run(steps.take(at)).1,
    ensures
        run(steps) == (run(steps.take(at)).0, false),
    decreases steps.len(),
{
    if at == steps.len() - 1 {
        assert(steps.drop_last() =~= steps.take(at));
    } else {
        assert(steps.drop_last().take(at) =~= steps.take(at));
        lemma_run_stops(steps.drop_last(), at);
    }
}

} // verus!
