//! The order in which the dispatcher is started, so that it never runs with
//! a partial mask and the caller's own mask survives.

use vstd::prelude::*;

use crate::sigset::subscribable_numbers;

verus! {

/// One step of starting the dispatcher.
#[derive(Clone, Copy, Debug, PartialEq, Eq, Structural)]
pub enum StartupStep {
    /// Remember the calling thread's mask.
    SaveMask,
    /// Replace the calling thread's mask with the whole catalog.
    MaskCatalog,
    /// Spawn the dispatcher, which inherits the calling thread's mask.
    SpawnDispatcher,
    /// Replace the calling thread's mask with the one remembered.
    RestoreMask,
}

/// The masks that startup deals with: the calling thread's, the one
/// remembered, and the dispatcher's once it exists.
pub struct Masks {
    pub caller: Set<i32>,
    pub saved: Set<i32>,
    pub dispatcher: Option<Set<i32>>,
}

/// The masks after one step.
pub open spec fn step_masks(m: Masks, step: StartupStep) -> Masks {
    match step {
        StartupStep::SaveMask => Masks { saved: m.caller, ..m },
        StartupStep::MaskCatalog => Masks { caller: subscribable_numbers(), ..m },
        StartupStep::SpawnDispatcher => Masks { dispatcher: Some(m.caller), ..m },
        StartupStep::RestoreMask => Masks { caller: m.saved, ..m },
    }
}

/// The masks after the steps `steps`, in order.
pub open spec fn run_steps(m: Masks, steps: Seq<StartupStep>) -> Masks
    decreases steps.len(),
{
    if steps.len() == 0 {
        m
    } else {
        run_steps(step_masks(m, steps[0]), steps.drop_first())
    }
}

/// The steps that start the dispatcher, in the order they are taken.
pub fn startup_plan() -> (r: Vec<StartupStep>)
    ensures
        r@ == seq![
            StartupStep::SaveMask,
            StartupStep::MaskCatalog,
            StartupStep::SpawnDispatcher,
            StartupStep::RestoreMask,
        ],
{
    vec![
        StartupStep::SaveMask,
        StartupStep::MaskCatalog,
        StartupStep::SpawnDispatcher,
        StartupStep::RestoreMask,
    ]
}

/// Following the plan, from any calling-thread mask and before any
/// dispatcher exists, starts the dispatcher with the whole catalog blocked
/// and leaves the calling thread's mask as it was.
pub proof fn lemma_startup_plan_masks(caller: Set<i32>, saved: Set<i32>)
    ensures
        ({
            let end = run_steps(Masks { caller, saved, dispatcher: None }, seq![
                StartupStep::SaveMask,
                StartupStep::MaskCatalog,
                StartupStep::SpawnDispatcher,
                StartupStep::RestoreMask,
            ]);
            end.dispatcher == Some(subscribable_numbers()) && end.caller == caller
        }),
{
    let steps = seq![
        StartupStep::SaveMask,
        StartupStep::MaskCatalog,
        StartupStep::SpawnDispatcher,
        StartupStep::RestoreMask,
    ];
    let m0 = Masks { caller, saved, dispatcher: None };
    let m1 = step_masks(m0, steps[0]);
    let m2 = step_masks(m1, steps[1]);
    let m3 = step_masks(m2, steps[2]);
    let m4 = step_masks(m3, steps[3]);
    assert(steps.drop_first() =~= seq![StartupStep::MaskCatalog, StartupStep::SpawnDispatcher, StartupStep::RestoreMask]);
    assert(steps.drop_first().drop_first() =~= seq![StartupStep::SpawnDispatcher, StartupStep::RestoreMask]);
    assert(steps.drop_first().drop_first().drop_first() =~= seq![StartupStep::RestoreMask]);
    assert(steps.drop_first().drop_first().drop_first().drop_first() =~= Seq::<StartupStep>::empty());
    assert(run_steps(m4, Seq::<StartupStep>::empty()) == m4);
    assert(run_steps(m3, seq![StartupStep::RestoreMask]) == m4);
    assert(run_steps(m2, seq![StartupStep::SpawnDispatcher, StartupStep::RestoreMask]) == m4);
    assert(run_steps(m1, steps.drop_first()) == m4);
}

} // verus!
