//! The per-request dispatch pipeline.
//!
//! A request runs through a fixed sequence of stages: recognition, the
//! before-hooks in registration order, the handler, and the after-hooks
//! in reverse order — symmetric nesting.  A failure at any stage
//! surfaces directly through the unified error exit: no further hook and
//! no handler runs.  The machine here carries the stage bookkeeping; the
//! service loop performs each pending action and feeds the outcome back.

use vstd::prelude::*;

verus! {

/// The stage a request dispatch is in.
#[derive(Clone, Copy, Debug, PartialEq, Eq, Structural)]
pub enum Stage {
    /// Owns the fresh request; recognition has not run yet.
    Start,
    /// The before-hook at this index is in flight.
    BeforeHandle { current: usize },
    /// The matched handler is in flight.
    Handle,
    /// The after-hook at this index is in flight.
    AfterHandle { current: usize },
    /// A response was produced; the pipeline must not be stepped again.
    Done,
    /// A stage failed; its error is surfaced directly and no further
    /// hook or handler runs.
    Failed,
}

/// The action a driver performs while a stage is current.
#[derive(Clone, Copy, Debug, PartialEq, Eq, Structural)]
pub enum StageAction {
    /// Resolve the request path and method against the recognizer.
    RunRecognize,
    /// Invoke the before-hook at this index.
    RunBefore(usize),
    /// Invoke the matched handler.
    RunHandler,
    /// Invoke the after-hook at this index with the current output.
    RunAfter(usize),
}

/// The pending action of a stage; terminal stages have none.
pub open spec fn action_of(s: Stage) -> Option<StageAction> {
    match s {
        Stage::Start => Some(StageAction::RunRecognize),
        Stage::BeforeHandle { current } => Some(StageAction::RunBefore(current)),
        Stage::Handle => Some(StageAction::RunHandler),
        Stage::AfterHandle { current } => Some(StageAction::RunAfter(current)),
        Stage::Done => None,
        Stage::Failed => None,
    }
}

/// The next stage, given the modifier count and the outcome of the
/// current stage's action.  Success advances through before-hooks
/// `0..n-1`, the handler, and after-hooks `n-1..0`; failure of any
/// in-flight stage moves straight to `Failed`; terminal stages absorb.
pub open spec fn spec_next(n: usize, s: Stage, ok: bool) -> Stage {
    match s {
        Stage::Done => Stage::Done,
        Stage::Failed => Stage::Failed,
        _ => {
            if !ok {
                Stage::Failed
            } else {
                match s {
                    Stage::Start => if n == 0 {
                        Stage::Handle
                    } else {
                        Stage::BeforeHandle { current: 0 }
                    },
                    Stage::BeforeHandle { current } => if current + 1 == n {
                        Stage::Handle
                    } else {
                        Stage::BeforeHandle { current: (current + 1) as usize }
                    },
                    Stage::Handle => if n == 0 {
                        Stage::Done
                    } else {
                        Stage::AfterHandle { current: (n - 1) as usize }
                    },
                    Stage::AfterHandle { current } => if current == 0 {
                        Stage::Done
                    } else {
                        Stage::AfterHandle { current: (current - 1) as usize }
                    },
                    _ => s,
                }
            }
        },
    }
}

/// The stage reached from `Start` after feeding the outcomes in
/// `events`, oldest first.
pub open spec fn run(n: usize, events: Seq<bool>) -> Stage
    decreases events.len(),
{
    if events.len() == 0 {
        Stage::Start
    } else {
        spec_next(n, run(n, events.drop_last()), events.last())
    }
}

/// The per-request stage bookkeeping.  Created fresh for one request,
/// stepped by the service loop, and destroyed with the request.
pub struct Pipeline {
    /// The length of the application's modifier chain.
    pub n_modifiers: usize,
    /// The current stage.
    pub stage: Stage,
}

impl Pipeline {
    /// A pipeline at the start, owning the incoming request.
    pub fn new(n_modifiers: usize) -> (r: Self)
        ensures
            r.n_modifiers == n_modifiers,
            r.stage == Stage::Start,
    {
        Pipeline { n_modifiers, stage: Stage::Start }
    }

    /// The pending action, or `None` in a terminal stage.
    pub fn action(&self) -> (r: Option<StageAction>)
        ensures
            r == action_of(self.stage),
    {
        match self.stage {
            Stage::Start => Some(StageAction::RunRecognize),
            Stage::BeforeHandle { current } => Some(StageAction::RunBefore(current)),
            Stage::Handle => Some(StageAction::RunHandler),
            Stage::AfterHandle { current } => Some(StageAction::RunAfter(current)),
            Stage::Done => None,
            Stage::Failed => None,
        }
    }

    /// Feeds the outcome of the pending action back, advancing the
    /// stage exactly as `spec_next` describes.
    pub fn step(&mut self, ok: bool)
        requires
            !(old(self).stage is Done),
            !(old(self).stage is Failed),
            old(self).stage matches Stage::BeforeHandle { current } ==> current < old(
                self,
            ).n_modifiers,
        ensures
            final(self).n_modifiers == old(self).n_modifiers,
            final(self).stage == spec_next(old(self).n_modifiers, old(self).stage, ok),
    {
        let n = self.n_modifiers;
        if !ok {
            self.stage = Stage::Failed;
            return;
        }
        self.stage = match self.stage {
            Stage::Start => if n == 0 {
                Stage::Handle
            } else {
                Stage::BeforeHandle { current: 0 }
            },
            Stage::BeforeHandle { current } => if current + 1 == n {
                Stage::Handle
            } else {
                Stage::BeforeHandle { current: current + 1 }
            },
            Stage::Handle => if n == 0 {
                Stage::Done
            } else {
                Stage::AfterHandle { current: n - 1 }
            },
            Stage::AfterHandle { current } => if current == 0 {
                Stage::Done
            } else {
                Stage::AfterHandle { current: current - 1 }
            },
            Stage::Done => Stage::Done,
            Stage::Failed => Stage::Failed,
        };
    }
}

/// Law: with `n` modifiers and every stage succeeding, the pipeline
/// performs recognition, then the before-hooks in order `0..n-1`, then
/// the handler once, then the after-hooks in order `n-1..0`, and is done
/// after exactly `2n + 2` steps.
pub proof fn lemma_success_order(n: usize, t: int)
    requires
        0 <= t <= 2 * n + 2,
    ensures
        ({
            let s = run(n, Seq::new(t as nat, |i: int| true));
            &&& (t == 0 ==> action_of(s) == Some(StageAction::RunRecognize))
            &&& (1 <= t <= n ==> action_of(s) == Some(StageAction::RunBefore((t - 1) as usize)))
            &&& (t == n + 1 ==> action_of(s) == Some(StageAction::RunHandler))
            &&& (n + 1 < t < 2 * n + 2 ==> action_of(s) == Some(
                StageAction::RunAfter((2 * n + 1 - t) as usize),
            ))
            &&& (t == 2 * n + 2 ==> s is Done)
        }),
    decreases t,
{
    let events = Seq::new(t as nat, |i: int| true);
    if t == 0 {
        assert(run(n, events) == Stage::Start);
    } else {
        lemma_success_order(n, t - 1);
        let prev = Seq::new((t - 1) as nat, |i: int| true);
        assert(events.drop_last() =~= prev);
        assert(events.last() == true);
        let sp = run(n, prev);
        assert(run(n, events) == spec_next(n, sp, true));
        if t - 1 == 0 {
            assert(sp == Stage::Start);
        } else if 1 <= t - 1 <= n {
            assert(action_of(sp) == Some(StageAction::RunBefore((t - 2) as usize)));
            assert(sp == Stage::BeforeHandle { current: (t - 2) as usize });
        } else if t - 1 == n + 1 {
            assert(sp == Stage::Handle);
        } else if n + 1 < t - 1 < 2 * n + 2 {
            assert(sp == Stage::AfterHandle { current: (2 * n + 1 - (t - 1)) as usize });
        }
    }
}

/// Law: when the before-hook at index `i` fails, the hooks before it ran
/// in order, and neither the before-hooks past `i`, nor the handler, nor
/// any after-hook runs: the pipeline moves straight to `Failed`, whose
/// error is surfaced directly through the unified error exit.
pub proof fn lemma_before_failure(n: usize, i: int)
    requires
        0 <= i < n,
    ensures
        ({
            let events = Seq::new((i + 2) as nat, |k: int| k <= i);
            &&& run(n, events) is Failed
            &&& action_of(run(n, events.take(0))) == Some(StageAction::RunRecognize)
            &&& forall|t: int|
                1 <= t <= i + 1 ==> action_of(run(n, #[trigger] events.take(t))) == Some(
                    StageAction::RunBefore((t - 1) as usize),
                )
        }),
{
    let events = Seq::new((i + 2) as nat, |k: int| k <= i);
    assert forall|t: int| 0 <= t <= i + 1 implies events.take(t) =~= Seq::new(
        t as nat,
        |k: int| true,
    ) by {
        assert(forall|k: int| 0 <= k < t ==> events.take(t)[k] == true);
    }
    assert(action_of(run(n, events.take(0))) == Some(StageAction::RunRecognize)) by {
        lemma_success_order(n, 0);
    }
    assert forall|t: int| 1 <= t <= i + 1 implies action_of(run(n, #[trigger] events.take(t)))
        == Some(StageAction::RunBefore((t - 1) as usize)) by {
        lemma_success_order(n, t);
    }
    lemma_success_order(n, i + 1);
    let prev = events.take(i + 1);
    assert(run(n, prev) == Stage::BeforeHandle { current: i as usize }) by {
        assert(action_of(run(n, prev)) == Some(StageAction::RunBefore(i as usize)));
        match run(n, prev) {
            Stage::BeforeHandle { current } => {
                assert(current == i as usize);
            },
            _ => {
                assert(false);
            },
        }
    }
    assert(events.drop_last() =~= prev);
    assert(events.last() == false);
    assert(run(n, events) == spec_next(n, Stage::BeforeHandle { current: i as usize }, false));
}

} // verus!
