use vstd::prelude::*;
use crate::ledger::{lemma_compaction_keeps_resolution, resolved, FrameInputs, ParticipantId};

verus! {

/// The predicate that `update` can be called on any inputs and state, and
/// that its result depends only on the inputs' contents and the state.
pub open spec fn pure_update<Input, State, F: Fn(&FrameInputs<Input>, State) -> State>(
    update: F,
) -> bool {
    &&& forall|m: FrameInputs<Input>, s: State| #[trigger] update.requires((&m, s))
    &&& forall|m1: FrameInputs<Input>, m2: FrameInputs<Input>, s: State, r1: State, r2: State|
        m1@ == m2@ && #[trigger] update.ensures((&m1, s), r1) && #[trigger] update.ensures(
            (&m2, s),
            r2,
        ) ==> r1 == r2
}

/// `r` is a possible result of `update` on a map holding `inputs`, and `s`.
pub open spec fn produces<Input, State, F: Fn(&FrameInputs<Input>, State) -> State>(
    update: F,
    inputs: Map<ParticipantId, Input>,
    s: State,
    r: State,
) -> bool {
    exists|m: FrameInputs<Input>| m@ == inputs && #[trigger] update.ensures((&m, s), r)
}

/// The state that one application of `update` produces from `inputs` and `s`.
pub open spec fn step<Input, State, F: Fn(&FrameInputs<Input>, State) -> State>(
    update: F,
    inputs: Map<ParticipantId, Input>,
    s: State,
) -> State {
    choose|r: State| #[trigger] produces(update, inputs, s, r)
}

/// The state after folding `update` over frames `lo..=hi` from `start`,
/// each frame with the inputs resolved for it.
pub open spec fn replay<Input, State, F: Fn(&FrameInputs<Input>, State) -> State>(
    update: F,
    start: State,
    ledger: Map<usize, Map<ParticipantId, Input>>,
    lo: int,
    hi: int,
) -> State
    decreases hi - lo + 1,
{
    if hi < lo {
        start
    } else {
        step(update, resolved(ledger, lo, hi), replay(update, start, ledger, lo, hi - 1))
    }
}

/// A result that a pure `update` returned is the one `step` names.
pub proof fn lemma_step_result<Input, State, F: Fn(&FrameInputs<Input>, State) -> State>(
    update: F,
    m: FrameInputs<Input>,
    s: State,
    r: State,
)
    requires
        pure_update(update),
        update.ensures((&m, s), r),
    ensures
        r == step(update, m@, s),
{
    let w = step(update, m@, s);
    assert(produces(update, m@, s, r));
    let m2 = choose|m2: FrameInputs<Input>| m2@ == m@ && update.ensures((&m2, s), w);
    assert(update.ensures((&m2, s), w));
}

/// Folding frames `lo..t` into a checkpoint and replaying from `t` over
/// the compacted ledger gives the same state as replaying from `lo`.
pub proof fn lemma_compaction_keeps_replay<Input, State, F: Fn(&FrameInputs<Input>, State) -> State>(
    update: F,
    start: State,
    ledger: Map<usize, Map<ParticipantId, Input>>,
    lo: int,
    t: int,
    f: int,
)
    requires
        lo <= t,
        t - 1 <= f,
        0 <= t <= usize::MAX,
    ensures
        replay(
            update,
            replay(update, start, ledger, lo, t - 1),
            ledger.insert(t as usize, resolved(ledger, lo, t)),
            t,
            f,
        ) == replay(update, start, ledger, lo, f),
    decreases f - t + 1,
{
    if f >= t {
        lemma_compaction_keeps_replay(update, start, ledger, lo, t, f - 1);
        lemma_compaction_keeps_resolution(ledger, lo, t, f);
    }
}

} // verus!
