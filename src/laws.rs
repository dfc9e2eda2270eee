use core::fmt::Debug;
use vstd::prelude::*;
use crate::ledger::{entries_at, lemma_latest_entry_holds, FrameInputs, ParticipantId};
use crate::manager::RollbackStateManager;

verus! {

/// Replay is a function of the checkpoint, the window start and the
/// ledger's contents: two managers that agree on them derive the same
/// state for every frame, however often it is asked for.
pub proof fn law_state_at_is_repeatable<
    Input: Eq + Clone + Debug,
    State: Clone + Debug,
    F: Fn(&FrameInputs<Input>, State) -> State,
>(m1: &RollbackStateManager<Input, State>, m2: &RollbackStateManager<Input, State>, update: F, f: int)
    requires
        m1.oldest_frame_index == m2.oldest_frame_index,
        m1.stored_state == m2.stored_state,
        m1.ledger() == m2.ledger(),
    ensures
        m1.state_at(update, f) == m2.state_at(update, f),
{
}

/// Hold-last-input: a participant whose last submission up to frame `f`
/// was made at frame `a` (inside the window) resolves at `f` to the input
/// it had at `a`.
pub proof fn law_hold_last_input<Input: Eq + Clone + Debug, State: Clone + Debug>(
    m: &RollbackStateManager<Input, State>,
    p: ParticipantId,
    a: int,
    f: int,
)
    requires
        m.oldest_frame_index <= a <= f,
        entries_at(m.ledger(), a).contains_key(p),
        forall|g: int| a < g <= f ==> !(#[trigger] entries_at(m.ledger(), g)).contains_key(p),
    ensures
        m.resolve(a).contains_key(p),
        m.resolve(f).contains_key(p),
        m.resolve(f)[p] == m.resolve(a)[p],
        m.resolve(a)[p] == entries_at(m.ledger(), a)[p],
{
    lemma_latest_entry_holds(m.ledger(), m.oldest_frame_index as int, a, a, p);
    lemma_latest_entry_holds(m.ledger(), m.oldest_frame_index as int, a, f, p);
}

/// Late arrival: once an input `x` for participant `p` is recorded at a
/// past frame `g` inside the window, every later frame up to `f` with no
/// newer submission from `p` resolves `p` to `x`, and so every replay
/// covering those frames uses it.
pub proof fn law_late_input_reaches_later_frames<Input: Eq + Clone + Debug, State: Clone + Debug>(
    before: &RollbackStateManager<Input, State>,
    after: &RollbackStateManager<Input, State>,
    g: usize,
    p: ParticipantId,
    x: Input,
    f: int,
)
    requires
        before.oldest_frame_index <= g <= f,
        after.oldest_frame_index == before.oldest_frame_index,
        after.ledger() == before.ledger().insert(g, entries_at(before.ledger(), g as int).insert(p, x)),
        forall|h: int| g < h <= f ==> !(#[trigger] entries_at(before.ledger(), h)).contains_key(p),
    ensures
        after.resolve(f).contains_key(p),
        after.resolve(f)[p] == x,
{
    assert forall|h: int| g < h <= f implies !(#[trigger] entries_at(after.ledger(), h)).contains_key(
        p,
    ) by {
        assert(entries_at(after.ledger(), h) == entries_at(before.ledger(), h));
    }
    lemma_latest_entry_holds(after.ledger(), after.oldest_frame_index as int, g as int, f, p);
}

} // verus!
