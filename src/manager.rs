use std::collections::HashMap;
use core::fmt::Debug;
use vstd::prelude::*;
use crate::error::RollbackError;
use crate::ledger::{
    absorb, clone_is_exact, entries_at, ledger_model, lemma_compaction_keeps_resolution, resolved,
    FrameInputs, ParticipantId,
};
use crate::replay::{lemma_compaction_keeps_replay, lemma_step_result, pure_update, replay};

verus! {

/// First frame of a window of `max_history` frames ending at `current`.
pub open spec fn window_start(current: int, max_history: int) -> int {
    if current >= max_history {
        current - max_history
    } else {
        0
    }
}

/// Records per-frame inputs and re-derives frame states from a checkpoint.
pub struct RollbackStateManager<Input: Eq + Clone + Debug, State: Clone + Debug> {
    /// Number of frames the window may span behind the current frame.
    pub max_history: usize,
    /// Oldest frame that can still be replayed; the checkpoint is anchored here.
    pub oldest_frame_index: usize,
    /// Frame reached by the last `progress_frame`.
    pub current_frame_index: usize,
    /// Checkpoint state, from which every replay starts.
    pub stored_state: State,
    /// State computed for `current_frame_index` by the last `progress_frame`.
    pub current_frame_state: State,
    /// Submitted inputs, by frame and participant.
    pub recorded_inputs: HashMap<usize, FrameInputs<Input>>,
}

impl<Input: Eq + Clone + Debug, State: Clone + Debug> RollbackStateManager<Input, State> {
    /// The input ledger as a map of maps.
    pub open spec fn ledger(&self) -> Map<usize, Map<ParticipantId, Input>> {
        ledger_model(self.recorded_inputs@)
    }

    /// The inputs in force at `frame`, as far back as the window reaches.
    pub open spec fn resolve(&self, frame: int) -> Map<ParticipantId, Input> {
        resolved(self.ledger(), self.oldest_frame_index as int, frame)
    }

    /// The window invariant: the checkpoint sits exactly `max_history`
    /// frames behind the current frame, or at frame 0 before that.
    pub open spec fn wf(&self) -> bool {
        self.oldest_frame_index == window_start(
            self.current_frame_index as int,
            self.max_history as int,
        )
    }

    /// The state of `frame`: the checkpoint with `update` folded over the
    /// retained frames up to and including `frame`.
    pub open spec fn state_at<F: Fn(&FrameInputs<Input>, State) -> State>(
        &self,
        update: F,
        frame: int,
    ) -> State {
        replay(update, self.stored_state, self.ledger(), self.oldest_frame_index as int, frame)
    }

    /// A manager at frame 0 whose checkpoint and current state are `initial_state`.
    pub fn new(initial_state: State, max_rollback: usize) -> (r: Self)
        requires
            clone_is_exact::<State>(),
        ensures
            r.max_history == max_rollback,
            r.oldest_frame_index == 0,
            r.current_frame_index == 0,
            r.stored_state == initial_state,
            r.current_frame_state == initial_state,
            r.ledger() == Map::<usize, Map<ParticipantId, Input>>::empty(),
            r.wf(),
    {
        let r = RollbackStateManager {
            max_history: max_rollback,
            oldest_frame_index: 0,
            current_frame_index: 0,
            stored_state: initial_state.clone(),
            current_frame_state: initial_state,
            recorded_inputs: HashMap::new(),
        };
        assert(r.ledger() =~= Map::empty());
        r
    }

    /// Records `input` for participant `id` at `frame`, replacing any earlier
    /// submission for the same pair; fails once `frame` has left the window.
    pub fn handle_input(&mut self, frame: usize, id: ParticipantId, input: Input) -> (r: Result<
        (),
        RollbackError,
    >)
        ensures
            r is Ok <==> frame >= old(self).oldest_frame_index,
            r is Ok ==> final(self).ledger() == old(self).ledger().insert(
                frame,
                entries_at(old(self).ledger(), frame as int).insert(id, input),
            ),
            r is Err ==> r == Err::<(), RollbackError>(RollbackError::InputTooOld {
                input_frame: frame,
                oldest_valid_frame: old(self).oldest_frame_index,
            }) && final(self).ledger() == old(self).ledger(),
            final(self).max_history == old(self).max_history,
            final(self).oldest_frame_index == old(self).oldest_frame_index,
            final(self).current_frame_index == old(self).current_frame_index,
            final(self).stored_state == old(self).stored_state,
            final(self).current_frame_state == old(self).current_frame_state,
    {
        broadcast use vstd::std_specs::hash::group_hash_axioms;
        if frame < self.oldest_frame_index {
            return Err(RollbackError::InputTooOld {
                input_frame: frame,
                oldest_valid_frame: self.oldest_frame_index,
            });
        }
        let mut entries = match self.recorded_inputs.remove(&frame) {
            Some(m) => m,
            None => HashMap::new(),
        };
        entries.insert(id, input);
        self.recorded_inputs.insert(frame, entries);
        assert(self.ledger() =~= old(self).ledger().insert(
            frame,
            entries_at(old(self).ledger(), frame as int).insert(id, input),
        ));
        Ok(())
    }

    /// Merges the inputs recorded at `frame` into `acc`, overriding
    /// what `acc` held for the same participants.
    fn absorb_frame(&self, acc: &mut FrameInputs<Input>, frame: usize)
        requires
            clone_is_exact::<Input>(),
        ensures
            final(acc)@ == old(acc)@.union_prefer_right(entries_at(self.ledger(), frame as int)),
    {
        broadcast use vstd::std_specs::hash::group_hash_axioms;
        match self.recorded_inputs.get(&frame) {
            Some(m) => absorb(acc, m),
            None => {
                assert(acc@ =~= acc@.union_prefer_right(entries_at(self.ledger(), frame as int)));
            },
        }
    }

    /// Each participant's most recent input at or before `index`, looking
    /// no further back than the oldest retained frame.
    pub fn get_frame_inputs(&self, index: usize) -> (r: FrameInputs<Input>)
        requires
            clone_is_exact::<Input>(),
        ensures
            r@ == self.resolve(index as int),
    {
        let mut inputs: FrameInputs<Input> = HashMap::new();
        if index < self.oldest_frame_index {
            assert(inputs@ =~= self.resolve(index as int));
            return inputs;
        }
        let mut frame: usize = self.oldest_frame_index;
        assert(inputs@ =~= self.resolve(frame - 1));
        while frame < index
            invariant
                self.oldest_frame_index <= frame <= index,
                clone_is_exact::<Input>(),
                inputs@ == self.resolve(frame - 1),
            decreases index - frame,
        {
            self.absorb_frame(&mut inputs, frame);
            frame = frame + 1;
        }
        self.absorb_frame(&mut inputs, index);
        inputs
    }

    /// The state of frame `index`, re-derived from the checkpoint.
    pub fn compute_frame_state<F>(&self, index: usize, update: F) -> (r: State) where
        F: Fn(&FrameInputs<Input>, State) -> State,
        requires
            pure_update(update),
            clone_is_exact::<Input>(),
            clone_is_exact::<State>(),
        ensures
            r == self.state_at(update, index as int),
    {
        let mut state = self.stored_state.clone();
        if index < self.oldest_frame_index {
            return state;
        }
        let mut frame: usize = self.oldest_frame_index;
        while frame <= index
            invariant_except_break
                self.oldest_frame_index <= frame <= index,
                state == self.state_at(update, frame - 1),
            invariant
                pure_update(update),
                clone_is_exact::<Input>(),
            ensures
                state == self.state_at(update, index as int),
            decreases index - frame,
        {
            let inputs = self.get_frame_inputs(frame);
            let ghost prev = state;
            state = update(&inputs, state);
            proof {
                lemma_step_result(update, inputs, prev, state);
            }
            if frame == index {
                break;
            }
            frame = frame + 1;
        }
        state
    }

    /// Advances one frame: folds the frames that left the window into the
    /// checkpoint, then recomputes the state of the new current frame.
    pub fn progress_frame<F>(&mut self, update: F) where
        F: Fn(&FrameInputs<Input>, State) -> State,
        requires
            old(self).current_frame_index < usize::MAX,
            pure_update(update),
            clone_is_exact::<Input>(),
            clone_is_exact::<State>(),
        ensures
            final(self).current_frame_index == old(self).current_frame_index + 1,
            final(self).max_history == old(self).max_history,
            ({
                let target = window_start(
                    final(self).current_frame_index as int,
                    old(self).max_history as int,
                );
                if old(self).oldest_frame_index < target {
                    &&& final(self).oldest_frame_index == target
                    &&& final(self).stored_state == replay(
                        update,
                        old(self).stored_state,
                        old(self).ledger(),
                        old(self).oldest_frame_index as int,
                        target - 1,
                    )
                    &&& final(self).ledger() == old(self).ledger().insert(
                        target as usize,
                        old(self).resolve(target),
                    )
                } else {
                    &&& final(self).oldest_frame_index == old(self).oldest_frame_index
                    &&& final(self).stored_state == old(self).stored_state
                    &&& final(self).ledger() == old(self).ledger()
                }
            }),
            final(self).current_frame_state == final(self).state_at(
                update,
                final(self).current_frame_index as int,
            ),
            forall|f: int|
                final(self).oldest_frame_index <= f ==> #[trigger] final(self).resolve(f) == old(
                    self,
                ).resolve(f),
            forall|f: int|
                final(self).oldest_frame_index - 1 <= f ==> #[trigger] final(self).state_at(update, f)
                    == old(self).state_at(update, f),
            old(self).wf() ==> final(self).wf(),
            old(self).wf() && final(self).current_frame_index >= final(self).max_history
                ==> final(self).current_frame_index - final(self).oldest_frame_index
                == final(self).max_history,
    {
        broadcast use vstd::std_specs::hash::group_hash_axioms;
        self.current_frame_index = self.current_frame_index + 1;
        let target: usize = if self.current_frame_index >= self.max_history {
            self.current_frame_index - self.max_history
        } else {
            0
        };
        if self.oldest_frame_index < target {
            let mut state = self.stored_state.clone();
            let mut frame: usize = self.oldest_frame_index;
            while frame < target
                invariant
                    self.oldest_frame_index <= frame <= target,
                    pure_update(update),
                    clone_is_exact::<Input>(),
                    state == self.state_at(update, frame - 1),
                decreases target - frame,
            {
                let inputs = self.get_frame_inputs(frame);
                let ghost prev = state;
                state = update(&inputs, state);
                proof {
                    lemma_step_result(update, inputs, prev, state);
                }
                frame = frame + 1;
            }
            let carried = self.get_frame_inputs(target);
            self.recorded_inputs.insert(target, carried);
            self.oldest_frame_index = target;
            self.stored_state = state;
            assert(self.ledger() =~= old(self).ledger().insert(target, old(self).resolve(target as int)));
        }
        self.current_frame_state = self.compute_frame_state(self.current_frame_index, update);
        let ghost compacted = old(self).oldest_frame_index < target;
        assert forall|f: int| self.oldest_frame_index <= f implies #[trigger] self.resolve(f)
            == old(self).resolve(f) by {
            if compacted {
                lemma_compaction_keeps_resolution(
                    old(self).ledger(),
                    old(self).oldest_frame_index as int,
                    target as int,
                    f,
                );
            }
        }
        assert forall|f: int| self.oldest_frame_index - 1 <= f implies #[trigger] self.state_at(
            update,
            f,
        ) == old(self).state_at(update, f) by {
            if compacted {
                lemma_compaction_keeps_replay(
                    update,
                    old(self).stored_state,
                    old(self).ledger(),
                    old(self).oldest_frame_index as int,
                    target as int,
                    f,
                );
            }
        }
    }
}

} // verus!
