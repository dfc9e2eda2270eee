use std::collections::HashMap;

use rollback_state::{ParticipantId, RollbackError, RollbackStateManager};

fn running_sum(input: &HashMap<ParticipantId, u64>, state: u64) -> u64 {
    let mut total = state;
    for value in input.values() {
        total = total + value;
    }
    total
}

#[test]
fn submission_accepted_from_oldest_frame_on() {
    let mut m: RollbackStateManager<u64, u64> = RollbackStateManager::new(0, 2);
    for _ in 0..5 {
        m.progress_frame(running_sum);
    }
    assert_eq!(m.oldest_frame_index, 3);
    assert_eq!(m.handle_input(3, 1, 4), Ok(()));
    assert_eq!(m.handle_input(100, 1, 4), Ok(()));
    assert_eq!(
        m.handle_input(2, 1, 4),
        Err(RollbackError::InputTooOld { input_frame: 2, oldest_valid_frame: 3 })
    );
    assert_eq!(
        m.handle_input(0, 9, 4),
        Err(RollbackError::InputTooOld { input_frame: 0, oldest_valid_frame: 3 })
    );
}

#[test]
fn rejected_submission_leaves_ledger_unchanged() {
    let mut m: RollbackStateManager<u64, u64> = RollbackStateManager::new(0, 1);
    m.progress_frame(running_sum);
    m.progress_frame(running_sum);
    assert_eq!(m.oldest_frame_index, 1);
    assert!(m.handle_input(0, 5, 7).is_err());
    assert_eq!(m.get_frame_inputs(1).get(&5), None);
    assert_eq!(m.compute_frame_state(2, running_sum), 0);
}

#[test]
fn resubmission_overwrites() {
    let mut m: RollbackStateManager<u64, u64> = RollbackStateManager::new(0, 4);
    m.handle_input(1, 3, 10).unwrap();
    m.handle_input(1, 3, 20).unwrap();
    assert_eq!(m.get_frame_inputs(1).get(&3), Some(&20));
    assert_eq!(m.get_frame_inputs(1).len(), 1);
}

#[test]
fn state_at_is_repeatable() {
    let mut m: RollbackStateManager<u64, u64> = RollbackStateManager::new(5, 4);
    m.handle_input(0, 1, 2).unwrap();
    m.handle_input(2, 2, 3).unwrap();
    let first = m.compute_frame_state(3, running_sum);
    let second = m.compute_frame_state(3, running_sum);
    assert_eq!(first, second);
    // frames 0..=3: 5 + 2 + 2 + 5 + 5
    assert_eq!(first, 19);
}

#[test]
fn input_is_held_until_resubmitted() {
    let mut m: RollbackStateManager<u64, u64> = RollbackStateManager::new(0, 10);
    m.handle_input(2, 8, 6).unwrap();
    assert_eq!(m.get_frame_inputs(1).get(&8), None);
    for f in 2..9 {
        assert_eq!(m.get_frame_inputs(f).get(&8), Some(&6));
    }
    m.handle_input(5, 8, 1).unwrap();
    assert_eq!(m.get_frame_inputs(4).get(&8), Some(&6));
    assert_eq!(m.get_frame_inputs(5).get(&8), Some(&1));
    assert_eq!(m.get_frame_inputs(8).get(&8), Some(&1));
}

#[test]
fn frames_before_window_resolve_to_nothing() {
    let mut m: RollbackStateManager<u64, u64> = RollbackStateManager::new(0, 1);
    m.handle_input(0, 1, 1).unwrap();
    m.progress_frame(running_sum);
    m.progress_frame(running_sum);
    m.progress_frame(running_sum);
    assert_eq!(m.oldest_frame_index, 2);
    assert!(m.get_frame_inputs(1).is_empty());
    // the input from frame 0 is carried forward to the new oldest frame
    assert_eq!(m.get_frame_inputs(2).get(&1), Some(&1));
    assert_eq!(m.compute_frame_state(1, running_sum), m.stored_state);
}

#[test]
fn window_bound_after_each_tick() {
    for window in [0usize, 1, 3] {
        let mut m: RollbackStateManager<u64, u64> = RollbackStateManager::new(0, window);
        for _ in 0..8 {
            m.progress_frame(running_sum);
            if m.current_frame_index >= window {
                assert_eq!(m.current_frame_index - m.oldest_frame_index, window);
            } else {
                assert_eq!(m.oldest_frame_index, 0);
            }
        }
    }
}

#[test]
fn zero_window_folds_every_frame() {
    let mut m: RollbackStateManager<u64, u64> = RollbackStateManager::new(0, 0);
    m.handle_input(0, 4, 3).unwrap();
    m.progress_frame(running_sum);
    assert_eq!(m.oldest_frame_index, 1);
    assert_eq!(m.stored_state, 3);
    assert_eq!(m.current_frame_state, 6);
    m.progress_frame(running_sum);
    assert_eq!(m.stored_state, 6);
    assert_eq!(m.current_frame_state, 9);
}

#[test]
fn late_input_changes_later_states() {
    let mut m: RollbackStateManager<u64, u64> = RollbackStateManager::new(0, 4);
    m.progress_frame(running_sum);
    m.progress_frame(running_sum);
    m.progress_frame(running_sum);
    assert_eq!(m.current_frame_state, 0);
    assert_eq!(m.compute_frame_state(3, running_sum), 0);
    m.handle_input(1, 2, 10).unwrap();
    // stale until recomputed
    assert_eq!(m.current_frame_state, 0);
    assert_eq!(m.compute_frame_state(3, running_sum), 30);
    m.progress_frame(running_sum);
    assert_eq!(m.current_frame_state, 40);
}

#[test]
fn compaction_keeps_replayed_states() {
    let mut m: RollbackStateManager<u64, u64> = RollbackStateManager::new(1, 2);
    m.handle_input(0, 1, 1).unwrap();
    m.handle_input(1, 2, 2).unwrap();
    m.handle_input(3, 1, 5).unwrap();
    m.progress_frame(running_sum);
    m.progress_frame(running_sum);
    let before: Vec<u64> = (2..6).map(|f| m.compute_frame_state(f, running_sum)).collect();
    m.progress_frame(running_sum);
    assert_eq!(m.oldest_frame_index, 1);
    let after: Vec<u64> = (2..6).map(|f| m.compute_frame_state(f, running_sum)).collect();
    assert_eq!(before, after);
    // frames 0..=5: 1 + 1 + 3 + 3 + 7 + 7 + 7
    assert_eq!(after[3], 29);
}

#[test]
fn empty_frames_leave_state_alone() {
    let mut m: RollbackStateManager<u64, u64> = RollbackStateManager::new(42, 3);
    for _ in 0..6 {
        m.progress_frame(running_sum);
        assert_eq!(m.current_frame_state, 42);
    }
}
