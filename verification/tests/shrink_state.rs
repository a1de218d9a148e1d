use proptest_stateful::shrink::{Shrink, ShrinkState, Undo};

fn flags(state: &ShrinkState) -> Vec<bool> {
    (0..state.len()).map(|i| state.is_included(i)).collect()
}

#[test]
fn fresh_search_includes_every_command() {
    let state = ShrinkState::new(3, false);
    assert_eq!(state.len(), 3);
    assert_eq!(state.num_included(), 3);
    assert_eq!(flags(&state), vec![true, true, true]);
    assert_eq!(state.shrink(), Shrink::DeleteCommand(0));
    assert_eq!(state.prev_shrink(), None);
}

#[test]
fn deleting_leaves_out_one_command_per_step() {
    let mut state = ShrinkState::new(3, false);
    assert!(state.delete_next());
    assert_eq!(flags(&state), vec![false, true, true]);
    assert_eq!(state.num_included(), 2);
    assert_eq!(state.shrink(), Shrink::DeleteCommand(1));
    assert_eq!(state.prev_shrink(), Some(Shrink::DeleteCommand(0)));
    assert!(state.delete_next());
    assert_eq!(flags(&state), vec![false, false, true]);
    assert_eq!(state.shrink(), Shrink::DeleteCommand(2));
    assert_eq!(state.prev_shrink(), Some(Shrink::DeleteCommand(1)));
}

#[test]
fn deleting_never_goes_below_one_command() {
    let mut state = ShrinkState::new(3, false);
    assert!(state.delete_next());
    assert!(state.delete_next());
    assert_eq!(state.num_included(), 1);
    assert!(!state.delete_next());
    assert_eq!(flags(&state), vec![false, false, true]);
    assert_eq!(state.num_included(), 1);
    assert_eq!(state.shrink(), Shrink::ShrinkCommand(0));
    assert!(!state.delete_next());
    assert_eq!(state.num_included(), 1);
}

#[test]
fn a_single_command_is_never_left_out() {
    let mut state = ShrinkState::new(1, true);
    assert!(!state.delete_next());
    assert_eq!(flags(&state), vec![true]);
    assert_eq!(state.shrink(), Shrink::ShrinkCommand(0));
    assert_eq!(state.prev_shrink(), None);
}

#[test]
fn deleting_past_the_end_hands_over_to_the_elements() {
    let mut state = ShrinkState::new(2, false);
    assert!(state.delete_next());
    assert_eq!(state.undo(), Undo::Reincluded(0));
    assert!(state.delete_next());
    assert_eq!(flags(&state), vec![true, false]);
    assert_eq!(state.undo(), Undo::Reincluded(1));
    assert_eq!(state.shrink(), Shrink::DeleteCommand(2));
    assert!(!state.delete_next());
    assert_eq!(state.shrink(), Shrink::ShrinkCommand(0));
    assert_eq!(flags(&state), vec![true, true]);
}

#[test]
fn undo_puts_a_deleted_command_back() {
    let mut state = ShrinkState::new(4, false);
    assert!(state.delete_next());
    assert!(state.delete_next());
    let before = flags(&state);
    assert!(state.delete_next());
    assert_eq!(flags(&state), vec![false, false, false, true]);
    assert_eq!(state.undo(), Undo::Reincluded(2));
    assert_eq!(flags(&state), before);
    assert_eq!(state.prev_shrink(), None);
    assert_eq!(state.shrink(), Shrink::DeleteCommand(3));
    assert_eq!(state.undo(), Undo::Nothing);
    assert_eq!(flags(&state), before);
}

#[test]
fn an_empty_sequence_has_nothing_to_search() {
    let mut state = ShrinkState::new(0, true);
    assert_eq!(state.num_included(), 0);
    assert!(!state.delete_next());
    assert_eq!(state.shrink(), Shrink::ShrinkCommand(0));
    assert_eq!(state.next_candidate(), None);
    assert_eq!(state.undo(), Undo::Nothing);
}

#[test]
fn element_phase_skips_what_was_left_out() {
    let mut state = ShrinkState::new(4, true);
    assert!(state.delete_next());
    assert!(state.delete_next());
    assert_eq!(state.undo(), Undo::Reincluded(1));
    assert!(state.delete_next());
    assert!(state.delete_next());
    assert_eq!(flags(&state), vec![false, true, false, false]);
    assert!(!state.delete_next());
    assert_eq!(state.next_candidate(), Some(1));
    assert_eq!(state.shrink(), Shrink::ShrinkCommand(1));
    assert!(!state.settle(false));
    assert_eq!(state.shrink(), Shrink::ShrinkCommand(2));
    assert_eq!(state.next_candidate(), None);
    assert_eq!(state.shrink(), Shrink::ShrinkCommand(4));
    assert_eq!(state.next_candidate(), None);
    assert_eq!(flags(&state), vec![false, true, false, false]);
}

#[test]
fn element_phase_stays_off_unless_asked_for() {
    let mut state = ShrinkState::new(2, false);
    assert!(state.delete_next());
    assert!(!state.delete_next());
    assert_eq!(state.next_candidate(), None);
    assert_eq!(state.shrink(), Shrink::ShrinkCommand(0));
    assert_eq!(state.next_candidate(), None);
}

#[test]
fn an_accepted_element_step_is_remembered_until_it_cannot_be_taken_back() {
    let mut state = ShrinkState::new(2, true);
    assert!(state.delete_next());
    assert!(!state.delete_next());
    assert_eq!(state.next_candidate(), Some(1));
    assert!(state.settle(true));
    assert_eq!(state.shrink(), Shrink::ShrinkCommand(1));
    assert_eq!(state.prev_shrink(), Some(Shrink::ShrinkCommand(1)));
    assert_eq!(state.undo(), Undo::Element(1));
    assert!(state.settle_undo(true));
    assert_eq!(state.prev_shrink(), Some(Shrink::ShrinkCommand(1)));
    assert_eq!(state.undo(), Undo::Element(1));
    assert!(!state.settle_undo(false));
    assert_eq!(state.prev_shrink(), None);
    assert_eq!(state.undo(), Undo::Nothing);
    assert_eq!(state.next_candidate(), Some(1));
}

#[test]
fn no_more_steps_succeed_than_there_are_commands_and_element_steps() {
    // Five commands; the elements at positions 0..5 can simplify 2, 0, 1, 0
    // and 3 times. Every candidate is accepted, so deleting stops at one
    // command and only the last element is ever asked.
    let mut budgets = vec![2usize, 0, 1, 0, 3];
    let bound = 5 + budgets.iter().sum::<usize>();
    let mut state = ShrinkState::new(5, true);
    let mut successes = 0;
    loop {
        if state.delete_next() {
            successes += 1;
            continue;
        }
        match state.next_candidate() {
            None => break,
            Some(position) => {
                let simplified = budgets[position] > 0;
                if simplified {
                    budgets[position] -= 1;
                }
                if state.settle(simplified) {
                    successes += 1;
                }
            }
        }
    }
    assert_eq!(successes, 4 + 3);
    assert!(successes <= bound);
    assert_eq!(state.shrink(), Shrink::ShrinkCommand(5));
    assert_eq!(state.next_candidate(), None);
    assert!(!state.delete_next());
}

#[test]
fn asking_for_an_element_ends_the_deletion_phase() {
    let mut state = ShrinkState::new(3, true);
    assert_eq!(state.next_candidate(), Some(0));
    assert_eq!(state.shrink(), Shrink::ShrinkCommand(0));
    assert!(!state.delete_next());
    assert_eq!(flags(&state), vec![true, true, true]);

    let mut state = ShrinkState::new(3, false);
    assert_eq!(state.next_candidate(), None);
    assert_eq!(state.shrink(), Shrink::DeleteCommand(0));
    assert!(state.delete_next());
}
