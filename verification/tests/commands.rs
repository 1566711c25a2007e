//! The command interpreter on concrete input lines.

use game_of_life::command::Action;
use game_of_life::command::get_action_from;
use game_of_life::command::get_number_of_steps_to_precompute;

#[test]
fn blank_lines_give_no_action() {
    assert_eq!(get_action_from(b""), None);
    assert_eq!(get_action_from(b"   \t  \n"), None);
}

#[test]
fn next_in_short_and_long_form() {
    assert_eq!(get_action_from(b"n"), Some(Action::Next));
    assert_eq!(get_action_from(b"next"), Some(Action::Next));
    assert_eq!(get_action_from(b"NEXT"), Some(Action::Next));
    assert_eq!(get_action_from(b"  next  \n"), Some(Action::Next));
}

#[test]
fn previous_in_all_forms() {
    assert_eq!(get_action_from(b"p"), Some(Action::Previous));
    assert_eq!(get_action_from(b"prev"), Some(Action::Previous));
    assert_eq!(get_action_from(b"previous"), Some(Action::Previous));
    assert_eq!(get_action_from(b"Prev"), Some(Action::Previous));
}

#[test]
fn expand_takes_a_count() {
    assert_eq!(get_action_from(b"e 5"), Some(Action::PrecomputeNext(5)));
    assert_eq!(get_action_from(b"exp 0"), Some(Action::PrecomputeNext(0)));
    assert_eq!(get_action_from(b"expand 10\n"), Some(Action::PrecomputeNext(10)));
    assert_eq!(get_action_from(b"EXPAND 3"), Some(Action::PrecomputeNext(3)));
}

#[test]
fn expand_without_a_usable_count_is_invalid() {
    assert_eq!(get_action_from(b"e"), Some(Action::InvalidAction));
    assert_eq!(get_action_from(b"e  "), Some(Action::InvalidAction));
    assert_eq!(get_action_from(b"e five"), Some(Action::InvalidAction));
    assert_eq!(get_action_from(b"e +5"), Some(Action::InvalidAction));
    assert_eq!(
        get_action_from(b"e 18446744073709551616"),
        Some(Action::InvalidAction)
    );
}

#[test]
fn quit_and_help() {
    assert_eq!(get_action_from(b"q"), Some(Action::Quit));
    assert_eq!(get_action_from(b"quit"), Some(Action::Quit));
    assert_eq!(get_action_from(b"h"), Some(Action::Help));
    assert_eq!(get_action_from(b"help\n"), Some(Action::Help));
}

#[test]
fn unknown_words_are_invalid() {
    assert_eq!(get_action_from(b"xyz"), Some(Action::InvalidAction));
    assert_eq!(get_action_from(b"nexte"), Some(Action::InvalidAction));
    assert_eq!(get_action_from(b"ne"), Some(Action::InvalidAction));
}

#[test]
fn only_the_command_word_is_case_folded() {
    // The count is a number; there is nothing to fold there.
    assert_eq!(get_action_from(b"E 7"), Some(Action::PrecomputeNext(7)));
}

#[test]
fn step_count_reads_the_word_after_the_command() {
    let line = b"e 12";
    assert_eq!(
        get_number_of_steps_to_precompute(line, 1),
        Action::PrecomputeNext(12)
    );
    assert_eq!(
        get_number_of_steps_to_precompute(b"e", 1),
        Action::InvalidAction
    );
}
