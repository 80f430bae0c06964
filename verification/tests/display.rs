use flashcard::cardbox::Progress;
use flashcard::display::{
    is_enter, progress_line, read_input_blanks_key, read_input_key, wait_for_return_key, Action,
    InputLocations, Key, Outcome,
};
use flashcard::validator::{HintMode, InputValidator};

#[test]
fn locations_are_the_places_of_the_blanks() {
    let locations = InputLocations::new(2, 5, 80, 24, "a __ b _");
    assert_eq!(vec![(4, 5), (5, 5), (9, 5)], locations.locations);
    let none = InputLocations::new(2, 5, 80, 24, "no blanks");
    assert!(none.locations.is_empty());
    let empty = InputLocations::new(2, 5, 80, 24, "");
    assert!(empty.locations.is_empty());
}

#[test]
fn locations_wrap_at_the_width() {
    let locations = InputLocations::new(2, 5, 4, 24, "____x___é_");
    assert_eq!(
        vec![(2, 5), (3, 5), (4, 5), (5, 5), (3, 6), (4, 6), (5, 6), (3, 7)],
        locations.locations
    );
    let narrow = InputLocations::new(7, 0, 1, 24, "_x_");
    assert_eq!(vec![(7, 0), (7, 2)], narrow.locations);
}

#[test]
fn locations_reach_the_last_column_and_row() {
    let locations = InputLocations::new(65533, 65534, 3, 1, "x__y_");
    assert_eq!(vec![(65534, 65534), (65535, 65534), (65534, 65535)], locations.locations);
}

#[test]
fn the_cursor_walks_through_the_locations() {
    let mut locations = InputLocations::new(0, 0, 10, 1, "_a_b_");
    assert_eq!((0, 0), locations.first());
    assert_eq!(None, locations.prev());
    assert_eq!(Some((2, 0)), locations.next());
    assert_eq!(Some((4, 0)), locations.next());
    assert_eq!(None, locations.next());
    assert_eq!(None, locations.next());
    assert_eq!(Some((4, 0)), locations.prev());
    assert_eq!(Some((2, 0)), locations.prev());
    assert_eq!(Some((0, 0)), locations.prev());
    assert_eq!(None, locations.prev());
    assert_eq!(Some((2, 0)), locations.next());
    assert_eq!((0, 0), locations.first());
    assert_eq!(Some((2, 0)), locations.next());
}

#[test]
fn the_cursor_stays_where_there_is_no_location() {
    let mut locations = InputLocations::new(0, 0, 10, 1, "abc");
    assert_eq!(None, locations.next());
    assert_eq!(None, locations.prev());
}

#[test]
fn typed_characters_are_printed_as_what_they_are() {
    let mut validator = InputValidator::new("ab");
    let first = read_input_key(&mut validator, Key::Char('a'));
    assert_eq!(vec![Action::PrintCorrect('a')], first.actions);
    assert_eq!(Outcome::Continue, first.outcome);
    let second = read_input_key(&mut validator, Key::Char('x'));
    assert_eq!(vec![Action::PrintIncorrect('x')], second.actions);
    assert_eq!(Outcome::Continue, second.outcome);
    assert_eq!(2, validator.index());
    // nothing more is accepted
    let third = read_input_key(&mut validator, Key::Char('b'));
    assert!(third.actions.is_empty());
    assert_eq!(Outcome::Continue, third.outcome);
    assert_eq!(2, validator.index());
}

#[test]
fn the_line_is_done_with_its_last_correct_character() {
    let mut validator = InputValidator::new("ab");
    read_input_key(&mut validator, Key::Char('a'));
    let last = read_input_key(&mut validator, Key::Char('b'));
    assert_eq!(vec![Action::PrintCorrect('b'), Action::NewLine], last.actions);
    assert_eq!(Outcome::Done, last.outcome);
    assert!(validator.happy());
}

#[test]
fn the_return_key_is_ignored_while_a_line_is_written() {
    let mut validator = InputValidator::new("ab");
    let reaction = read_input_key(&mut validator, Key::Char('\n'));
    assert!(reaction.actions.is_empty());
    assert_eq!(Outcome::Continue, reaction.outcome);
    assert_eq!(0, validator.index());
    assert!(is_enter('\n'));
    assert!(is_enter('\u{10a}'));
    assert!(!is_enter('\r'));
    assert!(!is_enter('a'));
}

#[test]
fn the_quit_key_ends_the_program() {
    let mut validator = InputValidator::new("ab");
    read_input_key(&mut validator, Key::Char('a'));
    let reaction = read_input_key(&mut validator, Key::Ctrl('q'));
    assert_eq!(vec![Action::Exit], reaction.actions);
    assert_eq!(Outcome::Quit, reaction.outcome);
    assert_eq!(1, validator.index());

    let mut locations = InputLocations::new(2, 5, 80, 24, "_");
    let reaction = read_input_blanks_key(&mut validator, &mut locations, Key::Ctrl('q'));
    assert_eq!(vec![Action::Exit], reaction.actions);
    assert_eq!(Outcome::Quit, reaction.outcome);

    let reaction = wait_for_return_key(Key::Ctrl('q'));
    assert_eq!(vec![Action::Exit], reaction.actions);
    assert_eq!(Outcome::Quit, reaction.outcome);
}

#[test]
fn the_backspace_key_takes_the_last_character_back() {
    let mut validator = InputValidator::new("ab");
    let nothing = read_input_key(&mut validator, Key::Backspace);
    assert!(nothing.actions.is_empty());
    assert_eq!(Outcome::Continue, nothing.outcome);
    read_input_key(&mut validator, Key::Char('x'));
    let reaction = read_input_key(&mut validator, Key::Backspace);
    assert_eq!(vec![Action::MoveLeft(1), Action::ClearLine], reaction.actions);
    assert_eq!(Outcome::Continue, reaction.outcome);
    assert_eq!(0, validator.index());
    assert_eq!(Some(0), validator.first_incorrect());
}

#[test]
fn the_peek_key_clears_what_is_incorrect_and_reveals_two_characters() {
    let mut validator = InputValidator::new("abcdef");
    read_input_key(&mut validator, Key::Char('a'));
    read_input_key(&mut validator, Key::Char('x'));
    read_input_key(&mut validator, Key::Char('c'));
    let first = read_input_key(&mut validator, Key::Ctrl('p'));
    assert_eq!(
        vec![
            Action::MoveLeft(2),
            Action::ClearLine,
            Action::SavePosition,
            Action::PrintHint('b'),
            Action::PrintHint('c'),
        ],
        first.actions
    );
    assert_eq!(Outcome::Continue, first.outcome);
    assert_eq!(1, validator.index());
    assert_eq!(HintMode::Active(2), *validator.hint_mode());
    assert!(!validator.passed());

    let second = read_input_key(&mut validator, Key::Ctrl('p'));
    assert_eq!(vec![Action::PrintHint('d'), Action::PrintHint('e')], second.actions);
    let third = read_input_key(&mut validator, Key::Ctrl('p'));
    assert_eq!(vec![Action::PrintHint('f')], third.actions);
    let fourth = read_input_key(&mut validator, Key::Ctrl('p'));
    assert!(fourth.actions.is_empty());
    assert_eq!(HintMode::Active(5), *validator.hint_mode());
}

#[test]
fn the_peek_key_saves_the_position_where_nothing_is_incorrect() {
    let mut validator = InputValidator::new("abc");
    read_input_key(&mut validator, Key::Char('a'));
    let reaction = read_input_key(&mut validator, Key::Ctrl('p'));
    assert_eq!(
        vec![
            Action::ClearLine,
            Action::SavePosition,
            Action::PrintHint('b'),
            Action::PrintHint('c'),
        ],
        reaction.actions
    );
    assert_eq!(1, validator.index());
}

#[test]
fn typing_takes_the_hint_away() {
    let mut validator = InputValidator::new("abc");
    read_input_key(&mut validator, Key::Ctrl('p'));
    let typed = read_input_key(&mut validator, Key::Char('a'));
    assert_eq!(vec![Action::ClearHint, Action::PrintCorrect('a')], typed.actions);
    assert_eq!(HintMode::Inactive, *validator.hint_mode());

    read_input_key(&mut validator, Key::Ctrl('p'));
    let erased = read_input_key(&mut validator, Key::Backspace);
    assert_eq!(
        vec![Action::ClearHint, Action::MoveLeft(1), Action::ClearLine],
        erased.actions
    );
    assert_eq!(HintMode::Inactive, *validator.hint_mode());
    assert_eq!(0, validator.index());
}

#[test]
fn a_line_written_after_a_hint_is_done_but_not_passed() {
    let mut validator = InputValidator::new("ab");
    read_input_key(&mut validator, Key::Ctrl('p'));
    read_input_key(&mut validator, Key::Ctrl('p'));
    read_input_key(&mut validator, Key::Char('a'));
    let last = read_input_key(&mut validator, Key::Char('b'));
    assert_eq!(Outcome::Done, last.outcome);
    assert!(validator.happy());
    assert!(!validator.passed());
}

#[test]
fn other_keys_do_nothing() {
    let mut validator = InputValidator::new("ab");
    let reaction = read_input_key(&mut validator, Key::Other);
    assert!(reaction.actions.is_empty());
    assert_eq!(Outcome::Continue, reaction.outcome);
    let reaction = read_input_key(&mut validator, Key::Ctrl('x'));
    assert!(reaction.actions.is_empty());
    assert_eq!(Outcome::Continue, reaction.outcome);
    assert_eq!(0, validator.index());
    assert_eq!(HintMode::Inactive, *validator.hint_mode());
}

#[test]
fn an_empty_line_is_done_at_once() {
    let mut validator = InputValidator::new("");
    let reaction = read_input_key(&mut validator, Key::Ctrl('p'));
    assert_eq!(vec![Action::SavePosition, Action::NewLine], reaction.actions);
    assert_eq!(Outcome::Done, reaction.outcome);
}

#[test]
fn blanks_are_filled_in_one_after_the_other() {
    let mut validator = InputValidator::new("ab");
    let mut locations = InputLocations::new(2, 5, 80, 24, "_ _");
    assert_eq!((2, 5), locations.first());
    let first = read_input_blanks_key(&mut validator, &mut locations, Key::Char('a'));
    assert_eq!(vec![Action::PrintCorrect('a'), Action::Goto(4, 5)], first.actions);
    assert_eq!(Outcome::Continue, first.outcome);
    let second = read_input_blanks_key(&mut validator, &mut locations, Key::Char('x'));
    assert_eq!(vec![Action::PrintIncorrect('x')], second.actions);
    assert_eq!(Outcome::Continue, second.outcome);
    let third = read_input_blanks_key(&mut validator, &mut locations, Key::Char('y'));
    assert!(third.actions.is_empty());
    assert_eq!(2, validator.index());
}

#[test]
fn the_backspace_key_puts_the_blank_back() {
    let mut validator = InputValidator::new("ab");
    let mut locations = InputLocations::new(2, 5, 80, 24, "_ _");
    let nothing = read_input_blanks_key(&mut validator, &mut locations, Key::Backspace);
    assert!(nothing.actions.is_empty());
    read_input_blanks_key(&mut validator, &mut locations, Key::Char('a'));
    let reaction = read_input_blanks_key(&mut validator, &mut locations, Key::Backspace);
    assert_eq!(
        vec![Action::Goto(2, 5), Action::PrintBlank, Action::Goto(2, 5)],
        reaction.actions
    );
    assert_eq!(Outcome::Continue, reaction.outcome);
    assert_eq!(0, validator.index());
    let ignored = read_input_blanks_key(&mut validator, &mut locations, Key::Char('\n'));
    assert!(ignored.actions.is_empty());
    assert_eq!(0, validator.index());
}

#[test]
fn the_return_key_ends_the_wait() {
    let done = wait_for_return_key(Key::Char('\n'));
    assert!(done.actions.is_empty());
    assert_eq!(Outcome::Done, done.outcome);
    for key in [Key::Char('a'), Key::Backspace, Key::Other, Key::Ctrl('p')] {
        let reaction = wait_for_return_key(key);
        assert!(reaction.actions.is_empty());
        assert_eq!(Outcome::Continue, reaction.outcome);
    }
}

#[test]
fn the_progress_line_tells_the_stages_and_what_is_left() {
    assert_eq!("|0|0|0|0|0| left: 0", progress_line(Progress(0, 0, 0, 0, 0, 0)));
    assert_eq!("|3|0|12|5|100| left: 47", progress_line(Progress(47, 3, 0, 12, 5, 100)));
}

#[test]
fn locations_can_be_read_and_counted() {
    let locations = InputLocations::new(2, 5, 80, 24, "a __ b _");
    assert_eq!(&vec![(4, 5), (5, 5), (9, 5)], locations.locations());
    assert_eq!(3, locations.len());
    assert_eq!(0, InputLocations::new(2, 5, 80, 24, "none").len());
}
