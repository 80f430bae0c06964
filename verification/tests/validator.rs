use flashcard::flashcards::{Flashcard, FlashcardBack, LinePart};
use flashcard::validator::{FlashcardValidator, HintMode, InputValidator};
use std::rc::Rc;

fn write_the_line(lines: &[&str]) -> Flashcard {
    Flashcard {
        subject: Rc::new(String::from("test")),
        face: String::from("face"),
        back: FlashcardBack::WriteTheLine(lines.iter().map(|line| String::from(*line)).collect()),
        note: None,
    }
}

#[test]
fn check_correct_input() {
    let mut v = InputValidator::new("hello");
    assert!(v.check('h'));
    assert!(v.check('e'));
    assert!(v.check('l'));
    assert!(v.check('l'));
    assert!(v.check('o'));
}

#[test]
fn check_incorrect_input() {
    let mut v = InputValidator::new("hello");
    assert!(v.check('h'));
    assert!(!v.check('3'));
    assert!(v.check('l'));
    assert!(v.check('l'));
    assert!(!v.check('0'));
}

#[test]
fn undo_1() {
    let mut v = InputValidator::new("hello");
    v.check('h');
    v.check('3');
    v.undo(1);
    v.check('e');
    v.check('l');
    v.check('l');
    v.check('0');
    v.undo(1);
    v.check('o');

    assert!(v.happy());
}

#[test]
fn undo_0() {
    let mut v = InputValidator::new("hello");
    v.check('h');
    v.undo(0);
    v.check('e');
    v.undo(0);
    v.check('l');
    v.undo(0);
    v.check('l');
    v.undo(0);
    v.check('o');
    v.undo(0);
    assert!(v.happy());
}

#[test]
fn undo_many() {
    let mut v = InputValidator::new("hello");
    v.check('h');
    v.check('e');
    v.undo(2);
    v.check('h');
    v.check('e');
    v.check('l');
    v.check('l');
    v.check('o');
    assert!(v.happy());
}

#[test]
fn check_validator_reset() {
    let mut v = InputValidator::new("hello");
    assert!(v.check('h'));
    assert!(v.check('e'));
    v.reset();
    assert!(v.check('h'));
    assert!(v.check('e'));
    assert!(v.check('l'));
    assert!(v.check('l'));
    assert!(v.check('o'));
}

#[test]
fn is_happy() {
    let mut v = InputValidator::new("hello");
    assert!(!v.happy());
    assert!(v.check('h'));
    assert!(!v.happy());
    assert!(v.check('e'));
    assert!(!v.happy());
    assert!(v.check('l'));
    assert!(!v.happy());
    assert!(v.check('l'));
    assert!(!v.happy());
    assert!(v.check('o'));
    assert!(v.happy());
}

#[test]
fn is_happy_with_corrected_input() {
    let mut v = InputValidator::new("hello");
    assert!(!v.happy());
    assert!(v.check('h'));
    assert!(!v.check('3'));
    assert!(!v.happy());
    v.undo(1);
    assert!(!v.happy());
    assert!(v.check('e'));
    assert!(v.check('l'));
    assert!(!v.happy());
    assert!(v.check('l'));
    assert!(!v.check('0'));
    assert!(!v.happy());
    v.undo(1);
    assert!(!v.happy());
    assert!(v.check('o'));
    assert!(v.happy());
}

#[test]
fn hint() {
    let mut v = InputValidator::new("hello");
    assert_eq!(Some('h'), v.peek());
    assert_eq!(Some('e'), v.peek());
}

#[test]
fn hints_dont_satisfy_validator() {
    let mut v = InputValidator::new("hello");
    assert_eq!(Some('h'), v.peek());
    assert_eq!(Some('e'), v.peek());
    assert_eq!(Some('l'), v.peek());
    assert_eq!(Some('l'), v.peek());
    assert_eq!(Some('o'), v.peek());
    assert!(!v.happy());
}

#[test]
fn none_incorrect() {
    let mut v = InputValidator::new("hello");

    assert_eq!(Some(0), v.first_incorrect());

    v.check('h');
    v.check('e');
    v.check('l');
    v.check('l');
    v.check('o');

    assert_eq!(None, v.first_incorrect());
}

#[test]
fn first_incorrect() {
    let mut v = InputValidator::new("hello");

    assert_eq!(Some(0), v.first_incorrect());

    v.check('h');
    v.check('e');

    // NOTE: per default missing characters are considered incorrect
    assert_eq!(Some(2), v.first_incorrect());

    v.check('l');
    v.check('1');
    v.check('o');

    assert_eq!(Some(3), v.first_incorrect());
}

#[test]
fn get_expected() {
    let v = InputValidator::new("hello");
    assert_eq!("hello", &v.expected());
}

#[test]
fn list_validator_is_happy() {
    let mut v = FlashcardValidator::new(&write_the_line(&["hello", "world"]));
    v.validators[0].check('h');
    v.validators[0].check('e');
    v.validators[0].check('l');
    v.validators[0].check('l');
    v.validators[0].check('o');

    v.validators[1].check('w');
    v.validators[1].check('o');
    v.validators[1].check('r');
    v.validators[1].check('l');
    v.validators[1].check('d');

    v.happy();
}

#[test]
fn list_validator_counts_its_lines() {
    let card = write_the_line(&["hello", "world"]);
    let mut v = card.get_validator();
    assert_eq!(2, v.length());
    assert_eq!(0, v.index());
    assert_eq!(2, v.validators.len());
    assert_eq!("world", &v.validators[1].expected());
    assert!(!v.happy());
    assert!(v.passed());
    for c in "hello".chars() {
        assert!(v.validators[0].check(c));
    }
    assert!(!v.happy());
    for c in "world".chars() {
        assert!(v.validators[1].check(c));
    }
    assert!(v.happy());
}

#[test]
fn list_validator_of_blanks_expects_the_blanks_only() {
    let card = Flashcard {
        subject: Rc::new(String::from("test")),
        face: String::from("face"),
        back: FlashcardBack::FillTheBlank(vec![vec![
            LinePart(String::from("the"), false, 0),
            LinePart(String::from("quick"), true, 4),
            LinePart(String::from("fox"), true, 10),
        ]]),
        note: None,
    };
    let v = FlashcardValidator::new(&card);
    assert_eq!(1, v.length());
    assert_eq!("quickfox", &v.validators[0].expected());
}

#[test]
fn a_second_hint_costs_the_pass() {
    let mut v = InputValidator::new("hello");
    assert!(v.passed());
    assert_eq!(Some('h'), v.peek());
    assert!(v.passed());
    assert_eq!(HintMode::Active(0), *v.hint_mode());
    assert_eq!(Some('e'), v.peek());
    assert!(!v.passed());
    assert_eq!(HintMode::Active(1), *v.hint_mode());
    v.end_peek();
    assert_eq!(HintMode::Inactive, *v.hint_mode());
    assert!(!v.passed());
}

#[test]
fn hints_end_with_the_last_character() {
    let mut v = InputValidator::new("hi");
    assert_eq!(Some('h'), v.peek());
    assert_eq!(Some('i'), v.peek());
    assert_eq!(None, v.peek());
    assert_eq!(None, v.peek());
    assert_eq!(HintMode::Active(1), *v.hint_mode());
}

#[test]
fn hints_start_at_the_index() {
    let mut v = InputValidator::new("hello");
    v.check('h');
    v.check('e');
    assert_eq!(Some('l'), v.peek());
    assert_eq!(HintMode::Active(2), *v.hint_mode());
}

#[test]
fn a_full_validator_accepts_no_more() {
    let mut v = InputValidator::new("ab");
    assert_eq!(2, v.length());
    assert_eq!(0, v.index());
    assert!(v.accepts());
    assert!(v.check('a'));
    assert!(v.accepts());
    assert!(!v.check('x'));
    assert!(!v.accepts());
    assert_eq!(2, v.index());
    assert!(!v.check('b'));
    assert_eq!(2, v.index());
    assert_eq!(Some(1), v.first_incorrect());
}

#[test]
fn an_empty_validator_is_happy() {
    let mut v = InputValidator::new("");
    assert_eq!(0, v.length());
    assert!(v.happy());
    assert!(!v.accepts());
    assert!(!v.check('a'));
    assert_eq!(None, v.first_incorrect());
    v.undo(3);
    assert_eq!(0, v.index());
}

#[test]
fn undo_takes_back_the_last_steps_only() {
    let mut v = InputValidator::new("hello");
    v.check('h');
    v.check('e');
    v.check('l');
    v.undo(2);
    assert_eq!(1, v.index());
    assert_eq!(Some(1), v.first_incorrect());
    v.reset();
    assert_eq!(0, v.index());
    assert_eq!(Some(0), v.first_incorrect());
}

#[test]
fn a_clone_is_in_the_same_state() {
    let mut v = InputValidator::new("héllo");
    v.check('h');
    v.check('é');
    let mut w = v.clone();
    assert_eq!(5, w.length());
    assert_eq!(2, w.index());
    assert_eq!(Some(2), w.first_incorrect());
    assert!(w.check('l'));
    assert_eq!(2, v.index());
}

#[test]
fn lines_of_a_card_are_checked_one_by_one() {
    let card = Flashcard {
        subject: Rc::new(String::from("test")),
        face: String::from("face"),
        back: FlashcardBack::WriteTheLine(vec![String::from("ab"), String::from("c")]),
        note: None,
    };
    let mut v = FlashcardValidator::new(&card);
    assert_eq!(2, v.validators().len());
    assert!(v.check(0, 'a'));
    assert!(!v.check(0, 'x'));
    assert!(v.check(1, 'c'));
    assert_eq!(2, v.line(0).index());
    assert_eq!(Some(1), v.line(0).first_incorrect());
    assert!(v.line(1).happy());
    assert!(!v.happy());
    v.undo(0, 1);
    assert_eq!(1, v.line(0).index());
    assert!(v.check(0, 'b'));
    assert!(v.happy());
    assert!(v.passed());
}

#[test]
fn hints_on_a_line_of_a_card_cost_the_pass() {
    let card = Flashcard {
        subject: Rc::new(String::from("test")),
        face: String::from("face"),
        back: FlashcardBack::WriteTheLine(vec![String::from("ab"), String::from("c")]),
        note: None,
    };
    let mut v = FlashcardValidator::new(&card);
    assert_eq!(Some('a'), v.peek(0));
    assert_eq!(HintMode::Active(0), *v.line(0).hint_mode());
    assert!(v.passed());
    assert_eq!(Some('b'), v.peek(0));
    assert!(!v.passed());
    assert_eq!(None, v.peek(0));
    v.end_peek(0);
    assert_eq!(HintMode::Inactive, *v.line(0).hint_mode());
    assert_eq!(HintMode::Inactive, *v.line(1).hint_mode());
    assert!(!v.passed());
}

#[test]
fn a_line_of_a_card_can_be_taken_out_and_put_back() {
    let card = Flashcard {
        subject: Rc::new(String::from("test")),
        face: String::from("face"),
        back: FlashcardBack::WriteTheLine(vec![String::from("ab"), String::from("c")]),
        note: None,
    };
    let mut v = FlashcardValidator::new(&card);
    let mut line = v.line(1);
    assert!(line.check('c'));
    assert!(!v.line(1).happy());
    v.set_line(1, line);
    assert!(v.line(1).happy());
    assert_eq!(0, v.line(0).index());
}
