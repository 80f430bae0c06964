use flashcard::flashcards::{Flashcard, FlashcardBack, LinePart};
use std::rc::Rc;

fn written(subject: &str, back: &[&str]) -> Flashcard {
    Flashcard {
        subject: Rc::new(String::from(subject)),
        face: String::from("face"),
        back: FlashcardBack::WriteTheLine(back.iter().map(|line| String::from(*line)).collect()),
        note: None,
    }
}

fn blanks() -> Flashcard {
    Flashcard {
        subject: Rc::new(String::from("subject")),
        face: String::from("face"),
        back: FlashcardBack::FillTheBlank(vec![
            vec![
                LinePart(String::from("the"), false, 0),
                LinePart(String::from("quïck"), true, 4),
                LinePart(String::from("brown"), false, 11),
                LinePart(String::from("fox"), true, 17),
            ],
            vec![],
            vec![LinePart(String::from("jumps"), false, 0)],
        ]),
        note: Some(String::from("note")),
    }
}

#[test]
fn hash_flashcard() {
    let subject1 = Rc::new(String::from("subject1"));
    let subject2 = Rc::new(String::from("subject2"));

    let fc1 = Flashcard {
        subject: Rc::clone(&subject1),
        face: String::from("hello"),
        back: FlashcardBack::WriteTheLine(vec![String::from("world")]),
        note: Some(String::new()),
    };
    let fc2 = Flashcard {
        subject: Rc::clone(&subject1),
        face: String::from("hi"),
        back: FlashcardBack::WriteTheLine(vec![String::from("world")]),
        note: Some(String::from("a note")),
    };
    assert_eq!(fc1.get_hash(), fc2.get_hash());

    let fc3 = Flashcard {
        subject: Rc::clone(&subject2),
        face: String::from("hello"),
        back: FlashcardBack::WriteTheLine(vec![String::from("world")]),
        note: Some(String::new()),
    };
    assert_ne!(fc1.get_hash(), fc3.get_hash());
}

#[test]
fn hash_is_the_xxh64_digest_of_subject_and_back() {
    // ff | fb | f9
    assert_eq!(0x3b40_ef60_f72c_da0a, written("", &[]).get_hash());
    // ff "subject" | fb | ff "world" | f9
    assert_eq!(0xd95b_61b8_f65a_de4f, written("subject", &["world"]).get_hash());
    // ff "s" | fb | ff "ab" | ff "c" | f9
    assert_eq!(0xffde_41c6_d027_3524, written("s", &["ab", "c"]).get_hash());
    // ff "s" | fb | ff "a" | ff "bc" | f9
    assert_eq!(0xd05c_1aa1_3c37_b5d2, written("s", &["a", "bc"]).get_hash());
    let long = "abcdefghijklmnopqrstuvwxyz0123456789ABCDEFGHIJKLMNOPQRSTUVWXYZ";
    assert_eq!(0x3565_413c_09fa_fdff, written(long, &[long, long]).get_hash());
}

#[test]
fn hash_of_blanks_is_the_xxh64_digest_of_parts_and_lines() {
    // ff "subject" | fb
    // | fe | fc ff "the" ff "0" | fd ff "quïck" ff "4" | fc ff "brown" ff "11"
    //      | fd ff "fox" ff "17"
    // | fe
    // | fe | fc ff "jumps" ff "0"
    // | fa
    assert_eq!(0x6194_4537_63a6_6ea5, blanks().get_hash());
}

#[test]
fn hash_changes_with_the_back() {
    assert_ne!(written("subject", &["world"]).get_hash(), written("subject", &["word"]).get_hash());
    assert_ne!(written("subject", &["world"]).get_hash(), written("subject", &[]).get_hash());
    assert_ne!(written("subject", &[]).get_hash(), written("subject", &[""]).get_hash());
    assert_ne!(written("subject", &[""]).get_hash(), written("subject", &["", ""]).get_hash());
}

#[test]
fn hash_changes_with_the_place_where_a_line_ends() {
    assert_ne!(written("s", &["ab", "c"]).get_hash(), written("s", &["a", "bc"]).get_hash());
    assert_ne!(written("s", &["abc"]).get_hash(), written("s", &["ab", "c"]).get_hash());
    assert_ne!(written("sa", &["b"]).get_hash(), written("s", &["ab"]).get_hash());
    assert_ne!(written("sab", &[]).get_hash(), written("s", &["ab"]).get_hash());
}

#[test]
fn hash_changes_with_the_kind_the_parts_and_the_blanks() {
    let whole = written("subject", &["thequïckbrownfox", "", "jumps"]);
    assert_ne!(whole.get_hash(), blanks().get_hash());
    let empty = Flashcard { back: FlashcardBack::FillTheBlank(vec![]), ..written("subject", &[]) };
    assert_ne!(empty.get_hash(), written("subject", &[]).get_hash());

    let change = |f: &dyn Fn(&mut Vec<Vec<LinePart>>)| {
        let mut other = blanks();
        if let FlashcardBack::FillTheBlank(lines) = &mut other.back {
            f(lines);
        }
        other
    };
    // one blank is no blank any more
    assert_ne!(change(&|lines| lines[0][1].1 = false).get_hash(), blanks().get_hash());
    // one part stands at another place
    assert_ne!(change(&|lines| lines[0][1].2 = 40).get_hash(), blanks().get_hash());
    // one text differs
    assert_ne!(
        change(&|lines| lines[2][0].0 = String::from("jump")).get_hash(),
        blanks().get_hash()
    );
    // two parts are cut at another place
    assert_ne!(
        change(&|lines| {
            lines[0][0].0 = String::from("th");
            lines[0][1].0 = String::from("equïck");
        })
        .get_hash(),
        blanks().get_hash()
    );
    // a part moves to the next line
    assert_ne!(
        change(&|lines| {
            let part = lines[0].pop().unwrap();
            lines[1].push(part);
        })
        .get_hash(),
        blanks().get_hash()
    );
    // nothing changed
    assert_eq!(change(&|_| ()).get_hash(), blanks().get_hash());
}

#[test]
fn flashcards_are_equal_where_their_hashes_are() {
    let a = written("subject", &["world"]);
    let mut b = written("subject", &["world"]);
    b.face = String::from("another face");
    b.note = Some(String::from("a note"));
    assert!(a == b);
    assert!(a != written("subject", &["word"]));
    assert!(a == a.clone());
}

#[test]
fn lines_to_validate_are_the_lines_or_the_blanks() {
    assert_eq!(vec!["hello", "world"], written("s", &["hello", "world"]).get_lines_to_validate());
    assert_eq!(Vec::<String>::new(), written("s", &[]).get_lines_to_validate());
    assert_eq!(vec!["quïckfox", "", ""], blanks().get_lines_to_validate());
}

#[test]
fn lines_to_display_show_blanks_as_underscores() {
    assert_eq!(vec!["", ""], written("s", &["hello", "world"]).get_lines_to_display());
    assert_eq!(vec!["the _____ brown ___ ", "", "jumps "], blanks().get_lines_to_display());
}
