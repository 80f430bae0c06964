use flashcard::cardbox_parser::{parse, ParseError, ParserState};
use flashcard::flashcards::flashcard_factory::FlashcardFactory;
use flashcard::flashcards::{FlashcardBack, LinePart};

#[test]
fn parse_one_write_the_line_flashcard() {
    let s = "
        % This is a comment
        # WriteTheLine
            this is a write-the-line flashcard
            ! And this is a note.

        ";

    assert_eq!(1, parse(s, "test").unwrap().len());
}

#[test]
fn parse_two_write_the_line_flashcards() {
    let s = "
        # WriteTheLine 1
            this is a write-the-line flashcard

        # WriteTheLine 2
            this is another write-the-line flashcard
        ";

    assert_eq!(2, parse(s, "test").unwrap().len());
}

#[test]
fn parse_one_fill_the_blank_flashcard() {
    let s = "
        ## FillTheBlank
            this is a FILL_THE_BLANK flashcard
        ";

    assert_eq!(1, parse(s, "test").unwrap().len());
}

#[test]
fn parse_two_fill_the_blank_flashcards() {
    let s = "
        ## FillTheBlank 1
            this is a FILL_THE_BLANK flashcard

        ## FillTheBlank 2
            this is another FILL_THE_BLANK flashcard
        ";

    assert_eq!(2, parse(s, "test").unwrap().len());
}

#[test]
fn parse_mixed_flashcard_types() {
    let s = "
        # WriteTheLine
            this is a write-the-line flashcard
        
        ## FillTheBlank
            this is a FILL_THE_BLANK flashcard
        ";

    let flashcards = parse(s, "test").unwrap();
    println!("{:?}", flashcards);
    assert_eq!(2, flashcards.len());
}

#[test]
fn parsed_write_the_line_flashcard_holds_all_sides() {
    let s = "
        % This is a comment
        # WriteTheLine
            this is a write-the-line flashcard
            and a second line
            ! And this is a note. ! not this
        ";
    let flashcards = parse(s, "test").unwrap();
    assert_eq!(1, flashcards.len());
    let card = &flashcards[0];
    assert_eq!("test", card.subject.as_str());
    assert_eq!("WriteTheLine", card.face);
    assert_eq!(
        FlashcardBack::WriteTheLine(vec![
            String::from("this is a write-the-line flashcard"),
            String::from("and a second line"),
        ]),
        card.back
    );
    assert_eq!(Some(String::from("And this is a note.")), card.note);
}

#[test]
fn parsed_blanks_are_lowercase_and_know_their_place() {
    let s = "## FillTheBlank\n  this is  a FILL_THE_BLANK flashcard -- Ünïcode ÄÖ x1 X1 42\n";
    let flashcards = parse(s, "test").unwrap();
    assert_eq!(1, flashcards.len());
    assert_eq!("FillTheBlank", flashcards[0].face);
    assert_eq!(None, flashcards[0].note);
    assert_eq!(
        FlashcardBack::FillTheBlank(vec![vec![
            LinePart(String::from("this"), false, 0),
            LinePart(String::from("is"), false, 5),
            LinePart(String::from("a"), false, 8),
            LinePart(String::from("fill_the_blank"), true, 10),
            LinePart(String::from("flashcard"), false, 25),
            LinePart(String::from("--"), true, 35),
            LinePart(String::from("Ünïcode"), false, 38),
            LinePart(String::from("äö"), true, 48),
            LinePart(String::from("x1"), false, 53),
            LinePart(String::from("X1"), false, 56),
            LinePart(String::from("42"), false, 59),
        ]]),
        flashcards[0].back
    );
}

#[test]
fn parse_takes_the_escape_away_before_markup_only() {
    let s = "# Escapes\n\\# one\n\\% two\n\\! three\n\\x four\n\\\n";
    let flashcards = parse(s, "test").unwrap();
    assert_eq!(
        FlashcardBack::WriteTheLine(vec![
            String::from("# one"),
            String::from("% two"),
            String::from("! three"),
            String::from("\\x four"),
            String::from("\\"),
        ]),
        flashcards[0].back
    );
}

#[test]
fn parse_reads_carriage_returns_as_whitespace() {
    let s = "# One\r\nfirst\r\n\r\n# Two\r\nsecond";
    let flashcards = parse(s, "test").unwrap();
    assert_eq!(2, flashcards.len());
    assert_eq!("One", flashcards[0].face);
    assert_eq!(FlashcardBack::WriteTheLine(vec![String::from("first")]), flashcards[0].back);
    assert_eq!("Two", flashcards[1].face);
    assert_eq!(FlashcardBack::WriteTheLine(vec![String::from("second")]), flashcards[1].back);
}

#[test]
fn parse_keeps_a_front_side_without_a_back_at_the_end() {
    let flashcards = parse("# Lonely", "test").unwrap();
    assert_eq!(1, flashcards.len());
    assert_eq!(FlashcardBack::WriteTheLine(vec![]), flashcards[0].back);
}

#[test]
fn parse_reports_what_is_wrong() {
    assert_eq!(Err(ParseError::NoFlashcard), parse("", "test"));
    assert_eq!(Err(ParseError::NoFlashcard), parse("  \n% only a comment\n", "test"));
    assert_eq!(Err(ParseError::MissingHeader), parse("a back without a front side", "test"));
    assert_eq!(Err(ParseError::InvalidTransition), parse("# one\n# two\nback", "test"));
    assert_eq!(Err(ParseError::InvalidTransition), parse("! a note first", "test"));
    assert_eq!(Err(ParseError::InvalidTransition), parse("# one\n! note", "test"));
    assert_eq!(Err(ParseError::InvalidTransition), parse("# one\nback\n! note\nback", "test"));
    assert_eq!(Err(ParseError::InvalidTransition), parse("# one\nback\n! note\n! note", "test"));
    assert_eq!(Err(ParseError::MissingFace), parse("#", "test"));
    assert_eq!(Err(ParseError::MissingFace), parse("# one\nback\n  #  \n", "test"));
    assert_eq!(Err(ParseError::UnsupportedType), parse("### three", "test"));
    assert!(parse("## two", "test").is_ok());
}

#[test]
fn parser_state_allows_what_the_markup_allows() {
    let all = [ParserState::Init, ParserState::Face, ParserState::Back, ParserState::Note];
    let allowed = [
        [true, true, false, false],
        [true, false, true, false],
        [true, true, true, true],
        [true, true, false, false],
    ];
    let complete = [
        [false, false, false, false],
        [false, false, false, false],
        [true, true, false, false],
        [true, true, false, false],
    ];
    for (i, from) in all.iter().enumerate() {
        for (j, to) in all.iter().enumerate() {
            assert_eq!(allowed[i][j], from.can_move_to(to));
            assert_eq!(complete[i][j], from.can_build(to));
            let mut state = *from;
            let moved = state.move_to(*to);
            if allowed[i][j] {
                assert_eq!(Ok(()), moved);
                assert_eq!(*to, state);
            } else {
                assert_eq!(Err(ParseError::InvalidTransition), moved);
                assert_eq!(*from, state);
            }
        }
    }
}

#[test]
fn factory_builds_what_was_set_and_starts_anew() {
    let mut factory = FlashcardFactory::new("subject");
    assert!(!factory.can_build());
    factory.set_face("face");
    assert!(!factory.can_build());
    factory.set_note("note");
    factory.set_back(FlashcardBack::WriteTheLine(vec![String::from("back")]));
    assert!(factory.can_build());
    let card = factory.build();
    assert_eq!("subject", card.subject.as_str());
    assert_eq!("face", card.face);
    assert_eq!(FlashcardBack::WriteTheLine(vec![String::from("back")]), card.back);
    assert_eq!(Some(String::from("note")), card.note);
    assert!(!factory.can_build());
    factory.set_face("other");
    factory.set_back(FlashcardBack::FillTheBlank(vec![]));
    let card = factory.build();
    assert_eq!("subject", card.subject.as_str());
    assert_eq!("other", card.face);
    assert_eq!(None, card.note);
}
