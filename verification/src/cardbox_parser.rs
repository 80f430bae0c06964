//! Functionality for parsing flashcard text files.
//!
//! A cardbox is read line by line. Whitespace around a line does not count and empty
//! lines are skipped. A line that starts with `#` opens a flashcard and holds its front
//! side, one that starts with `!` holds a note, one that starts with `%` is a comment,
//! and any other line belongs to the back of the flashcard that was opened last.

use crate::constants::{
    MARKUP_COMMENT, MARKUP_ESCAPE, MARKUP_FACE, MARKUP_NOTE, TYPE_FILL_THE_BLANK,
    TYPE_WRITE_THE_LINE,
};
use crate::flashcards::flashcard_factory::{FlashcardFactory, FlashcardFactoryView};
use crate::flashcards::{
    line_views, part_views, texts, Flashcard, FlashcardBack, FlashcardBackView, FlashcardView,
    LinePart, LinePartView,
};
use crate::text::{
    char_is_alphanumeric, char_is_uppercase, chars_of, lemma_weight_take, lemma_words_weight,
    lines, lines_spec, split, split_spec, str_to_lowercase, string_of, subrange, trim, trim_spec,
    views, weight, words, words_spec, Separator,
};
use vstd::prelude::*;

verus! {

/// Why a cardbox cannot be parsed.
#[derive(Clone, Copy, Debug, PartialEq, Eq, Structural)]
pub enum ParseError {
    /// A line stands where the kind of line before it does not allow it: a front side
    /// right after a front side, a note that does not follow a back, or a line of a back
    /// after a note.
    InvalidTransition,
    /// A line holds nothing but one `#`.
    MissingFace,
    /// A front side starts with more than two `#`.
    UnsupportedType,
    /// A line of a back stands before any front side.
    MissingHeader,
    /// The cardbox holds no flashcard.
    NoFlashcard,
}

/// A parser state machine.
#[derive(Clone, Copy, Debug, Eq, PartialEq, Structural)]
pub enum ParserState {
    /// Nothing was read yet.
    Init,
    /// A front side was read last.
    Face,
    /// A line of a back was read last.
    Back,
    /// A note was read last.
    Note,
}

impl ParserState {
    /// Whether a line of the kind `next` may follow a line of this kind.
    pub open spec fn allows(self, next: ParserState) -> bool {
        match self {
            ParserState::Init => next is Init || next is Face,
            ParserState::Face => next is Init || next is Back,
            ParserState::Back => true,
            ParserState::Note => next is Init || next is Face,
        }
    }

    /// Whether a flashcard is complete when a line of the kind `next` follows a line of
    /// this kind.
    pub open spec fn completes(self, next: ParserState) -> bool {
        (self is Back || self is Note) && (next is Init || next is Face)
    }

    /// Moves to `state` where that is allowed, and reports where it is not.
    pub fn move_to(&mut self, state: ParserState) -> (moved: Result<(), ParseError>)
        ensures
            match moved {
                Ok(_) => old(self).allows(state) && *final(self) == state,
                Err(e) => e == ParseError::InvalidTransition && !old(self).allows(state)
                    && *final(self) == *old(self),
            },
    {
        if !self.can_move_to(&state) {
            return Err(ParseError::InvalidTransition);
        }
        *self = state;
        Ok(())
    }

    /// Returns `true` if a line of the kind `next_state` may follow a line of this kind.
    pub fn can_move_to(&self, next_state: &ParserState) -> (allowed: bool)
        ensures
            allowed == self.allows(*next_state),
    {
        match *self {
            ParserState::Init => match *next_state {
                ParserState::Init => true,
                ParserState::Face => true,
                ParserState::Back => false,
                ParserState::Note => false,
            },
            ParserState::Face => match *next_state {
                ParserState::Init => true,
                ParserState::Face => false,
                ParserState::Back => true,
                ParserState::Note => false,
            },
            ParserState::Back => match *next_state {
                ParserState::Init => true,
                ParserState::Face => true,
                ParserState::Back => true,
                ParserState::Note => true,
            },
            ParserState::Note => match *next_state {
                ParserState::Init => true,
                ParserState::Face => true,
                ParserState::Back => false,
                ParserState::Note => false,
            },
        }
    }

    /// Returns `true` if a flashcard is complete when a line of the kind `next_state`
    /// follows a line of this kind.
    pub fn can_build(&self, next_state: &ParserState) -> (complete: bool)
        ensures
            complete == self.completes(*next_state),
    {
        match *self {
            ParserState::Back => match *next_state {
                ParserState::Init => true,
                ParserState::Face => true,
                ParserState::Back => false,
                ParserState::Note => false,
            },
            ParserState::Note => match *next_state {
                ParserState::Init => true,
                ParserState::Face => true,
                ParserState::Back => false,
                ParserState::Note => false,
            },
            _ => false,
        }
    }
}

/// What the flashcards of `flashcards` hold, in the same order.
pub open spec fn card_views(flashcards: Seq<Flashcard>) -> Seq<FlashcardView> {
    Seq::new(flashcards.len(), |i: int| flashcards[i]@)
}

/// What has been read of a cardbox so far.
pub struct Draft {
    /// The kind of the line that was read last.
    pub state: ParserState,
    /// The flashcards that are complete.
    pub flashcards: Seq<FlashcardView>,
    /// The front side of the flashcard that is being read.
    pub face: Option<Seq<char>>,
    /// The back of the flashcard that is being read, as far as it was read.
    pub back: Option<FlashcardBackView>,
    /// The note of the flashcard that is being read.
    pub note: Option<Seq<char>>,
}

impl Draft {
    /// Before the first line.
    pub open spec fn start() -> Draft {
        Draft {
            state: ParserState::Init,
            flashcards: Seq::empty(),
            face: None,
            back: None,
            note: None,
        }
    }

    /// Whenever a flashcard is being read, its front side and its back are there.
    pub open spec fn wf(self) -> bool {
        !(self.state is Init) ==> self.face is Some && self.back is Some
    }

    /// The flashcard that is being read.
    pub open spec fn flashcard(self, subject: Seq<char>) -> FlashcardView {
        FlashcardView { subject, face: self.face->0, back: self.back->0, note: self.note }
    }

    /// The draft after the flashcard that was being read joined the complete ones.
    pub open spec fn completed(self, subject: Seq<char>) -> Draft {
        Draft {
            flashcards: self.flashcards.push(self.flashcard(subject)),
            face: None,
            back: None,
            note: None,
            ..self
        }
    }
}

/// The number of times that `c` stands at the start of `line` without a break.
pub open spec fn leading(line: Seq<char>, c: char) -> nat
    decreases line.len(),
{
    if line.len() > 0 && line[0] == c {
        1 + leading(line.drop_first(), c)
    } else {
        0
    }
}

/// Whether `word` stands for a blank: each of its characters is uppercase or neither a
/// letter nor a number.
pub open spec fn is_blank(word: Seq<char>) -> bool {
    forall|i: int|
        0 <= i < word.len() ==> char_is_uppercase(#[trigger] word[i]) || !char_is_alphanumeric(
            word[i],
        )
}

/// The part that `word` stands for when it starts at the byte `index`: a blank counts in
/// lowercase.
pub open spec fn part_spec(word: Seq<char>, index: nat) -> LinePartView {
    LinePartView {
        text: if is_blank(word) {
            str_to_lowercase(word)
        } else {
            word
        },
        blank: is_blank(word),
        index,
    }
}

/// The parts that `words` stand for, each starting where the words before it end when
/// one byte follows each of them.
pub open spec fn parts_spec(words: Seq<Seq<char>>) -> Seq<LinePartView>
    decreases words.len(),
{
    if words.len() == 0 {
        Seq::empty()
    } else {
        parts_spec(words.drop_last()).push(part_spec(words.last(), weight(words.drop_last())))
    }
}

/// Whether `c` is one of the characters that mark a line.
pub open spec fn is_markup(c: char) -> bool {
    c == MARKUP_FACE || c == MARKUP_COMMENT || c == MARKUP_NOTE
}

/// `line` without the escape character at its start, if one stands there before a
/// character that marks a line.
pub open spec fn unescape_spec(line: Seq<char>) -> Seq<char> {
    if line.len() >= 2 && line[0] == MARKUP_ESCAPE && is_markup(line[1]) {
        line.drop_first()
    } else {
        line
    }
}

/// `back` with the line `data` added to it.
pub open spec fn with_line(back: FlashcardBackView, data: Seq<char>) -> FlashcardBackView {
    match back {
        FlashcardBackView::WriteTheLine(lines) => FlashcardBackView::WriteTheLine(
            lines.push(data),
        ),
        FlashcardBackView::FillTheBlank(lines) => FlashcardBackView::FillTheBlank(
            lines.push(parts_spec(words_spec(data))),
        ),
    }
}

/// The draft after a line that starts with `#`. A flashcard that was being read is
/// complete. The number of `#` tells the type of the new one, and the rest of the line
/// is its front side.
pub open spec fn read_face(draft: Draft, line: Seq<char>, subject: Seq<char>) -> Result<
    Draft,
    ParseError,
> {
    let opened = if draft.state.completes(ParserState::Face) {
        draft.completed(subject)
    } else {
        draft
    };
    let face = Some(trim_spec(line.skip(leading(line, MARKUP_FACE) as int)));
    if !draft.state.allows(ParserState::Face) {
        Err(ParseError::InvalidTransition)
    } else if line.len() < 2 {
        Err(ParseError::MissingFace)
    } else if leading(line, MARKUP_FACE) == TYPE_WRITE_THE_LINE {
        Ok(
            Draft {
                state: ParserState::Face,
                face,
                back: Some(FlashcardBackView::WriteTheLine(Seq::empty())),
                ..opened
            },
        )
    } else if leading(line, MARKUP_FACE) == TYPE_FILL_THE_BLANK {
        Ok(
            Draft {
                state: ParserState::Face,
                face,
                back: Some(FlashcardBackView::FillTheBlank(Seq::empty())),
                ..opened
            },
        )
    } else {
        Err(ParseError::UnsupportedType)
    }
}

/// The draft after a line that starts with `!`: what stands between that `!` and the
/// next one, or the end of the line, is the note.
pub open spec fn read_note(draft: Draft, line: Seq<char>) -> Result<Draft, ParseError> {
    if !draft.state.allows(ParserState::Note) {
        Err(ParseError::InvalidTransition)
    } else {
        Ok(
            Draft {
                state: ParserState::Note,
                note: Some(trim_spec(split_spec(line, Separator::Char(MARKUP_NOTE))[1])),
                ..draft
            },
        )
    }
}

/// The draft after a line of a back.
pub open spec fn read_back(draft: Draft, line: Seq<char>) -> Result<Draft, ParseError> {
    if draft.back is None {
        Err(ParseError::MissingHeader)
    } else if !draft.state.allows(ParserState::Back) {
        Err(ParseError::InvalidTransition)
    } else {
        Ok(
            Draft {
                state: ParserState::Back,
                back: Some(with_line(draft.back->0, unescape_spec(line))),
                ..draft
            },
        )
    }
}

/// The draft after one more line of the cardbox.
pub open spec fn read_line(draft: Draft, line: Seq<char>, subject: Seq<char>) -> Result<
    Draft,
    ParseError,
> {
    let line = trim_spec(line);
    if line.len() == 0 {
        Ok(draft)
    } else if line[0] == MARKUP_FACE {
        read_face(draft, line, subject)
    } else if line[0] == MARKUP_NOTE {
        read_note(draft, line)
    } else if line[0] == MARKUP_COMMENT {
        Ok(draft)
    } else {
        read_back(draft, line)
    }
}

/// The draft after all of `lines`, or the error of the first line that cannot be read.
pub open spec fn read_lines(lines: Seq<Seq<char>>, subject: Seq<char>) -> Result<
    Draft,
    ParseError,
>
    decreases lines.len(),
{
    if lines.len() == 0 {
        Ok(Draft::start())
    } else {
        match read_lines(lines.drop_last(), subject) {
            Ok(draft) => read_line(draft, lines.last(), subject),
            Err(e) => Err(e),
        }
    }
}

/// The flashcards of a cardbox that was read to its end: the complete ones and the one
/// that was being read.
pub open spec fn finish(draft: Draft, subject: Seq<char>) -> Result<
    Seq<FlashcardView>,
    ParseError,
> {
    if draft.back is None {
        Err(ParseError::NoFlashcard)
    } else if draft.face is Some {
        Ok(draft.completed(subject).flashcards)
    } else {
        Ok(draft.flashcards)
    }
}

/// The flashcards that the cardbox `text` holds, all with the subject `subject`, or the
/// reason why it cannot be parsed.
pub open spec fn parse_spec(text: Seq<char>, subject: Seq<char>) -> Result<
    Seq<FlashcardView>,
    ParseError,
> {
    match read_lines(lines_spec(text), subject) {
        Ok(draft) => finish(draft, subject),
        Err(e) => Err(e),
    }
}

/// A line that cannot be read after the first lines makes the whole cardbox fail with
/// its error.
pub proof fn lemma_read_lines_fails(lines: Seq<Seq<char>>, subject: Seq<char>, n: int)
    requires
        0 <= n <= lines.len(),
        read_lines(lines.take(n), subject) is Err,
    ensures
        read_lines(lines, subject) == read_lines(lines.take(n), subject),
    decreases lines.len() - n,
{
    if n == lines.len() {
        assert(lines.take(n) == lines);
    } else {
        assert(lines.take(n + 1).drop_last() == lines.take(n));
        lemma_read_lines_fails(lines, subject, n + 1);
    }
}

/// Reading keeps a draft well-formed.
pub proof fn lemma_read_line_wf(draft: Draft, line: Seq<char>, subject: Seq<char>)
    requires
        draft.wf(),
    ensures
        read_line(draft, line, subject) matches Ok(next) ==> next.wf(),
{
}

/// Returns the number of times that `c` stands at the start of `line` without a break.
pub fn count_leading(line: &Vec<char>, c: char) -> (count: usize)
    ensures
        count == leading(line@, c),
        count <= line.len(),
{
    let mut count: usize = 0;
    assert(line@.skip(0) == line@);
    while count < line.len() && line[count] == c
        invariant
            count <= line.len(),
            leading(line@, c) == count + leading(line@.skip(count as int), c),
        decreases line.len() - count,
    {
        proof {
            assert(line@.skip(count as int).drop_first() == line@.skip(count + 1));
        }
        count += 1;
    }
    count
}

/// Returns `true` if `word` stands for a blank.
pub fn is_blank_word(word: &Vec<char>) -> (blank: bool)
    ensures
        blank == is_blank(word@),
{
    let mut i: usize = 0;
    while i < word.len()
        invariant
            i <= word.len(),
            forall|k: int|
                0 <= k < i ==> char_is_uppercase(#[trigger] word@[k]) || !char_is_alphanumeric(
                    word@[k],
                ),
        decreases word.len() - i,
    {
        let c = word[i];
        if !(c.is_uppercase() || !c.is_alphanumeric()) {
            assert(!(char_is_uppercase(word@[i as int]) || !char_is_alphanumeric(word@[i as int])));
            return false;
        }
        i += 1;
    }
    true
}

/// Returns the parts of the line `data` of a back with blanks. Whitespace parts the
/// words of the line. A word whose characters are all uppercase, or neither letters nor
/// numbers, is a blank and is kept in lowercase.
pub fn parse_parts(data: &Vec<char>) -> (parts: Vec<LinePart>)
    ensures
        part_views(parts@) == parts_spec(words_spec(data@)),
{
    let whole = string_of(data);
    let total = whole.as_str().as_bytes().len();
    let found = words(data);
    let ghost all = words_spec(data@);
    proof {
        lemma_words_weight(data@);
    }
    let mut parts: Vec<LinePart> = Vec::new();
    let mut index: usize = 0;
    let mut k: usize = 0;
    while k < found.len()
        invariant
            k <= found.len(),
            views(found@) == all,
            weight(all) <= total + 1,
            k < found.len() ==> index == weight(all.take(k as int)),
            part_views(parts@) == parts_spec(all.take(k as int)),
        decreases found.len() - k,
    {
        let word = &found[k];
        assert(word@ == all[k as int]);
        let blank = is_blank_word(word);
        let text = string_of(word);
        let len = text.as_str().as_bytes().len();
        let p = if blank {
            text.as_str().to_lowercase()
        } else {
            text
        };
        proof {
            lemma_weight_take(all, k as int);
            assert(all.take(k + 1).drop_last() == all.take(k as int));
            if k + 1 < found.len() {
                lemma_weight_take(all, k + 1);
            }
        }
        let ghost before = part_views(parts@);
        parts.push(LinePart(p, blank, index));
        assert(part_views(parts@) == before.push(part_spec(word@, index as nat)));
        if k + 1 < found.len() {
            index = index + len + 1;
        }
        k += 1;
    }
    assert(all.take(k as int) == all);
    parts
}

/// Returns `line` without the escape character at its start, if one stands there before
/// a character that marks a line.
pub fn unescape(line: &Vec<char>) -> (data: Vec<char>)
    ensures
        data@ == unescape_spec(line@),
{
    let n = line.len();
    let escaped = n >= 2 && line[0] == MARKUP_ESCAPE && (line[1] == MARKUP_FACE || line[1]
        == MARKUP_COMMENT || line[1] == MARKUP_NOTE);
    let data = if escaped {
        subrange(line, 1, n)
    } else {
        subrange(line, 0, n)
    };
    assert(data@ == unescape_spec(line@));
    data
}

/// Returns `back` with the line `data` added to it.
pub fn push_line(back: FlashcardBack, data: &Vec<char>) -> (extended: FlashcardBack)
    ensures
        extended@ == with_line(back@, data@),
{
    match back {
        FlashcardBack::WriteTheLine(lines) => {
            let mut lines = lines;
            let ghost before = texts(lines@);
            lines.push(string_of(data));
            assert(texts(lines@) == before.push(data@));
            FlashcardBack::WriteTheLine(lines)
        },
        FlashcardBack::FillTheBlank(lines) => {
            let mut lines = lines;
            let ghost before = line_views(lines@);
            // UPPERCASE indicates a blank
            let parts = parse_parts(data);
            lines.push(parts);
            assert(line_views(lines@) == before.push(parts_spec(words_spec(data@))));
            FlashcardBack::FillTheBlank(lines)
        },
    }
}

/// What `back` holds, if there is one.
pub open spec fn back_view(back: Option<FlashcardBack>) -> Option<FlashcardBackView> {
    match back {
        Some(back) => Some(back@),
        None => None,
    }
}

/// Parses a cardbox from its text and a subject name.
pub fn parse(text: &str, name: &str) -> (parsed: Result<Vec<Flashcard>, ParseError>)
    ensures
        match parsed {
            Ok(flashcards) => parse_spec(text@, name@) == Ok::<Seq<FlashcardView>, ParseError>(
                card_views(flashcards@),
            ),
            Err(e) => parse_spec(text@, name@) == Err::<Seq<FlashcardView>, ParseError>(e),
        },
{
    let chars = chars_of(text);
    let all_lines = lines(&chars);
    let ghost all = lines_spec(text@);

    let mut flashcards: Vec<Flashcard> = Vec::new();
    let mut state = ParserState::Init;
    let mut factory = FlashcardFactory::new(name);
    let mut card_back: Option<FlashcardBack> = None;
    let ghost mut draft = Draft::start();

    let mut i: usize = 0;
    assert(all.take(0) == Seq::<Seq<char>>::empty());
    while i < all_lines.len()
        invariant
            i <= all_lines.len(),
            views(all_lines@) == all,
            all == lines_spec(text@),
            read_lines(all.take(i as int), name@) == Ok::<Draft, ParseError>(draft),
            draft.wf(),
            draft.state == state,
            draft.flashcards == card_views(flashcards@),
            draft.back == back_view(card_back),
            factory@ == (FlashcardFactoryView {
                subject: name@,
                face: draft.face,
                back: None,
                note: draft.note,
            }),
        decreases all_lines.len() - i,
    {
        let line = trim(&all_lines[i]);
        let ghost before = draft;
        proof {
            assert(all.take(i + 1).drop_last() == all.take(i as int));
            assert(all.take(i + 1).last() == all_lines@[i as int]@);
            assert(read_lines(all.take(i + 1), name@) == read_line(before, all[i as int], name@));
            if read_line(before, all[i as int], name@) is Err {
                lemma_read_lines_fails(all, name@, i + 1);
            }
            lemma_read_line_wf(before, all[i as int], name@);
        }
        if line.len() == 0 {
            i += 1;
            continue ;
        }
        let first_char = line[0];

        if first_char == MARKUP_FACE {
            if state.can_build(&ParserState::Face) {
                let back = card_back.take().unwrap();
                factory.set_back(back);
                let ghost built = card_views(flashcards@);
                let flashcard = factory.build();
                flashcards.push(flashcard);
                assert(card_views(flashcards@) == built.push(before.flashcard(name@)));
            }
            match state.move_to(ParserState::Face) {
                Ok(_) => {},
                Err(e) => {
                    return Err(e);
                },
            }
            if line.len() < 2 {
                return Err(ParseError::MissingFace);
            }
            // Determine the type of flashcard according to the number of '#'
            let count = count_leading(&line, MARKUP_FACE);
            let face_text = trim(&subrange(&line, count, line.len()));
            assert(face_text@ == trim_spec(line@.skip(count as int)));
            factory.set_face(string_of(&face_text).as_str());

            if count == TYPE_WRITE_THE_LINE {
                card_back = Some(FlashcardBack::WriteTheLine(Vec::new()));
                assert(texts(Seq::<String>::empty()) == Seq::<Seq<char>>::empty());
            } else if count == TYPE_FILL_THE_BLANK {
                card_back = Some(FlashcardBack::FillTheBlank(Vec::new()));
                assert(line_views(Seq::<Vec<LinePart>>::empty()) == Seq::<
                    Seq<LinePartView>,
                >::empty());
            } else {
                return Err(ParseError::UnsupportedType);
            }
            proof {
                draft = read_line(before, all[i as int], name@)->Ok_0;
            }
        } else if first_char == MARKUP_NOTE {
            match state.move_to(ParserState::Note) {
                Ok(_) => {},
                Err(e) => {
                    return Err(e);
                },
            }
            let pieces = split(&line, Separator::Char(MARKUP_NOTE));
            proof {
                lemma_split_first_is_separator(line@, Separator::Char(MARKUP_NOTE));
            }
            let note_text = trim(&pieces[1]);
            factory.set_note(string_of(&note_text).as_str());
            proof {
                draft = read_line(before, all[i as int], name@)->Ok_0;
            }
        } else if first_char == MARKUP_COMMENT {
            // Ignore this line
        } else {
            let data = unescape(&line);
            // Depending on the card type parse the back of the flashcard
            match card_back.take() {
                Some(back) => {
                    card_back = Some(push_line(back, &data));
                },
                None => {
                    return Err(ParseError::MissingHeader);
                },
            }
            match state.move_to(ParserState::Back) {
                Ok(_) => {},
                Err(e) => {
                    return Err(e);
                },
            }
            proof {
                draft = read_line(before, all[i as int], name@)->Ok_0;
            }
        }
        i += 1;
    }
    assert(all.take(i as int) == all);

    // Is there one last flashcard in the factory that can be built?
    match card_back.take() {
        Some(back) => {
            factory.set_back(back);
            if factory.can_build() {
                let ghost built = card_views(flashcards@);
                let flashcard = factory.build();
                flashcards.push(flashcard);
                assert(card_views(flashcards@) == built.push(draft.flashcard(name@)));
            }
            Ok(flashcards)
        },
        None => Err(ParseError::NoFlashcard),
    }
}

/// A text that starts with a separator splits into an empty piece and at least one
/// more.
pub proof fn lemma_split_first_is_separator(s: Seq<char>, sep: Separator)
    requires
        s.len() > 0,
        sep.separates(s[0]),
    ensures
        split_spec(s, sep).len() >= 2,
        split_spec(s, sep)[0].len() == 0,
    decreases s.len(),
{
    if s.len() == 1 {
        assert(s.drop_last() == Seq::<char>::empty());
    } else {
        lemma_split_first_is_separator(s.drop_last(), sep);
    }
}

} // verus!
