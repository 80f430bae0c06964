//! A module for different types of flashcards.

use super::fingerprint::{
    input_bytes, lemma_input_is_told, lines_bytes, part_bytes, parts_bytes, text_bytes,
    texts_bytes, write_mark, write_text, MARK_BACK, MARK_BLANK, MARK_FILL_THE_BLANK, MARK_LINE,
    MARK_PLAIN, MARK_WRITE_THE_LINE,
};
use super::{
    blanks_of, line_views, part_views, shown_line, shown_part, text_of, texts, FlashcardBack,
    FlashcardBackView, Line,
};
use crate::common::hash::{hasher_default, hasher_finish, hasher_input, hasher_seed, xxh64};
use crate::text::{decimal_spec, push_decimal, string_of};
use crate::constants::BLANK_INDICATOR;
use crate::validator::{FlashcardValidator, FlashcardValidatorView, InputValidatorView};
use std::rc::Rc;
use vstd::prelude::*;
use vstd::std_specs::cmp::PartialEqSpecImpl;

verus! {

/// Represents a single flashcard.
#[derive(Clone, Debug)]
pub struct Flashcard {
    /// The subject this flashcard belongs to.
    pub subject: Rc<String>,
    /// The front of a flashcard.
    pub face: Line,
    /// The back of a flashcard, which can have different types.
    pub back: FlashcardBack,
    /// An optional note on the flashcard to provide additional context.
    pub note: Option<Line>,
}

/// What a `Flashcard` holds.
pub struct FlashcardView {
    /// The subject this flashcard belongs to.
    pub subject: Seq<char>,
    /// The front of the flashcard.
    pub face: Seq<char>,
    /// The back of the flashcard.
    pub back: FlashcardBackView,
    /// The note on the flashcard, if it has one.
    pub note: Option<Seq<char>>,
}

impl View for Flashcard {
    type V = FlashcardView;

    open spec fn view(&self) -> FlashcardView {
        FlashcardView {
            subject: self.subject@,
            face: self.face@,
            back: self.back@,
            note: text_of(self.note),
        }
    }
}

impl FlashcardView {
    /// The bytes that the fingerprint is computed from: those of the subject, then those
    /// of the back, each text, part and line with its mark. Neither the face nor the
    /// note is among them.
    pub open spec fn fingerprint_input(self) -> Seq<u8> {
        input_bytes(self.subject, self.back)
    }

    /// The fingerprint of the flashcard: the XXH64 digest, under seed 0, of its subject
    /// and its back.
    pub open spec fn fingerprint(self) -> u64 {
        xxh64(0, self.fingerprint_input())
    }
}

impl Flashcard {
    /// The fingerprint of this flashcard.
    pub open spec fn fingerprint(&self) -> u64 {
        self@.fingerprint()
    }

    /// Returns the hash of this flashcard.
    ///
    /// The hash is computed from the subject and the back alone. This allows us to store
    /// progress across changing/fixing flashcard fronts and adding notes.
    pub fn get_hash(&self) -> (hash: u64)
        ensures
            hash == self@.fingerprint(),
    {
        let mut hasher = hasher_default();
        let ghost none = Seq::<u8>::empty();
        write_text(&mut hasher, self.subject.as_str());
        write_mark(&mut hasher, MARK_BACK);
        let ghost start = text_bytes(self.subject@).push(MARK_BACK);
        assert(hasher_input(hasher) =~= start + none);
        match &self.back {
            FlashcardBack::FillTheBlank(lines) => {
                let ghost all = line_views(lines@);
                let mut i: usize = 0;
                while i < lines.len()
                    invariant
                        i <= lines.len(),
                        all == line_views(lines@),
                        hasher_seed(hasher) == 0,
                        hasher_input(hasher) == start + lines_bytes(all.take(i as int)),
                    decreases lines.len() - i,
                {
                    let line = &lines[i];
                    let ghost parts = part_views(line@);
                    let ghost before = (start + lines_bytes(all.take(i as int))).push(MARK_LINE);
                    assert(parts == all[i as int]);
                    write_mark(&mut hasher, MARK_LINE);
                    assert(hasher_input(hasher) =~= before + parts_bytes(parts.take(0)));
                    let mut j: usize = 0;
                    while j < line.len()
                        invariant
                            j <= line.len(),
                            parts == part_views(line@),
                            hasher_seed(hasher) == 0,
                            hasher_input(hasher) == before + parts_bytes(parts.take(j as int)),
                        decreases line.len() - j,
                    {
                        let part = &line[j];
                        let ghost written = hasher_input(hasher);
                        let mut digits: Vec<char> = Vec::new();
                        push_decimal(&mut digits, part.2 as u64);
                        let place = string_of(&digits);
                        write_mark(
                            &mut hasher,
                            if part.1 {
                                MARK_BLANK
                            } else {
                                MARK_PLAIN
                            },
                        );
                        write_text(&mut hasher, part.0.as_str());
                        write_text(&mut hasher, place.as_str());
                        proof {
                            assert(parts.take(j + 1).drop_last() == parts.take(j as int));
                            assert(parts.take(j + 1).last() == part@);
                            assert(place@ =~= decimal_spec(part@.index));
                            assert(hasher_input(hasher) =~= written + part_bytes(part@));
                            assert(hasher_input(hasher) =~= before + parts_bytes(
                                parts.take(j + 1),
                            ));
                        }
                        j += 1;
                    }
                    proof {
                        assert(parts.take(j as int) == parts);
                        assert(all.take(i + 1).drop_last() == all.take(i as int));
                        assert(all.take(i + 1).last() == parts);
                        assert(hasher_input(hasher) =~= start + lines_bytes(all.take(i + 1)));
                    }
                    i += 1;
                }
                assert(all.take(i as int) == all);
                write_mark(&mut hasher, MARK_FILL_THE_BLANK);
                assert(hasher_input(hasher) =~= self@.fingerprint_input());
            },
            FlashcardBack::WriteTheLine(lines) => {
                let ghost all = texts(lines@);
                let mut i: usize = 0;
                while i < lines.len()
                    invariant
                        i <= lines.len(),
                        all == texts(lines@),
                        hasher_seed(hasher) == 0,
                        hasher_input(hasher) == start + texts_bytes(all.take(i as int)),
                    decreases lines.len() - i,
                {
                    write_text(&mut hasher, lines[i].as_str());
                    proof {
                        assert(all.take(i + 1).drop_last() == all.take(i as int));
                        assert(all.take(i + 1).last() == lines[i as int]@);
                        assert(hasher_input(hasher) =~= start + texts_bytes(all.take(i + 1)));
                    }
                    i += 1;
                }
                assert(all.take(i as int) == all);
                write_mark(&mut hasher, MARK_WRITE_THE_LINE);
                assert(hasher_input(hasher) =~= self@.fingerprint_input());
            },
        }
        hasher_finish(&hasher)
    }

    /// For all flashcard types returns the characters per line to validate.
    ///
    /// All flashcards, no matter their type, require the user to enter something which
    /// needs to be checked against the expected.
    pub fn get_lines_to_validate(&self) -> (lines: Vec<Line>)
        ensures
            texts(lines@) == self@.back.lines_to_validate(),
    {
        let mut result: Vec<Line> = Vec::new();
        match &self.back {
            FlashcardBack::WriteTheLine(lines) => {
                // all lines need to be validated
                let mut i: usize = 0;
                while i < lines.len()
                    invariant
                        i <= lines.len(),
                        texts(result@) == texts(lines@).take(i as int),
                    decreases lines.len() - i,
                {
                    let ghost before = texts(result@);
                    result.push(lines[i].clone());
                    assert(texts(result@) == before.push(lines[i as int]@));
                    i += 1;
                }
                assert(texts(lines@).take(i as int) == texts(lines@));
            },
            FlashcardBack::FillTheBlank(lines) => {
                // only blanks need to be validated
                let ghost all = line_views(lines@);
                let mut i: usize = 0;
                while i < lines.len()
                    invariant
                        i <= lines.len(),
                        all == line_views(lines@),
                        texts(result@) == Seq::new(i as nat, |k: int| blanks_of(all[k])),
                    decreases lines.len() - i,
                {
                    let line = &lines[i];
                    let ghost parts = part_views(line@);
                    assert(parts == all[i as int]);
                    let mut s = String::new();
                    let mut j: usize = 0;
                    while j < line.len()
                        invariant
                            j <= line.len(),
                            parts == part_views(line@),
                            s@ == blanks_of(parts.take(j as int)),
                        decreases line.len() - j,
                    {
                        proof {
                            assert(parts.take(j + 1).drop_last() == parts.take(j as int));
                            assert(parts.take(j + 1).last() == line[j as int]@);
                        }
                        // `true` means, that this part has to be entered by the user
                        if line[j].1 {
                            s.append(line[j].0.as_str());
                        }
                        j += 1;
                    }
                    assert(parts.take(j as int) == parts);
                    let ghost before = texts(result@);
                    result.push(s);
                    assert(texts(result@) == before.push(blanks_of(parts)));
                    i += 1;
                }
            },
        }
        result
    }

    /// For all flashcard types returns what is shown of each line before the user enters
    /// anything: nothing of a line that is written in whole, and of a line with blanks its
    /// parts, each followed by a space, with one `_` for each character of a blank.
    pub fn get_lines_to_display(&self) -> (lines: Vec<Line>)
        ensures
            texts(lines@) == self@.back.lines_to_display(BLANK_INDICATOR),
    {
        let mut result: Vec<Line> = Vec::new();
        match &self.back {
            FlashcardBack::WriteTheLine(lines) => {
                // no context provided
                let mut i: usize = 0;
                while i < lines.len()
                    invariant
                        i <= lines.len(),
                        texts(result@) == Seq::new(i as nat, |k: int| Seq::<char>::empty()),
                    decreases lines.len() - i,
                {
                    let ghost before = texts(result@);
                    result.push(String::new());
                    assert(texts(result@) == before.push(Seq::<char>::empty()));
                    i += 1;
                }
                assert(texts(lines@).len() == lines.len());
            },
            FlashcardBack::FillTheBlank(lines) => {
                // only the blanks will be validated
                let ghost all = line_views(lines@);
                let mut i: usize = 0;
                while i < lines.len()
                    invariant
                        i <= lines.len(),
                        all == line_views(lines@),
                        texts(result@) == Seq::new(
                            i as nat,
                            |k: int| shown_line(all[k], BLANK_INDICATOR),
                        ),
                    decreases lines.len() - i,
                {
                    let line = &lines[i];
                    let ghost parts = part_views(line@);
                    assert(parts == all[i as int]);
                    let mut s = String::new();
                    let mut j: usize = 0;
                    while j < line.len()
                        invariant
                            j <= line.len(),
                            parts == part_views(line@),
                            s@ == shown_line(parts.take(j as int), BLANK_INDICATOR),
                        decreases line.len() - j,
                    {
                        let part = &line[j];
                        let ghost shown = s@;
                        proof {
                            assert(parts.take(j + 1).drop_last() == parts.take(j as int));
                            assert(parts.take(j + 1).last() == part@);
                        }
                        if part.1 {
                            // replace with blanks
                            for c in it: part.0.as_str().chars()
                                invariant
                                    it.seq() == part.0@,
                                    s@ == shown + Seq::new(
                                        it.index() as nat,
                                        |k: int| BLANK_INDICATOR,
                                    ),
                            {
                                s.push(BLANK_INDICATOR);
                            }
                            assert(s@ == shown + shown_part(part@, BLANK_INDICATOR));
                        } else {
                            s.append(part.0.as_str());
                        }
                        s.push(' ');
                        assert(s@ == shown + shown_part(part@, BLANK_INDICATOR).push(' '));
                        j += 1;
                    }
                    assert(parts.take(j as int) == parts);
                    let ghost before = texts(result@);
                    result.push(s);
                    assert(texts(result@) == before.push(shown_line(parts, BLANK_INDICATOR)));
                    i += 1;
                }
            },
        }
        result
    }
}

impl Flashcard {
    /// Creates a validator for the whole card: one fresh validator for each line of
    /// its back.
    pub fn get_validator(&self) -> (validator: FlashcardValidator)
        ensures
            validator@ == (FlashcardValidatorView {
                validators: Seq::new(
                    self@.back.lines_to_validate().len(),
                    |i: int| InputValidatorView::fresh(self@.back.lines_to_validate()[i]),
                ),
                index: 0,
                length: self@.back.lines_to_validate().len(),
            }),
    {
        FlashcardValidator::new(self)
    }
}

impl PartialEq for Flashcard {
    /// Two flashcards are equal where their fingerprints are.
    fn eq(&self, other: &Self) -> (equal: bool) {
        self.get_hash() == other.get_hash()
    }
}

impl PartialEqSpecImpl for Flashcard {
    open spec fn obeys_eq_spec() -> bool {
        true
    }

    open spec fn eq_spec(&self, other: &Self) -> bool {
        self@.fingerprint() == other@.fingerprint()
    }
}

impl Eq for Flashcard {

}

/// The fingerprint depends on the subject and the back of a flashcard alone: two
/// flashcards that agree in both have the same fingerprint, whatever their faces and
/// notes are.
pub proof fn lemma_fingerprint_ignores_face_and_note(a: Flashcard, b: Flashcard)
    requires
        a@.subject == b@.subject,
        a@.back == b@.back,
    ensures
        a.fingerprint() == b.fingerprint(),
{
}

/// Two flashcards with the same subject and different backs give different bytes to
/// compute their fingerprints from, and so do two flashcards with different subjects.
/// Their fingerprints are then the same only where XXH64 gives two inputs one digest.
pub proof fn lemma_fingerprint_input_tells_apart(a: FlashcardView, b: FlashcardView)
    requires
        a.subject != b.subject || a.back != b.back,
    ensures
        a.fingerprint_input() != b.fingerprint_input(),
{
    if a.fingerprint_input() == b.fingerprint_input() {
        lemma_input_is_told(a.subject, a.back, b.subject, b.back);
    }
}

/// Two flashcards with different fingerprints differ in their subject or in their back.
pub proof fn lemma_fingerprints_tell_apart(a: Flashcard, b: Flashcard)
    requires
        a.fingerprint() != b.fingerprint(),
    ensures
        a@.subject != b@.subject || a@.back != b@.back,
{
}

} // verus!
