//! A module to represent and build flashcards.

pub mod fingerprint;
pub mod flashcard;
pub mod flashcard_factory;

pub use self::flashcard::Flashcard;
pub use self::flashcard::FlashcardView;

use vstd::prelude::*;

verus! {

/// Represents a single line on a flashcard.
pub type Line = String;

/// Represents a part of a line, and whether it is considered a blank, or not. The third
/// field is the byte at which the part starts where single spaces part the parts.
#[derive(Clone, Debug, Eq, PartialEq, Hash)]
pub struct LinePart(pub String, pub bool, pub usize);

/// Represents a line that can contain blanks.
pub type LineWithBlanks = Vec<LinePart>;

/// Represents the various types of flashcard backs.
#[derive(Debug, Clone, Eq, PartialEq, Hash)]
pub enum FlashcardBack {
    /// Requires the user to fill in the blanks.
    FillTheBlank(Vec<LineWithBlanks>),
    /// Requires the user to write whole lines.
    WriteTheLine(Vec<Line>),
}

/// What a `LinePart` holds.
pub struct LinePartView {
    /// The text of the part.
    pub text: Seq<char>,
    /// Whether the user has to enter the part.
    pub blank: bool,
    /// The byte at which the part starts.
    pub index: nat,
}

impl View for LinePart {
    type V = LinePartView;

    open spec fn view(&self) -> LinePartView {
        LinePartView { text: self.0@, blank: self.1, index: self.2 as nat }
    }
}

/// What a `FlashcardBack` holds.
pub enum FlashcardBackView {
    /// The lines of a back with blanks, each as its parts.
    FillTheBlank(Seq<Seq<LinePartView>>),
    /// The lines of a back that is written in whole.
    WriteTheLine(Seq<Seq<char>>),
}

/// The texts of `lines`, in the same order.
pub open spec fn texts(lines: Seq<String>) -> Seq<Seq<char>> {
    Seq::new(lines.len(), |i: int| lines[i]@)
}

/// The text of `line`, if there is one.
pub open spec fn text_of(line: Option<String>) -> Option<Seq<char>> {
    match line {
        Some(line) => Some(line@),
        None => None,
    }
}

/// What the parts of one line hold, in the same order.
pub open spec fn part_views(parts: Seq<LinePart>) -> Seq<LinePartView> {
    Seq::new(parts.len(), |i: int| parts[i]@)
}

/// What the lines of a back with blanks hold, in the same order.
pub open spec fn line_views(lines: Seq<Vec<LinePart>>) -> Seq<Seq<LinePartView>> {
    Seq::new(lines.len(), |i: int| part_views(lines[i]@))
}

impl View for FlashcardBack {
    type V = FlashcardBackView;

    open spec fn view(&self) -> FlashcardBackView {
        match self {
            FlashcardBack::FillTheBlank(lines) => FlashcardBackView::FillTheBlank(
                line_views(lines@),
            ),
            FlashcardBack::WriteTheLine(lines) => FlashcardBackView::WriteTheLine(texts(lines@)),
        }
    }
}

/// The texts of the blanks of `parts`, one after the other: what the user has to enter
/// for this line.
pub open spec fn blanks_of(parts: Seq<LinePartView>) -> Seq<char>
    decreases parts.len(),
{
    if parts.len() == 0 {
        Seq::<char>::empty()
    } else if parts.last().blank {
        blanks_of(parts.drop_last()) + parts.last().text
    } else {
        blanks_of(parts.drop_last())
    }
}

/// `part` as it is shown before the user fills it in: a blank as one `blank` for each
/// of its characters, another part as its text.
pub open spec fn shown_part(part: LinePartView, blank: char) -> Seq<char> {
    if part.blank {
        Seq::new(part.text.len(), |i: int| blank)
    } else {
        part.text
    }
}

/// The parts of one line as they are shown, each followed by a space.
pub open spec fn shown_line(parts: Seq<LinePartView>, blank: char) -> Seq<char>
    decreases parts.len(),
{
    if parts.len() == 0 {
        Seq::<char>::empty()
    } else {
        shown_line(parts.drop_last(), blank) + shown_part(parts.last(), blank).push(' ')
    }
}

impl FlashcardBackView {
    /// For each line of the back the characters that the user has to enter.
    pub open spec fn lines_to_validate(self) -> Seq<Seq<char>> {
        match self {
            FlashcardBackView::FillTheBlank(lines) => Seq::new(
                lines.len(),
                |i: int| blanks_of(lines[i]),
            ),
            FlashcardBackView::WriteTheLine(lines) => lines,
        }
    }

    /// For each line of the back what is shown of it before the user enters anything,
    /// with `blank` in place of each character of a blank.
    pub open spec fn lines_to_display(self, blank: char) -> Seq<Seq<char>> {
        match self {
            FlashcardBackView::FillTheBlank(lines) => Seq::new(
                lines.len(),
                |i: int| shown_line(lines[i], blank),
            ),
            FlashcardBackView::WriteTheLine(lines) => Seq::new(
                lines.len(),
                |i: int| Seq::<char>::empty(),
            ),
        }
    }
}

} // verus!
