//! A factory that collects the sides of a flashcard and builds it.

use super::{text_of, Flashcard, FlashcardBack, FlashcardBackView, FlashcardView, Line};
use std::rc::Rc;
use vstd::prelude::*;
use vstd::string::StringExecFns;

verus! {

/// A factory to produce flashcards from markup.
pub struct FlashcardFactory {
    subject: Rc<String>,
    face: Option<Line>,
    back: Option<FlashcardBack>,
    note: Option<Line>,
}

/// What a `FlashcardFactory` holds.
pub struct FlashcardFactoryView {
    /// The subject of every flashcard that the factory builds.
    pub subject: Seq<char>,
    /// The front side that was set, if one was.
    pub face: Option<Seq<char>>,
    /// The back that was set, if one was.
    pub back: Option<FlashcardBackView>,
    /// The note that was set, if one was.
    pub note: Option<Seq<char>>,
}

impl FlashcardFactoryView {
    /// Whether enough has been set to build a flashcard: a front side and a back.
    pub open spec fn can_build(self) -> bool {
        self.face is Some && self.back is Some
    }

    /// The flashcard that is built from what has been set.
    pub open spec fn built(self) -> FlashcardView
        recommends
            self.can_build(),
    {
        FlashcardView {
            subject: self.subject,
            face: self.face->0,
            back: self.back->0,
            note: self.note,
        }
    }

    /// The factory with nothing set but its subject.
    pub open spec fn cleared(self) -> FlashcardFactoryView {
        FlashcardFactoryView { subject: self.subject, face: None, back: None, note: None }
    }
}

/// `Rc::clone`: one more pointer to the same value.
#[verifier::external_body]
fn share(subject: &Rc<String>) -> (shared: Rc<String>)
    ensures
        shared == *subject,
{
    Rc::clone(subject)
}

impl View for FlashcardFactory {
    type V = FlashcardFactoryView;

    closed spec fn view(&self) -> FlashcardFactoryView {
        FlashcardFactoryView {
            subject: self.subject@,
            face: text_of(self.face),
            back: match self.back {
                Some(back) => Some(back@),
                None => None,
            },
            note: text_of(self.note),
        }
    }
}

impl FlashcardFactory {
    /// Creates a new flashcard factory.
    pub fn new(subject: &str) -> (factory: Self)
        ensures
            factory@ == (FlashcardFactoryView {
                subject: subject@,
                face: None,
                back: None,
                note: None,
            }),
    {
        Self { subject: Rc::new(String::from_str(subject)), face: None, back: None, note: None }
    }

    /// Sets the front side of the flashcard.
    pub fn set_face(&mut self, face_text: &str)
        ensures
            final(self)@ == (FlashcardFactoryView { face: Some(face_text@), ..old(self)@ }),
    {
        self.face = Some(String::from_str(face_text));
    }

    /// Sets the back of the flashcard.
    pub fn set_back(&mut self, back: FlashcardBack)
        ensures
            final(self)@ == (FlashcardFactoryView { back: Some(back@), ..old(self)@ }),
    {
        self.back = Some(back);
    }

    /// Sets a note to the flashcard to provide helpful context.
    pub fn set_note(&mut self, note_text: &str)
        ensures
            final(self)@ == (FlashcardFactoryView { note: Some(note_text@), ..old(self)@ }),
    {
        self.note = Some(String::from_str(note_text));
    }

    /// Returns `true` if enough data has been provided to build a flashcard.
    pub fn can_build(&self) -> (ready: bool)
        ensures
            ready == self@.can_build(),
    {
        self.face.is_some() && !self.back.is_none()
    }

    /// Builds a flashcard from the current state of the factory, which keeps nothing but
    /// its subject.
    pub fn build(&mut self) -> (flashcard: Flashcard)
        requires
            old(self)@.can_build(),
        ensures
            flashcard@ == old(self)@.built(),
            final(self)@ == old(self)@.cleared(),
    {
        let face = self.face.take().unwrap();
        let back = self.back.take().unwrap();
        let note = self.note.take();

        Flashcard { subject: share(&self.subject), face, back, note }
    }
}

} // verus!
