//! A module for providing input validators.
//!
//! Essentially compares two strings whether they match exactly:
//! - the string on the back of a flashcard (expected)
//! - the string entered by the user (received)
//!
//! Usecases:
//! - programming syntax
//! - vocabulary
//! - key settings

use crate::flashcards::{texts, Flashcard};
use crate::text::{chars_of, string_of};
use vstd::prelude::*;

verus! {

/// Whether hints are being shown, and how far they reach.
#[derive(Clone, Copy, Debug, PartialEq, Eq, Structural)]
pub enum HintMode {
    /// No hints are displayed.
    Inactive,
    /// Hints are displayed; the index is that of the character revealed last.
    Active(usize),
}

/// Validates what the user enters for one line, character by character.
pub struct InputValidator {
    /// The list of expected characters.
    expected: Vec<char>,
    /// For each character a flag whether it matches the expected character.
    received: Vec<bool>,
    /// The current index the validator is pointing at.
    index: usize,
    /// The number of characters of the expected input the validator is checking against.
    length: usize,
    /// Indicates whether hint mode is currently active.
    hint_mode: HintMode,
    /// Whether the line was entered without looking at more than one hint.
    passed: bool,
}

/// What an `InputValidator` holds.
pub struct InputValidatorView {
    /// The expected characters.
    pub expected: Seq<char>,
    /// For each expected character whether the character received for it matched.
    pub received: Seq<bool>,
    /// The number of characters received so far.
    pub index: nat,
    /// Whether hints are being shown.
    pub hint_mode: HintMode,
    /// Whether the line still counts as passed.
    pub passed: bool,
}

impl InputValidatorView {
    /// The state of a validator that has received nothing yet.
    pub open spec fn fresh(expected: Seq<char>) -> InputValidatorView {
        InputValidatorView {
            expected,
            received: Seq::new(expected.len(), |i: int| false),
            index: 0,
            hint_mode: HintMode::Inactive,
            passed: true,
        }
    }

    /// What always holds of a validator: one flag for each expected character, an index
    /// within them with no character received from it on, and hints that point at one of
    /// the expected characters.
    pub open spec fn wf(self) -> bool {
        &&& self.received.len() == self.expected.len()
        &&& self.index <= self.expected.len()
        &&& forall|i: int| self.index <= i < self.received.len() ==> !self.received[i]
        &&& (self.hint_mode matches HintMode::Active(shown) ==> shown < self.expected.len())
    }

    /// Whether every expected character has been received correctly.
    pub open spec fn happy(self) -> bool {
        forall|i: int| 0 <= i < self.received.len() ==> self.received[i]
    }

    /// Whether more characters can be received.
    pub open spec fn accepts(self) -> bool {
        self.index < self.expected.len()
    }

    /// Whether `i` is the index of the first character that was not received correctly.
    pub open spec fn is_first_incorrect(self, i: int) -> bool {
        &&& 0 <= i < self.received.len()
        &&& !self.received[i]
        &&& forall|j: int| 0 <= j < i ==> self.received[j]
    }

    /// The index of the first character that was not received correctly, if there is
    /// one.
    pub open spec fn first_incorrect(self) -> Option<int> {
        if self.happy() {
            None
        } else {
            Some(choose|i: int| self.is_first_incorrect(i))
        }
    }

    /// There is one first character that was not received correctly, or none.
    pub proof fn lemma_first_incorrect(self, i: int)
        requires
            self.is_first_incorrect(i),
        ensures
            self.first_incorrect() == Some(i),
            self.wf() ==> i <= self.index,
    {
        assert(!self.happy());
        let j = choose|j: int| self.is_first_incorrect(j);
        assert(self.is_first_incorrect(j));
        if j < i {
            assert(self.received[j]);
        }
        if i < j {
            assert(self.received[i]);
        }
        if self.wf() && i > self.index {
            assert(self.received[self.index as int]);
        }
    }

    /// The state after `c` was received: where no more characters are accepted nothing
    /// changes, else the flag under the index tells whether `c` was expected there, and the
    /// index moves on.
    pub open spec fn check(self, c: char) -> InputValidatorView {
        if self.accepts() {
            InputValidatorView {
                received: self.received.update(
                    self.index as int,
                    self.expected[self.index as int] == c,
                ),
                index: self.index + 1,
                ..self
            }
        } else {
            self
        }
    }

    /// The state after the last `num` characters were taken back.
    pub open spec fn undo(self, num: nat) -> InputValidatorView
        recommends
            self.index == 0 || num <= self.index,
    {
        if self.index == 0 {
            self
        } else {
            InputValidatorView {
                received: Seq::new(
                    self.received.len(),
                    |i: int|
                        if self.index - num <= i < self.index {
                            false
                        } else {
                            self.received[i]
                        },
                ),
                index: (self.index - num) as nat,
                ..self
            }
        }
    }

    /// The state after one more hint was asked for. The first hint reveals the character
    /// under the index. Each further one costs the pass and reveals the next character
    /// as long as there is one.
    pub open spec fn peek(self) -> InputValidatorView {
        match self.hint_mode {
            HintMode::Inactive => InputValidatorView {
                hint_mode: HintMode::Active(self.index as usize),
                ..self
            },
            HintMode::Active(shown) => InputValidatorView {
                hint_mode: if shown + 1 < self.expected.len() {
                    HintMode::Active((shown + 1) as usize)
                } else {
                    self.hint_mode
                },
                passed: false,
                ..self
            },
        }
    }

    /// The character that one more hint reveals, if it reveals one.
    pub open spec fn peeked(self) -> Option<char> {
        match self.hint_mode {
            HintMode::Inactive => Some(self.expected[self.index as int]),
            HintMode::Active(shown) => if shown + 1 < self.expected.len() {
                Some(self.expected[shown + 1])
            } else {
                None
            },
        }
    }
}

impl View for InputValidator {
    type V = InputValidatorView;

    closed spec fn view(&self) -> InputValidatorView {
        InputValidatorView {
            expected: self.expected@,
            received: self.received@,
            index: self.index as nat,
            hint_mode: self.hint_mode,
            passed: self.passed,
        }
    }
}

/// Sets the flag with the index `i` to `value`.
fn set_flag(flags: &mut Vec<bool>, i: usize, value: bool)
    requires
        i < old(flags).len(),
    ensures
        final(flags)@ == old(flags)@.update(i as int, value),
    no_unwind
{
    flags[i] = value;
}

impl InputValidator {
    #[verifier::type_invariant]
    spec fn inv(self) -> bool {
        &&& self@.wf()
        &&& self.length == self.expected.len()
    }

    /// Creates a new instance from the `expected` characters.
    pub fn new(expected: &str) -> (validator: Self)
        ensures
            validator@ == InputValidatorView::fresh(expected@),
            validator@.wf(),
    {
        let expected = chars_of(expected);
        let length = expected.len();
        let received = vec![false; length];
        let passed = true;
        assert(received@ == Seq::new(expected@.len(), |i: int| false));

        Self { expected, received, index: 0, length, hint_mode: HintMode::Inactive, passed }
    }

    /// Checks the given character against the corresponding character of the expected
    /// string, and increases the index.
    pub fn check(&mut self, c: char) -> (is_valid: bool)
        ensures
            old(self)@.wf(),
            final(self)@.wf(),
            final(self)@ == old(self)@.check(c),
            is_valid == (old(self)@.accepts() && old(self)@.expected[old(self)@.index as int] == c),
    {
        proof {
            use_type_invariant(&*self);
        }
        if self.index >= self.length {
            return false;
        }
        let index = self.index;
        self.index += 1;

        let is_valid = self.expected[index] == c;
        set_flag(&mut self.received, index, is_valid);

        is_valid
    }

    /// Resets this validator: nothing counts as received any more.
    pub fn reset(&mut self)
        ensures
            old(self)@.wf(),
            final(self)@.wf(),
            final(self)@ == (InputValidatorView {
                received: Seq::new(old(self)@.expected.len(), |i: int| false),
                index: 0,
                ..old(self)@
            }),
    {
        proof {
            use_type_invariant(&*self);
        }
        let mut i: usize = 0;
        while i < self.received.len()
            invariant
                i <= self.received.len(),
                self.received.len() == old(self).received.len(),
                self.expected == old(self).expected,
                self.length == old(self).length,
                self.hint_mode == old(self).hint_mode,
                self.passed == old(self).passed,
                self.index == old(self).index,
                self.inv(),
                forall|k: int| 0 <= k < i ==> !self.received[k],
            decreases self.received.len() - i,
        {
            set_flag(&mut self.received, i, false);
            i += 1;
        }
        self.index = 0;
        assert(self.received@ == Seq::new(old(self)@.expected.len(), |i: int| false));
    }

    /// Undoes the last number of validation steps.
    pub fn undo(&mut self, num: usize)
        requires
            old(self)@.index == 0 || num <= old(self)@.index,
        ensures
            old(self)@.wf(),
            final(self)@.wf(),
            final(self)@ == old(self)@.undo(num as nat),
    {
        proof {
            use_type_invariant(&*self);
        }
        if self.index == 0 {
            return ;
        }
        let mut undone: usize = 0;
        while undone < num
            invariant
                undone <= num <= old(self).index,
                self.inv(),
                self.index == old(self).index - undone,
                self.received.len() == old(self).received.len(),
                self.expected == old(self).expected,
                self.length == old(self).length,
                self.hint_mode == old(self).hint_mode,
                self.passed == old(self).passed,
                forall|k: int|
                    0 <= k < self.received.len() ==> self.received[k] == (if self.index <= k
                        < old(self).index {
                        false
                    } else {
                        old(self).received[k]
                    }),
            decreases num - undone,
        {
            let index = self.index - 1;
            set_flag(&mut self.received, index, false);
            self.index = index;
            undone += 1;
        }
        assert(self.received@ == old(self)@.undo(num as nat).received);
    }

    /// Returns `true` if the user has correctly entered all characters.
    pub fn happy(&self) -> (happy: bool)
        ensures
            happy == self@.happy(),
    {
        let mut i: usize = 0;
        while i < self.received.len()
            invariant
                i <= self.received.len(),
                forall|k: int| 0 <= k < i ==> self.received[k],
            decreases self.received.len() - i,
        {
            if !self.received[i] {
                assert(!self@.received[i as int]);
                return false;
            }
            i += 1;
        }
        true
    }

    /// Returns `true` if the validator is still accepting more characters.
    pub fn accepts(&self) -> (accepts: bool)
        ensures
            accepts == self@.accepts(),
            self@.wf(),
    {
        proof {
            use_type_invariant(self);
        }
        self.index < self.length
    }

    /// Activates the hint mode, and returns a hint/part of the flashcard back.
    ///
    /// Repeated calls will reveal more information until there is either nothing to
    /// reveal or a call of `end_peek`. The first hint needs a character to reveal: the
    /// validator must still accept one.
    pub fn peek(&mut self) -> (hint: Option<char>)
        requires
            old(self)@.hint_mode is Inactive ==> old(self)@.accepts(),
        ensures
            old(self)@.wf(),
            final(self)@.wf(),
            final(self)@ == old(self)@.peek(),
            hint == old(self)@.peeked(),
    {
        proof {
            use_type_invariant(&*self);
        }
        match self.hint_mode {
            HintMode::Inactive => {
                self.hint_mode = HintMode::Active(self.index);
                return Some(self.expected[self.index]);
            },
            HintMode::Active(index) => {
                self.passed = false;
                if index < self.length - 1 {
                    self.hint_mode = HintMode::Active(index + 1);
                    return Some(self.expected[index + 1]);
                }
            },
        }
        None
    }

    /// Ends the hint mode.
    pub fn end_peek(&mut self)
        ensures
            old(self)@.wf(),
            final(self)@.wf(),
            final(self)@ == (InputValidatorView { hint_mode: HintMode::Inactive, ..old(self)@ }),
    {
        proof {
            use_type_invariant(&*self);
        }
        self.hint_mode = HintMode::Inactive;
    }

    /// Returns the index of the first incorrect character, or None if such a character
    /// doesn't exist. A character that was not received yet counts as incorrect.
    pub fn first_incorrect(&self) -> (first: Option<usize>)
        ensures
            match first {
                Some(i) => self@.is_first_incorrect(i as int) && self@.first_incorrect() == Some(
                    i as int,
                ) && i <= self@.index,
                None => self@.happy() && self@.first_incorrect() is None,
            },
    {
        proof {
            use_type_invariant(self);
        }
        let mut i: usize = 0;
        while i < self.received.len()
            invariant
                i <= self.received.len(),
                self@.wf(),
                forall|k: int| 0 <= k < i ==> self.received[k],
            decreases self.received.len() - i,
        {
            if !self.received[i] {
                proof {
                    assert(!self@.received[i as int]);
                    assert(self@.is_first_incorrect(i as int));
                    self@.lemma_first_incorrect(i as int);
                }
                return Some(i);
            }
            i += 1;
        }
        None
    }

    /// Returns the expected `String`.
    pub fn expected(&self) -> (expected: String)
        ensures
            expected@ == self@.expected,
    {
        string_of(&self.expected)
    }

    /// Returns the current character index.
    pub fn index(&self) -> (index: usize)
        ensures
            index == self@.index,
            self@.wf(),
    {
        proof {
            use_type_invariant(self);
        }
        self.index
    }

    /// Returns the current hint mode.
    pub fn hint_mode(&self) -> (hint_mode: &HintMode)
        ensures
            *hint_mode == self@.hint_mode,
            self@.wf(),
    {
        proof {
            use_type_invariant(self);
        }
        &self.hint_mode
    }

    /// Returns the number of characters.
    pub fn length(&self) -> (length: usize)
        ensures
            length == self@.expected.len(),
    {
        proof {
            use_type_invariant(self);
        }
        self.length
    }

    /// Returns `true` if the user entered the line without looking at more than one
    /// hint.
    pub fn passed(&self) -> (passed: bool)
        ensures
            passed == self@.passed,
    {
        self.passed
    }
}

impl Clone for InputValidator {
    /// Returns a validator in the same state.
    fn clone(&self) -> (copy: Self)
        ensures
            copy@ == self@,
    {
        proof {
            use_type_invariant(self);
        }
        let expected = self.expected.clone();
        let received = self.received.clone();
        assert(expected@ == self.expected@);
        assert(received@ == self.received@);
        Self {
            expected,
            received,
            index: self.index,
            length: self.length,
            hint_mode: self.hint_mode,
            passed: self.passed,
        }
    }
}

/// What the validators of `validators` hold, in the same order.
pub open spec fn validator_views(validators: Seq<InputValidator>) -> Seq<InputValidatorView> {
    Seq::new(validators.len(), |i: int| validators[i]@)
}

/// Represents a validator for the whole flashcard, and is comprised of several input
/// validators.
pub struct FlashcardValidator {
    /// A list of input validators for each line.
    pub validators: Vec<InputValidator>,
    index: usize,
    length: usize,
}

/// What a `FlashcardValidator` holds.
pub struct FlashcardValidatorView {
    /// What the validators of the lines hold.
    pub validators: Seq<InputValidatorView>,
    /// The index of the currently active input validator.
    pub index: nat,
    /// The number of lines that the validator was made for.
    pub length: nat,
}

impl FlashcardValidatorView {
    /// Whether the validators of all lines are happy.
    pub open spec fn happy(self) -> bool {
        forall|i: int| 0 <= i < self.validators.len() ==> (#[trigger] self.validators[i]).happy()
    }

    /// The validators with `validator` in the place of the one of the line `line`.
    pub open spec fn with_line(self, line: int, validator: InputValidatorView) -> Self {
        FlashcardValidatorView { validators: self.validators.update(line, validator), ..self }
    }

    /// Whether the validators of all lines were passed.
    pub open spec fn passed(self) -> bool {
        forall|i: int| 0 <= i < self.validators.len() ==> (#[trigger] self.validators[i]).passed
    }
}

impl View for FlashcardValidator {
    type V = FlashcardValidatorView;

    closed spec fn view(&self) -> FlashcardValidatorView {
        FlashcardValidatorView {
            validators: validator_views(self.validators@),
            index: self.index as nat,
            length: self.length as nat,
        }
    }
}

impl FlashcardValidator {
    /// Creates a new instance: one fresh validator for each line of the flashcard's
    /// back, for what the user has to enter in that line.
    pub fn new(flashcard: &Flashcard) -> (validator: Self)
        ensures
            validator@ == (FlashcardValidatorView {
                validators: Seq::new(
                    flashcard@.back.lines_to_validate().len(),
                    |i: int| InputValidatorView::fresh(flashcard@.back.lines_to_validate()[i]),
                ),
                index: 0,
                length: flashcard@.back.lines_to_validate().len(),
            }),
    {
        let lines_to_validate = flashcard.get_lines_to_validate();
        let ghost lines = flashcard@.back.lines_to_validate();
        let length = lines_to_validate.len();
        assert(texts(lines_to_validate@).len() == length);

        let mut validators: Vec<InputValidator> = Vec::with_capacity(length);
        let mut i: usize = 0;
        while i < length
            invariant
                i <= length,
                length == lines_to_validate.len(),
                lines == texts(lines_to_validate@),
                validator_views(validators@) == Seq::new(
                    i as nat,
                    |k: int| InputValidatorView::fresh(lines[k]),
                ),
            decreases length - i,
        {
            let ghost before = validator_views(validators@);
            let validator = InputValidator::new(lines_to_validate[i].as_str());
            validators.push(validator);
            assert(validator_views(validators@) == before.push(
                InputValidatorView::fresh(lines[i as int]),
            ));
            i += 1;
        }

        Self { validators, index: 0, length }
    }

    /// Returns the index of the currently active input validator.
    pub fn index(&self) -> (index: usize)
        ensures
            index == self@.index,
    {
        self.index
    }

    /// Returns the number of contained input validators.
    pub fn length(&self) -> (length: usize)
        ensures
            length == self@.length,
    {
        self.length
    }

    /// Returns the validators of the lines.
    pub fn validators(&self) -> (validators: &Vec<InputValidator>)
        ensures
            validator_views(validators@) == self@.validators,
    {
        &self.validators
    }

    /// Returns the validator of the line `line`, in the state that it is in.
    pub fn line(&self, line: usize) -> (validator: InputValidator)
        requires
            line < self@.validators.len(),
        ensures
            validator@ == self@.validators[line as int],
    {
        self.validators[line].clone()
    }

    /// Puts `validator` in the place of the validator of the line `line`.
    pub fn set_line(&mut self, line: usize, validator: InputValidator)
        requires
            line < old(self)@.validators.len(),
        ensures
            final(self)@ == old(self)@.with_line(line as int, validator@),
    {
        self.validators.set(line, validator);
        assert(validator_views(self.validators@) =~= validator_views(old(self).validators@).update(
            line as int,
            validator@,
        ));
    }

    /// Checks `c` against the next expected character of the line `line`, as
    /// `InputValidator::check` does.
    pub fn check(&mut self, line: usize, c: char) -> (is_valid: bool)
        requires
            line < old(self)@.validators.len(),
        ensures
            final(self)@ == old(self)@.with_line(
                line as int,
                old(self)@.validators[line as int].check(c),
            ),
            is_valid == (old(self)@.validators[line as int].accepts() && old(
                self,
            )@.validators[line as int].expected[old(self)@.validators[line as int].index as int]
                == c),
    {
        let mut validator = self.line(line);
        let is_valid = validator.check(c);
        self.set_line(line, validator);
        is_valid
    }

    /// Takes back the last `num` characters of the line `line`, as `InputValidator::undo`
    /// does.
    pub fn undo(&mut self, line: usize, num: usize)
        requires
            line < old(self)@.validators.len(),
            old(self)@.validators[line as int].index == 0 || num <= old(
                self,
            )@.validators[line as int].index,
        ensures
            final(self)@ == old(self)@.with_line(
                line as int,
                old(self)@.validators[line as int].undo(num as nat),
            ),
    {
        let mut validator = self.line(line);
        validator.undo(num);
        self.set_line(line, validator);
    }

    /// Reveals one more character of the line `line`, as `InputValidator::peek` does.
    pub fn peek(&mut self, line: usize) -> (hint: Option<char>)
        requires
            line < old(self)@.validators.len(),
            old(self)@.validators[line as int].hint_mode is Inactive ==> old(
                self,
            )@.validators[line as int].accepts(),
        ensures
            final(self)@ == old(self)@.with_line(
                line as int,
                old(self)@.validators[line as int].peek(),
            ),
            hint == old(self)@.validators[line as int].peeked(),
    {
        let mut validator = self.line(line);
        let hint = validator.peek();
        self.set_line(line, validator);
        hint
    }

    /// Ends the hint mode of the line `line`, as `InputValidator::end_peek` does.
    pub fn end_peek(&mut self, line: usize)
        requires
            line < old(self)@.validators.len(),
        ensures
            final(self)@ == old(self)@.with_line(
                line as int,
                (InputValidatorView {
                    hint_mode: HintMode::Inactive,
                    ..old(self)@.validators[line as int]
                }),
            ),
    {
        let mut validator = self.line(line);
        validator.end_peek();
        self.set_line(line, validator);
    }

    /// Returns `true` if all sub-validators are "happy".
    pub fn happy(&self) -> (happy: bool)
        ensures
            happy == self@.happy(),
    {
        let mut i: usize = 0;
        while i < self.validators.len()
            invariant
                i <= self.validators.len(),
                forall|k: int| 0 <= k < i ==> (#[trigger] self@.validators[k]).happy(),
            decreases self.validators.len() - i,
        {
            if !self.validators[i].happy() {
                assert(!self@.validators[i as int].happy());
                return false;
            }
            i += 1;
        }
        true
    }

    /// Returns `true` if all sub-validators were passed.
    pub fn passed(&self) -> (passed: bool)
        ensures
            passed == self@.passed(),
    {
        let mut i: usize = 0;
        while i < self.validators.len()
            invariant
                i <= self.validators.len(),
                forall|k: int| 0 <= k < i ==> (#[trigger] self@.validators[k]).passed,
            decreases self.validators.len() - i,
        {
            if !self.validators[i].passed() {
                assert(!self@.validators[i as int].passed);
                return false;
            }
            i += 1;
        }
        true
    }
}

} // verus!
