//! What the display shows: where on the terminal the user enters the blanks of a
//! line, and what each key that the user presses leads to.
//!
//! The terminal itself is driven elsewhere. Here a key is an event, and the answer to
//! it is a list of actions for the terminal and the word whether input goes on.

use crate::cardbox::Progress;
use crate::constants::{
    BLANK_INDICATOR, NUM_REVEALED_CHARS_IN_HINT, PROGRAM_PEEK_KEY, PROGRAM_QUIT_KEY,
};
use crate::text::{chars_of, decimal_spec, push_decimal, string_of};
use crate::validator::{HintMode, InputValidator, InputValidatorView};
use vstd::arithmetic::div_mod::lemma_fundamental_div_mod_converse;
use vstd::prelude::*;

verus! {

/// Represents a cursor position the program expects an input: a column and a row.
pub type InputLocation = (u16, u16);

/// The position of the character with the index `i` of a text that is shown from the
/// column `x` and the row `y` on, in rows of `w` characters.
pub open spec fn location_spec(x: u16, y: u16, w: u16, i: int) -> InputLocation {
    ((x + i % (w as int)) as u16, (y + i / (w as int)) as u16)
}

/// The positions of the blank indicators of `text`, in their order, where `text` is
/// shown from the column `x` and the row `y` on, in rows of `w` characters.
pub open spec fn locations_spec(x: u16, y: u16, w: u16, text: Seq<char>) -> Seq<InputLocation>
    decreases text.len(),
{
    if text.len() == 0 {
        Seq::empty()
    } else if text.last() == BLANK_INDICATOR {
        locations_spec(x, y, w, text.drop_last()).push(location_spec(x, y, w, text.len() - 1))
    } else {
        locations_spec(x, y, w, text.drop_last())
    }
}

/// The greatest column that the cursor reaches while a text of `len` characters is
/// walked through from the column `x` on, in rows of `w` characters.
pub open spec fn last_column(x: u16, w: u16, len: nat) -> int {
    if len < w {
        x + len
    } else {
        x + w - 1
    }
}

/// Represents all cursor positions the program expects an input.
pub struct InputLocations {
    /// The cursor positions, in the order of the text.
    pub locations: Vec<InputLocation>,
    index: usize,
    length: usize,
}

/// What `InputLocations` hold.
pub struct InputLocationsView {
    /// The cursor positions, in the order of the text.
    pub locations: Seq<InputLocation>,
    /// The index of the position that the cursor stands at.
    pub index: nat,
    /// The number of positions that there were at first.
    pub length: nat,
}

impl InputLocationsView {
    /// What holds as long as nobody takes positions away: the index does not pass the
    /// number of positions.
    pub open spec fn wf(self) -> bool {
        self.index <= self.length == self.locations.len()
    }

    /// The locations after the cursor moved on by one. It can move one step behind the
    /// last location and no further.
    pub open spec fn moved_on(self) -> InputLocationsView {
        InputLocationsView {
            index: if self.index < self.length {
                self.index + 1
            } else {
                self.index
            },
            ..self
        }
    }

    /// The location behind the one that the cursor stands at, if there is one.
    pub open spec fn following(self) -> Option<InputLocation> {
        if self.index + 1 < self.length {
            Some(self.locations[self.index as int + 1])
        } else {
            None
        }
    }

    /// The locations after the cursor moved back by one, where it does not stand at the
    /// first one.
    pub open spec fn moved_back(self) -> InputLocationsView {
        InputLocationsView {
            index: if self.index > 0 {
                (self.index - 1) as nat
            } else {
                self.index
            },
            ..self
        }
    }

    /// The location before the one that the cursor stands at, if there is one.
    pub open spec fn preceding(self) -> Option<InputLocation> {
        if self.index > 0 {
            Some(self.locations[self.index - 1])
        } else {
            None
        }
    }
}

impl View for InputLocations {
    type V = InputLocationsView;

    closed spec fn view(&self) -> InputLocationsView {
        InputLocationsView {
            locations: self.locations@,
            index: self.index as nat,
            length: self.length as nat,
        }
    }
}

impl InputLocations {
    /// Creates a new instance.
    ///
    /// Wherever `text` contains a `BLANK_INDICATOR` it will create an `InputLocation`.
    /// The text is shown from the column `x` and the row `y` on, in rows of `w`
    /// characters, and all of it must have its place among the columns and rows that
    /// can be counted.
    pub fn new(x: u16, y: u16, w: u16, h: u16, text: &str) -> (created: Self)
        requires
            w > 0,
            text@.len() <= u16::MAX,
            last_column(x, w, text@.len()) <= u16::MAX,
            y + text@.len() / (w as nat) <= u16::MAX,
        ensures
            created@.wf(),
            created@.locations == locations_spec(x, y, w, text@),
            created@.index == 0,
    {
        let chars = chars_of(text);
        let mut locations: Vec<InputLocation> = Vec::new();

        let mut u = x;
        let mut v = y;
        let mut column: u16 = 0;

        let mut i: usize = 0;
        assert(chars@.take(0) == Seq::<char>::empty());
        while i < chars.len()
            invariant
                i <= chars.len(),
                chars@ == text@,
                w > 0,
                chars.len() <= u16::MAX,
                last_column(x, w, text@.len()) <= u16::MAX,
                y + text@.len() / (w as nat) <= u16::MAX,
                column < w,
                i == (v - y) * w + column,
                u == x + column,
                v >= y,
                locations@ == locations_spec(x, y, w, chars@.take(i as int)),
            decreases chars.len() - i,
        {
            let c = chars[i];
            proof {
                lemma_fundamental_div_mod_converse(i as int, w as int, v - y, column as int);
                assert(chars@.take(i + 1).drop_last() == chars@.take(i as int));
                assert(chars@.take(i + 1).last() == c);
                assert(location_spec(x, y, w, i as int) == (u, v));
            }
            // Add input location
            if c == BLANK_INDICATOR {
                locations.push((u, v));
            }
            assert((v - y + 1) * w == (v - y) * w + w) by (nonlinear_arith);
            if column + 1 == w {
                // newline
                proof {
                    lemma_fundamental_div_mod_converse(i + 1, w as int, v - y + 1, 0);
                    lemma_rows_grow(i + 1, text@.len() as int, w as int);
                }
                u = x;
                v += 1;
                column = 0;
            } else {
                u += 1;
                column += 1;
            }
            i += 1;
        }
        assert(chars@.take(i as int) == chars@);
        let length = locations.len();

        Self { locations, index: 0, length }
    }

    /// Returns the cursor locations, in the order in which the cursor walks through them.
    pub fn locations(&self) -> (locations: &Vec<InputLocation>)
        ensures
            locations@ == self@.locations,
    {
        &self.locations
    }

    /// Returns the number of cursor locations.
    pub fn len(&self) -> (len: usize)
        ensures
            len == self@.locations.len(),
    {
        self.locations.len()
    }

    /// Moves to the first cursor location.
    pub fn first(&mut self) -> (location: InputLocation)
        requires
            old(self)@.locations.len() > 0,
        ensures
            location == old(self)@.locations[0],
            final(self)@ == (InputLocationsView { index: 0, ..old(self)@ }),
    {
        self.index = 0;
        self.locations[0]
    }

    /// Moves to the next cursor location, and returns it where there is one. The cursor
    /// can move one step behind the last location and no further.
    pub fn next(&mut self) -> (location: Option<InputLocation>)
        requires
            old(self)@.wf(),
        ensures
            final(self)@.wf(),
            final(self)@ == old(self)@.moved_on(),
            location == old(self)@.following(),
    {
        if self.index < self.length {
            self.index += 1;
            if self.index < self.length {
                Some(self.locations[self.index])
            } else {
                None
            }
        } else {
            None
        }
    }

    /// Moves to the previous cursor location, and returns it where there is one.
    pub fn prev(&mut self) -> (location: Option<InputLocation>)
        requires
            old(self)@.wf(),
        ensures
            final(self)@.wf(),
            final(self)@ == old(self)@.moved_back(),
            location == old(self)@.preceding(),
    {
        if self.index > 0 {
            self.index -= 1;
            Some(self.locations[self.index])
        } else {
            None
        }
    }
}

/// A text has at least as many full rows as each of its beginnings.
pub proof fn lemma_rows_grow(i: int, n: int, w: int)
    requires
        0 <= i <= n,
        w > 0,
    ensures
        i / w <= n / w,
{
    vstd::arithmetic::div_mod::lemma_div_is_ordered(i, n, w);
}

/// A key that the user pressed.
#[derive(Clone, Copy, Debug, PartialEq, Eq, Structural)]
pub enum Key {
    /// A character.
    Char(char),
    /// A character together with the control key.
    Ctrl(char),
    /// The backspace key.
    Backspace,
    /// Any other key.
    Other,
}

/// What the terminal does in answer to a key.
#[derive(Clone, Copy, Debug, PartialEq, Eq, Structural)]
pub enum Action {
    /// Print the character as one that was entered correctly.
    PrintCorrect(char),
    /// Print the character as one that was not entered correctly.
    PrintIncorrect(char),
    /// Print the character as a hint.
    PrintHint(char),
    /// Move the cursor back to where it was saved, and clear everything from there to
    /// the footer.
    ClearHint,
    /// Move the cursor left by so many columns.
    MoveLeft(u16),
    /// Clear the line from the cursor on.
    ClearLine,
    /// Save the position of the cursor.
    SavePosition,
    /// Move the cursor to the column and the row.
    Goto(u16, u16),
    /// Print a blank indicator.
    PrintBlank,
    /// Go to the start of the next line.
    NewLine,
    /// Leave the raw mode of the terminal and show the cursor.
    Exit,
}

/// Whether input goes on after a key.
#[derive(Clone, Copy, Debug, PartialEq, Eq, Structural)]
pub enum Outcome {
    /// The next key is waited for.
    Continue,
    /// The input is complete.
    Done,
    /// The user asked to quit the program.
    Quit,
}

/// The answer to a key: what the terminal does, then whether input goes on.
#[derive(Debug)]
pub struct Reaction {
    /// What the terminal does, in this order.
    pub actions: Vec<Action>,
    /// Whether input goes on.
    pub outcome: Outcome,
}

/// Whether `c` counts as the return key: its code ends in the byte 10.
pub open spec fn is_enter_spec(c: char) -> bool {
    (c as u32) % 256 == 10
}

/// Returns `true` if `c` counts as the return key.
pub fn is_enter(c: char) -> (enter: bool)
    ensures
        enter == is_enter_spec(c),
{
    (c as u32) % 256 == 10
}

/// The validator and the actions after a hint that was shown, if one was, is taken
/// away. Here and below, `actions` are the actions so far, and the ones that are due
/// are added at their end.
pub open spec fn without_hint(v: InputValidatorView, actions: Seq<Action>) -> (
    InputValidatorView,
    Seq<Action>,
) {
    match v.hint_mode {
        HintMode::Active(_) => (
            InputValidatorView { hint_mode: HintMode::Inactive, ..v },
            actions.push(Action::ClearHint),
        ),
        HintMode::Inactive => (v, actions),
    }
}

/// The action that prints `c` as what it is to the validator: the character that it
/// waits for, or another one.
pub open spec fn print_checked(v: InputValidatorView, c: char) -> Action {
    if v.expected[v.index as int] == c {
        Action::PrintCorrect(c)
    } else {
        Action::PrintIncorrect(c)
    }
}

/// The validator and the actions after the character `c` was typed: a hint goes away,
/// and where the validator accepts a character, `c` is checked and printed as what it
/// is.
pub open spec fn typed(v: InputValidatorView, c: char, actions: Seq<Action>) -> (
    InputValidatorView,
    Seq<Action>,
) {
    let (v, actions) = without_hint(v, actions);
    if v.accepts() {
        (v.check(c), actions.push(print_checked(v, c)))
    } else {
        (v, actions)
    }
}

/// The validator and the actions after the backspace key: a hint goes away, and where
/// a character was entered, the last one is taken back and cleared.
pub open spec fn erased(v: InputValidatorView, actions: Seq<Action>) -> (
    InputValidatorView,
    Seq<Action>,
) {
    let (v, actions) = without_hint(v, actions);
    if v.index > 0 {
        (v.undo(1), actions.push(Action::MoveLeft(1)).push(Action::ClearLine))
    } else {
        (v, actions)
    }
}

/// The validator and the actions after everything from the first incorrect character
/// on was taken back and cleared.
pub open spec fn without_incorrect(v: InputValidatorView, actions: Seq<Action>) -> (
    InputValidatorView,
    Seq<Action>,
) {
    match v.first_incorrect() {
        Some(first) => {
            let delta = v.index - first;
            (
                v.undo(delta as nat),
                if delta > 0 {
                    actions.push(Action::MoveLeft((delta % 0x10000) as u16)).push(
                        Action::ClearLine,
                    )
                } else {
                    actions.push(Action::ClearLine)
                },
            )
        },
        None => (v, actions),
    }
}

/// The validator and the actions after one more character was revealed, where there is
/// one to reveal.
pub open spec fn hinted(v: InputValidatorView, actions: Seq<Action>) -> (
    InputValidatorView,
    Seq<Action>,
) {
    if v.hint_mode is Inactive && !v.accepts() {
        (v, actions)
    } else {
        (
            v.peek(),
            match v.peeked() {
                Some(c) => actions.push(Action::PrintHint(c)),
                None => actions,
            },
        )
    }
}

/// The validator and the actions after `n` more characters were revealed, as far as
/// there are characters to reveal.
pub open spec fn hinted_times(v: InputValidatorView, actions: Seq<Action>, n: nat) -> (
    InputValidatorView,
    Seq<Action>,
)
    decreases n,
{
    if n == 0 {
        (v, actions)
    } else {
        let (v, actions) = hinted_times(v, actions, (n - 1) as nat);
        hinted(v, actions)
    }
}

/// The validator and the actions after the key for peeking at the solution. The first
/// time, what is incorrect is cleared and the position of the cursor is saved. Each
/// time, the next characters are revealed.
pub open spec fn peeked_at(v: InputValidatorView, actions: Seq<Action>) -> (
    InputValidatorView,
    Seq<Action>,
) {
    let (v, actions) = if v.hint_mode is Inactive {
        let (v, actions) = without_incorrect(v, actions);
        (v, actions.push(Action::SavePosition))
    } else {
        (v, actions)
    };
    hinted_times(v, actions, NUM_REVEALED_CHARS_IN_HINT as nat)
}

/// The validator, the actions and the outcome after `key` was pressed while a line is
/// written. The control key with the quit key ends the program. Any other key is
/// handled, and then the line is complete where every character was entered correctly.
pub open spec fn read_input_spec(v: InputValidatorView, key: Key) -> (
    InputValidatorView,
    Seq<Action>,
    Outcome,
) {
    let none = Seq::<Action>::empty();
    if key == Key::Ctrl(PROGRAM_QUIT_KEY) {
        (v, none.push(Action::Exit), Outcome::Quit)
    } else {
        let (v, actions) = match key {
            Key::Char(c) => if is_enter_spec(c) {
                (v, none)
            } else {
                typed(v, c, none)
            },
            Key::Backspace => erased(v, none),
            Key::Ctrl(c) => if c == PROGRAM_PEEK_KEY {
                peeked_at(v, none)
            } else {
                (v, none)
            },
            Key::Other => (v, none),
        };
        if v.happy() {
            (v, actions.push(Action::NewLine), Outcome::Done)
        } else {
            (v, actions, Outcome::Continue)
        }
    }
}

/// Takes the hint away that is shown, if one is.
fn clear_hint(validator: &mut InputValidator, actions: &mut Vec<Action>)
    ensures
        final(validator)@.wf(),
        (final(validator)@, final(actions)@) == without_hint(old(validator)@, old(actions)@),
{
    match validator.hint_mode() {
        HintMode::Active(_) => {
            actions.push(Action::ClearHint);
            validator.end_peek();
        },
        HintMode::Inactive => {},
    }
}

/// Reveals one more character, where there is one to reveal.
fn hint(validator: &mut InputValidator, actions: &mut Vec<Action>)
    ensures
        final(validator)@.wf(),
        (final(validator)@, final(actions)@) == hinted(old(validator)@, old(actions)@),
{
    let inactive = match validator.hint_mode() {
        HintMode::Active(_) => false,
        HintMode::Inactive => true,
    };
    if inactive && !validator.accepts() {
        return ;
    }
    match validator.peek() {
        Some(c) => {
            actions.push(Action::PrintHint(c));
        },
        None => {},
    }
}

/// Handles one key while the user writes a line: what is typed is checked against
/// the validator, the backspace key takes the last character back, the control key
/// with the peek key reveals the next characters, and the control key with the quit
/// key ends the program. The line is complete as soon as every character was entered
/// correctly.
pub fn read_input_key(validator: &mut InputValidator, key: Key) -> (reaction: Reaction)
    ensures
        final(validator)@.wf(),
        (final(validator)@, reaction.actions@, reaction.outcome) == read_input_spec(
            old(validator)@,
            key,
        ),
{
    let mut actions: Vec<Action> = Vec::new();
    let _ = validator.index();
    match key {
        Key::Char(c) => {
            // Ignore <ENTER>
            if !is_enter(c) {
                // if the user starts typing remove the hint if shown
                clear_hint(validator, &mut actions);
                // only allow typing if the validator still accepts more characters
                if validator.accepts() {
                    if validator.check(c) {
                        actions.push(Action::PrintCorrect(c));
                    } else {
                        actions.push(Action::PrintIncorrect(c));
                    }
                }
            }
        },
        Key::Ctrl(c) => {
            if c == PROGRAM_QUIT_KEY {
                actions.push(Action::Exit);
                return Reaction { actions, outcome: Outcome::Quit };
            }
            if c == PROGRAM_PEEK_KEY {
                let inactive = match validator.hint_mode() {
                    HintMode::Active(_) => false,
                    HintMode::Inactive => true,
                };
                if inactive {
                    // go back to the last correct char or to index 0
                    match validator.first_incorrect() {
                        Some(first_incorrect) => {
                            let delta = validator.index() - first_incorrect;
                            validator.undo(delta);
                            if delta > 0 {
                                actions.push(Action::MoveLeft((delta % 0x10000) as u16));
                            }
                            actions.push(Action::ClearLine);
                        },
                        None => {},
                    }
                    actions.push(Action::SavePosition);
                }
                let ghost prepared = actions@;
                let ghost start = validator@;
                let mut revealed: usize = 0;
                while revealed < NUM_REVEALED_CHARS_IN_HINT
                    invariant
                        revealed <= NUM_REVEALED_CHARS_IN_HINT,
                        validator@.wf(),
                        (validator@, actions@) == hinted_times(start, prepared, revealed as nat),
                    decreases NUM_REVEALED_CHARS_IN_HINT - revealed,
                {
                    hint(validator, &mut actions);
                    revealed += 1;
                }
            }
        },
        Key::Backspace => {
            clear_hint(validator, &mut actions);
            if validator.index() > 0 {
                validator.undo(1);
                actions.push(Action::MoveLeft(1));
                actions.push(Action::ClearLine);
            }
        },
        Key::Other => {},
    }
    if validator.happy() {
        actions.push(Action::NewLine);
        Reaction { actions, outcome: Outcome::Done }
    } else {
        Reaction { actions, outcome: Outcome::Continue }
    }
}

/// The validator, the locations, the actions and the outcome after `key` was pressed
/// while the user fills in blanks. What is typed is checked against the validator where
/// it accepts a character, and the cursor moves on to the next blank. The backspace key
/// takes the last character back and puts the blank indicator back in its place. The
/// control key with the quit key ends the program.
pub open spec fn read_input_blanks_spec(
    v: InputValidatorView,
    locations: InputLocationsView,
    key: Key,
) -> (InputValidatorView, InputLocationsView, Seq<Action>, Outcome) {
    let none = Seq::<Action>::empty();
    match key {
        Key::Char(c) => if is_enter_spec(c) {
            (v, locations, none, Outcome::Continue)
        } else {
            let checked = if v.accepts() {
                none.push(print_checked(v, c))
            } else {
                none
            };
            (
                v.check(c),
                locations.moved_on(),
                match locations.following() {
                    Some((x, y)) => checked.push(Action::Goto(x, y)),
                    None => checked,
                },
                Outcome::Continue,
            )
        },
        Key::Ctrl(c) => if c == PROGRAM_QUIT_KEY {
            (v, locations, none.push(Action::Exit), Outcome::Quit)
        } else {
            (v, locations, none, Outcome::Continue)
        },
        Key::Backspace => if v.index > 0 {
            (
                v.undo(1),
                locations.moved_back(),
                match locations.preceding() {
                    Some((x, y)) => none.push(Action::Goto(x, y)).push(Action::PrintBlank).push(
                        Action::Goto(x, y),
                    ),
                    None => none,
                },
                Outcome::Continue,
            )
        } else {
            (v, locations, none, Outcome::Continue)
        },
        Key::Other => (v, locations, none, Outcome::Continue),
    }
}

/// Handles one key while the user fills in the blanks of a line.
pub fn read_input_blanks_key(
    validator: &mut InputValidator,
    locations: &mut InputLocations,
    key: Key,
) -> (reaction: Reaction)
    requires
        old(locations)@.wf(),
    ensures
        final(validator)@.wf(),
        final(locations)@.wf(),
        (final(validator)@, final(locations)@, reaction.actions@, reaction.outcome)
            == read_input_blanks_spec(old(validator)@, old(locations)@, key),
{
    let mut actions: Vec<Action> = Vec::new();
    let _ = validator.index();
    match key {
        Key::Char(c) => {
            // Ignore <ENTER>
            if !is_enter(c) {
                // only allow typing if the validator still accepts more characters
                if validator.accepts() {
                    if validator.check(c) {
                        actions.push(Action::PrintCorrect(c));
                    } else {
                        actions.push(Action::PrintIncorrect(c));
                    }
                }
                match locations.next() {
                    Some((x, y)) => {
                        actions.push(Action::Goto(x, y));
                    },
                    None => {},
                }
            }
        },
        Key::Ctrl(c) => {
            if c == PROGRAM_QUIT_KEY {
                actions.push(Action::Exit);
                return Reaction { actions, outcome: Outcome::Quit };
            }
        },
        Key::Backspace => {
            if validator.index() > 0 {
                validator.undo(1);
                match locations.prev() {
                    Some((x, y)) => {
                        actions.push(Action::Goto(x, y));
                        actions.push(Action::PrintBlank);
                        actions.push(Action::Goto(x, y));
                    },
                    None => {},
                }
            }
        },
        Key::Other => {},
    }
    Reaction { actions, outcome: Outcome::Continue }
}

/// The actions and the outcome after `key` was pressed while the return key is waited
/// for: the return key ends the wait, the control key with the quit key ends the
/// program, and every other key is ignored.
pub open spec fn wait_for_return_spec(key: Key) -> (Seq<Action>, Outcome) {
    let none = Seq::<Action>::empty();
    match key {
        Key::Char(c) => if is_enter_spec(c) {
            (none, Outcome::Done)
        } else {
            (none, Outcome::Continue)
        },
        Key::Ctrl(c) => if c == PROGRAM_QUIT_KEY {
            (none.push(Action::Exit), Outcome::Quit)
        } else {
            (none, Outcome::Continue)
        },
        _ => (none, Outcome::Continue),
    }
}

/// Handles one key while the return key is waited for.
pub fn wait_for_return_key(key: Key) -> (reaction: Reaction)
    ensures
        (reaction.actions@, reaction.outcome) == wait_for_return_spec(key),
{
    let mut actions: Vec<Action> = Vec::new();
    let outcome = match key {
        Key::Char(c) => if is_enter(c) {
            Outcome::Done
        } else {
            Outcome::Continue
        },
        Key::Ctrl(c) => if c == PROGRAM_QUIT_KEY {
            actions.push(Action::Exit);
            Outcome::Quit
        } else {
            Outcome::Continue
        },
        _ => Outcome::Continue,
    };
    Reaction { actions, outcome }
}

/// The line that tells the progress: the numbers of flashcards in the stages 1 to 5
/// between bars, then the number of flashcards that are left in stage 0.
pub open spec fn progress_spec(progress: Progress) -> Seq<char> {
    seq!['|'] + decimal_spec(progress.1 as nat) + seq!['|'] + decimal_spec(progress.2 as nat)
        + seq!['|'] + decimal_spec(progress.3 as nat) + seq!['|'] + decimal_spec(
        progress.4 as nat,
    ) + seq!['|'] + decimal_spec(progress.5 as nat) + seq!['|', ' ', 'l', 'e', 'f', 't', ':', ' ']
        + decimal_spec(progress.0 as nat)
}

/// Returns the line that tells the progress.
pub fn progress_line(progress: Progress) -> (line: String)
    ensures
        line@ == progress_spec(progress),
{
    let mut out: Vec<char> = Vec::new();
    out.push('|');
    push_decimal(&mut out, progress.1 as u64);
    out.push('|');
    push_decimal(&mut out, progress.2 as u64);
    out.push('|');
    push_decimal(&mut out, progress.3 as u64);
    out.push('|');
    push_decimal(&mut out, progress.4 as u64);
    out.push('|');
    push_decimal(&mut out, progress.5 as u64);
    out.push('|');
    out.push(' ');
    out.push('l');
    out.push('e');
    out.push('f');
    out.push('t');
    out.push(':');
    out.push(' ');
    push_decimal(&mut out, progress.0 as u64);
    assert(out@ == progress_spec(progress));
    string_of(&out)
}

} // verus!
