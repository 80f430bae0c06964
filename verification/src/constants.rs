//! The constants of the markup, of the scheduling and of the keys.

use vstd::prelude::*;

verus! {

/// Markup indicating the front side of a flashcard.
pub const MARKUP_FACE: char = '#';

/// Markup indicating that a line is a comment, and should be ignored by the
/// parser.
pub const MARKUP_COMMENT: char = '%';

/// Markup indicating a note for providing additional context.
pub const MARKUP_NOTE: char = '!';

/// Escape character in case markup and data collide.
pub const MARKUP_ESCAPE: char = '\\';

/// Number of revealed characters when requiring a hint.
pub const NUM_REVEALED_CHARS_IN_HINT: usize = 2;

/// Key to press, together with the control key, for quitting the program.
pub const PROGRAM_QUIT_KEY: char = 'q';

/// Key to press, together with the control key, for peeking at the solution.
pub const PROGRAM_PEEK_KEY: char = 'p';

/// Number of flashcards that can be newly added to the 1st queue.
pub const INITIAL_QUEUE_SIZE: usize = 3;

/// The time in milliseconds that a flashcard rests in the 1st stage.
pub const STAGE1_COOLDOWN: u64 = 0;

/// The time in milliseconds that a flashcard rests in the 2nd stage: one hour.
pub const STAGE2_COOLDOWN: u64 = 3_600_000;

/// The time in milliseconds that a flashcard rests in the 3rd stage: six hours.
pub const STAGE3_COOLDOWN: u64 = 21_600_000;

/// The time in milliseconds that a flashcard rests in the 4th stage: one day.
pub const STAGE4_COOLDOWN: u64 = 86_400_000;

/// The time in milliseconds that a flashcard rests in the 5th stage: one week.
pub const STAGE5_COOLDOWN: u64 = 604_800_000;

/// The number of `#` that open a flashcard whose lines are written in whole.
pub const TYPE_WRITE_THE_LINE: usize = 1;

/// The number of `#` that open a flashcard whose blanks are filled in.
pub const TYPE_FILL_THE_BLANK: usize = 2;

/// The character that stands for one character of a blank.
pub const BLANK_INDICATOR: char = '_';

} // verus!
