//! The errors that scheduling and the progress store report.

use vstd::prelude::*;
use vstd::string::StringExecFns;

verus! {

/// The broad classes of failure, for hosts that decide by class how to go on.
#[derive(Clone, Copy, Debug, PartialEq, Eq, Structural)]
pub enum ErrorKind {
    /// The caller broke the contract of an operation.
    Validation,
    /// The persisted progress cannot be trusted.
    DataIntegrity,
    /// The machine's clock cannot be used.
    Clock,
}

/// What can go wrong while scheduling flashcards or restoring progress.
#[derive(Clone, Copy, Debug, PartialEq, Eq, Structural)]
pub enum Error {
    /// A stage index outside of 1 to 5 was handed in.
    InvalidStage,
    /// The stage that was named holds no flashcard.
    EmptyStage,
    /// A record of the progress store names a stage outside of 1 to 5.
    CorruptStage,
    /// A line of the progress store is not of the form `fingerprint;stage;timestamp`.
    MalformedRecord,
    /// The system clock reads a time before the Unix epoch, or one too late to count.
    Clock,
}

impl Error {
    /// The class this error belongs to.
    pub open spec fn kind_spec(self) -> ErrorKind {
        match self {
            Error::InvalidStage | Error::EmptyStage => ErrorKind::Validation,
            Error::CorruptStage | Error::MalformedRecord => ErrorKind::DataIntegrity,
            Error::Clock => ErrorKind::Clock,
        }
    }

    /// Returns the class this error belongs to.
    pub fn kind(&self) -> (kind: ErrorKind)
        ensures
            kind == self.kind_spec(),
    {
        match self {
            Error::InvalidStage => ErrorKind::Validation,
            Error::EmptyStage => ErrorKind::Validation,
            Error::CorruptStage => ErrorKind::DataIntegrity,
            Error::MalformedRecord => ErrorKind::DataIntegrity,
            Error::Clock => ErrorKind::Clock,
        }
    }

    /// The diagnostic shown for this error.
    pub open spec fn message_spec(self) -> Seq<char> {
        match self {
            Error::InvalidStage => "error: invalid stage"@,
            Error::EmptyStage => "error: no flashcard in this stage"@,
            Error::CorruptStage => "error: invalid stage in progress database"@,
            Error::MalformedRecord => "error: malformed record in progress database"@,
            Error::Clock => "error determining system time"@,
        }
    }

    /// Returns the diagnostic shown for this error.
    pub fn message(&self) -> (text: String)
        ensures
            text@ == self.message_spec(),
    {
        match self {
            Error::InvalidStage => String::from_str("error: invalid stage"),
            Error::EmptyStage => String::from_str("error: no flashcard in this stage"),
            Error::CorruptStage => String::from_str("error: invalid stage in progress database"),
            Error::MalformedRecord => String::from_str(
                "error: malformed record in progress database",
            ),
            Error::Clock => String::from_str("error determining system time"),
        }
    }
}

} // verus!
