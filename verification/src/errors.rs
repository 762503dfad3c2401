use vstd::prelude::*;
use vstd::string::StringExecFns;

verus! {

/// The ways a checklist command can fail.
#[derive(Clone, Copy, PartialEq, Eq, Structural, Debug)]
pub enum ChecklistError {
    /// A command was given fewer positional arguments than it needs.
    MissingArguments,
    /// The command word is not one of the five known commands.
    InvalidCommand,
    /// `add` found an existing task with the same name.
    DuplicateTask,
    /// `remove` or `check` found no task with the given name.
    TaskNotFound,
    /// A stored line does not split into exactly three fields.
    MalformedRecord,
    /// A due-date field is not a calendar date in `YYYY-MM-DD` form.
    InvalidDate,
    /// An interval field is not a decimal number that fits the interval type.
    InvalidInterval,
    /// Rescheduling ran past the last representable date.
    DateOverflow,
    /// The checklist file could not be read or written.
    IoFailure,
}

/// The message text reported for each failure.
pub open spec fn message_of(e: ChecklistError) -> Seq<char> {
    match e {
        ChecklistError::MissingArguments => "not enough parameters"@,
        ChecklistError::InvalidCommand => "invalid command"@,
        ChecklistError::DuplicateTask => "an entry with that name already exists"@,
        ChecklistError::TaskNotFound => "cannot find a task with that name"@,
        ChecklistError::MalformedRecord => "incorrect number of fields in a record, expected 3"@,
        ChecklistError::InvalidDate => "invalid due date, expected YYYY-MM-DD"@,
        ChecklistError::InvalidInterval => "invalid interval, expected a non-negative number of days"@,
        ChecklistError::DateOverflow => "could not calculate new due date"@,
        ChecklistError::IoFailure => "could not access the checklist file"@,
    }
}

impl ChecklistError {
    /// A human-readable message for reporting the failure.
    pub fn message(&self) -> (res: String)
        ensures
            res@ == message_of(*self),
    {
        match self {
            ChecklistError::MissingArguments => String::from_str("not enough parameters"),
            ChecklistError::InvalidCommand => String::from_str("invalid command"),
            ChecklistError::DuplicateTask => String::from_str(
                "an entry with that name already exists",
            ),
            ChecklistError::TaskNotFound => String::from_str("cannot find a task with that name"),
            ChecklistError::MalformedRecord => String::from_str(
                "incorrect number of fields in a record, expected 3",
            ),
            ChecklistError::InvalidDate => String::from_str("invalid due date, expected YYYY-MM-DD"),
            ChecklistError::InvalidInterval => String::from_str(
                "invalid interval, expected a non-negative number of days",
            ),
            ChecklistError::DateOverflow => String::from_str("could not calculate new due date"),
            ChecklistError::IoFailure => String::from_str("could not access the checklist file"),
        }
    }
}

} // verus!
