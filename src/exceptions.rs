use vstd::prelude::*;

verus! {

/// What went wrong while reading a command.
#[derive(Copy, Clone, Debug, PartialEq, Eq, Structural)]
pub enum SyntaxErrorKind {
    /// No number was found where one was expected.
    ReaderExpectedInt,
    /// The text up to `end` is not a valid integer.
    ReaderInvalidInt { end: usize },
    /// The integer read is below the declared minimum.
    IntegerTooLow { found: i32, min: i32 },
    /// The integer read is above the declared maximum.
    IntegerTooHigh { found: i32, max: i32 },
    /// No word was found where a boolean was expected.
    ReaderExpectedBool,
    /// The word up to `end` is neither `true` nor `false`.
    ReaderInvalidBool { end: usize },
    /// A quoted string was expected.
    ReaderExpectedStartOfQuote,
    /// A quoted string has no closing quote.
    ReaderExpectedEndOfQuote,
    /// A backslash in a quoted string escapes a character that needs no escape.
    ReaderInvalidEscape { character: char },
    /// A literal was expected here.
    LiteralIncorrect,
    /// An argument was followed by something other than a space.
    DispatcherExpectedArgumentSeparator,
    /// No command matches the input.
    DispatcherUnknownCommand,
    /// The input goes on after a complete command.
    DispatcherUnknownArgument,
}

/// A failure to read a command, with the position in the input where it happened.
#[derive(Copy, Clone, Debug, PartialEq, Eq, Structural)]
pub struct CommandSyntaxException {
    pub kind: SyntaxErrorKind,
    pub cursor: usize,
}

/// Why a command could not be run.
#[derive(Clone, Debug)]
pub enum CommandError {
    /// The input does not form a command.
    Syntax(CommandSyntaxException),
    /// A command or a fork reported a failure of its own.
    Failed(String),
}

pub open spec fn syntax_error(kind: SyntaxErrorKind, cursor: int) -> CommandSyntaxException {
    CommandSyntaxException { kind, cursor: cursor as usize }
}

impl CommandSyntaxException {
    pub fn new(kind: SyntaxErrorKind, cursor: usize) -> (r: CommandSyntaxException)
        ensures
            r == syntax_error(kind, cursor as int),
    {
        CommandSyntaxException { kind, cursor }
    }
}

} // verus!
