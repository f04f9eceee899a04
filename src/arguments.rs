use vstd::prelude::*;
use crate::exceptions::{CommandSyntaxException, SyntaxErrorKind, syntax_error};
use crate::string_reader::{StringReader, read_int_spec, read_bool_spec, read_quoted_spec, token_end};

verus! {

/// How an argument node reads its value.
#[derive(Copy, Clone, Debug, PartialEq, Eq, Structural)]
pub enum ArgumentType {
    /// An integer between `min` and `max`, both included.
    Integer { min: i32, max: i32 },
    /// `true` or `false`.
    Bool,
    /// One unquoted word.
    Word,
    /// One unquoted word, or a string in quotes that may hold spaces.
    QuotableString,
    /// The rest of the line.
    GreedyString,
}

/// A value that an argument node read. Text values are the input that the
/// argument's range covers.
#[derive(Copy, Clone, Debug, PartialEq, Eq, Structural)]
pub enum ArgumentValue {
    Integer(i32),
    Bool(bool),
    Text,
}

/// An integer argument with no bounds beyond those of `i32`.
pub fn integer() -> (r: ArgumentType)
    ensures
        r == (ArgumentType::Integer { min: i32::MIN, max: i32::MAX }),
{
    ArgumentType::Integer { min: i32::MIN, max: i32::MAX }
}

/// An integer argument with bounds.
pub fn integer_between(min: i32, max: i32) -> (r: ArgumentType)
    ensures
        r == (ArgumentType::Integer { min, max }),
{
    ArgumentType::Integer { min, max }
}

pub fn boolean() -> (r: ArgumentType)
    ensures
        r == ArgumentType::Bool,
{
    ArgumentType::Bool
}

pub fn word() -> (r: ArgumentType)
    ensures
        r == ArgumentType::Word,
{
    ArgumentType::Word
}

pub fn string() -> (r: ArgumentType)
    ensures
        r == ArgumentType::QuotableString,
{
    ArgumentType::QuotableString
}

/// Whether a character opens a quoted string.
pub open spec fn is_quote(c: char) -> bool {
    c == '"' || c == '\''
}

pub fn greedy_string() -> (r: ArgumentType)
    ensures
        r == ArgumentType::GreedyString,
{
    ArgumentType::GreedyString
}

/// Reading an argument of type `t` at `i`: its value and where it ends, or why it
/// fails.
pub open spec fn parse_argument_spec(t: ArgumentType, s: Seq<char>, i: int) -> Result<
    (ArgumentValue, int),
    CommandSyntaxException,
> {
    match t {
        ArgumentType::Integer { min, max } => match read_int_spec(s, i) {
            Ok((v, e)) => if v < min {
                Err(syntax_error(SyntaxErrorKind::IntegerTooLow { found: v, min }, i))
            } else if v > max {
                Err(syntax_error(SyntaxErrorKind::IntegerTooHigh { found: v, max }, i))
            } else {
                Ok((ArgumentValue::Integer(v), e))
            },
            Err(x) => Err(x),
        },
        ArgumentType::Bool => match read_bool_spec(s, i) {
            Ok((b, e)) => Ok((ArgumentValue::Bool(b), e)),
            Err(x) => Err(x),
        },
        ArgumentType::Word => Ok((ArgumentValue::Text, token_end(s, i))),
        ArgumentType::QuotableString => if 0 <= i < s.len() && is_quote(s[i]) {
            match read_quoted_spec(s, i) {
                Ok((_, e)) => Ok((ArgumentValue::Text, e)),
                Err(x) => Err(x),
            }
        } else {
            Ok((ArgumentValue::Text, token_end(s, i)))
        },
        ArgumentType::GreedyString => Ok((ArgumentValue::Text, s.len() as int)),
    }
}

impl ArgumentType {
    /// Reads a value of this type at the reader's cursor; on failure the cursor
    /// does not move.
    pub fn parse(&self, reader: &mut StringReader) -> (r: Result<ArgumentValue, CommandSyntaxException>)
        requires
            old(reader).wf(),
        ensures
            final(reader).wf(),
            final(reader).string == old(reader).string,
            match parse_argument_spec(*self, old(reader).string@, old(reader).cursor as int) {
                Ok((v, e)) => r == Ok::<ArgumentValue, CommandSyntaxException>(v)
                    && final(reader).cursor == e,
                Err(x) => r == Err::<ArgumentValue, CommandSyntaxException>(x)
                    && final(reader).cursor == old(reader).cursor,
            },
    {
        match self {
            ArgumentType::Integer { min, max } => {
                let start = reader.cursor;
                match reader.read_int() {
                    Ok(v) => {
                        if v < *min {
                            reader.cursor = start;
                            Err(
                                CommandSyntaxException::new(
                                    SyntaxErrorKind::IntegerTooLow { found: v, min: *min },
                                    start,
                                ),
                            )
                        } else if v > *max {
                            reader.cursor = start;
                            Err(
                                CommandSyntaxException::new(
                                    SyntaxErrorKind::IntegerTooHigh { found: v, max: *max },
                                    start,
                                ),
                            )
                        } else {
                            Ok(ArgumentValue::Integer(v))
                        }
                    },
                    Err(x) => Err(x),
                }
            },
            ArgumentType::Bool => match reader.read_boolean() {
                Ok(b) => Ok(ArgumentValue::Bool(b)),
                Err(x) => Err(x),
            },
            ArgumentType::Word => {
                let _ = reader.read_unquoted_string();
                Ok(ArgumentValue::Text)
            },
            ArgumentType::QuotableString => {
                if reader.cursor < reader.string.len() && (reader.string[reader.cursor] == '"'
                    || reader.string[reader.cursor] == '\'') {
                    match reader.read_quoted_string() {
                        Ok(_) => Ok(ArgumentValue::Text),
                        Err(x) => Err(x),
                    }
                } else {
                    let _ = reader.read_unquoted_string();
                    Ok(ArgumentValue::Text)
                }
            },
            ArgumentType::GreedyString => {
                let _ = reader.read_remaining();
                Ok(ArgumentValue::Text)
            },
        }
    }
}

} // verus!

verus! {

/// A value that is read ends no earlier than where reading began, and inside the
/// input.
pub proof fn lemma_parse_end_bounds(t: ArgumentType, s: Seq<char>, i: int)
    requires
        0 <= i <= s.len(),
    ensures
        parse_argument_spec(t, s, i) matches Ok((_, e)) ==> i <= e <= s.len(),
{
    crate::string_reader::lemma_token_end_bounds(s, i);
    if 0 <= i < s.len() {
        crate::string_reader::lemma_quoted_body_bounds(s, i + 1, s[i], Seq::empty());
    }
    crate::string_reader::lemma_number_end_bounds(s, i);
}

} // verus!
