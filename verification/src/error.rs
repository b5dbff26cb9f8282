//! The errors that commands answer with.

use vstd::prelude::*;

use crate::bytes::{lit, put, put_text, text};

verus! {

/// An error reply.
pub enum RedisError {
    /// The command was called with the wrong number of arguments.
    WrongNumberOfArgs(Vec<u8>),
    /// The arguments do not follow the command's grammar.
    Syntax(Vec<u8>),
    /// The key holds a value of another type.
    WrongType,
    /// An argument is not an integer, or does not fit.
    NotInteger,
    /// An argument is not a float.
    NotFloat,
    /// An argument lies outside the accepted range.
    OutOfRange,
    /// A complete error line, code included.
    Runtime(Vec<u8>),
}

/// What an error says.
#[verifier::ext_equal]
pub enum ErrV {
    WrongNumberOfArgs(Seq<u8>),
    Syntax(Seq<u8>),
    WrongType,
    NotInteger,
    NotFloat,
    OutOfRange,
    Runtime(Seq<u8>),
}

impl View for RedisError {
    type V = ErrV;

    open spec fn view(&self) -> ErrV {
        match self {
            RedisError::WrongNumberOfArgs(c) => ErrV::WrongNumberOfArgs(c@),
            RedisError::Syntax(m) => ErrV::Syntax(m@),
            RedisError::WrongType => ErrV::WrongType,
            RedisError::NotInteger => ErrV::NotInteger,
            RedisError::NotFloat => ErrV::NotFloat,
            RedisError::OutOfRange => ErrV::OutOfRange,
            RedisError::Runtime(m) => ErrV::Runtime(m@),
        }
    }
}

/// The error for a wrong number of arguments of `command`.
pub open spec fn wrong_args(command: Seq<char>) -> ErrV {
    ErrV::WrongNumberOfArgs(text(command))
}

/// A syntax error with the given message.
pub open spec fn syntax(message: Seq<char>) -> ErrV {
    ErrV::Syntax(text(message))
}

/// An error with the given complete line.
pub open spec fn runtime(line: Seq<char>) -> ErrV {
    ErrV::Runtime(text(line))
}

/// The error line of an error, without the leading `-` and the line end.
pub open spec fn error_line(e: ErrV) -> Seq<u8> {
    match e {
        ErrV::WrongNumberOfArgs(c) => text("ERR wrong number of arguments for '"@) + c + text(
            "' command"@,
        ),
        ErrV::Syntax(m) => text("ERR "@) + m,
        ErrV::WrongType => text(
            "WRONGTYPE Operation against a key holding the wrong kind of value"@,
        ),
        ErrV::NotInteger => text("ERR value is not an integer or out of range"@),
        ErrV::NotFloat => text("ERR value is not a valid float"@),
        ErrV::OutOfRange => text("ERR value is out of range"@),
        ErrV::Runtime(m) => m,
    }
}

impl RedisError {
    /// The error for a wrong number of arguments of `command`.
    pub fn wrong_number_of_args(command: &str) -> (r: RedisError)
        ensures
            r@ == wrong_args(command@),
    {
        RedisError::WrongNumberOfArgs(lit(command))
    }

    /// A syntax error.
    pub fn syntax(message: &str) -> (r: RedisError)
        ensures
            r@ == syntax(message@),
    {
        RedisError::Syntax(lit(message))
    }

    /// An error with a complete line.
    pub fn runtime(line: &str) -> (r: RedisError)
        ensures
            r@ == runtime(line@),
    {
        RedisError::Runtime(lit(line))
    }

    /// The error line, without the leading `-` and the line end.
    pub fn to_resp_payload(&self) -> (r: Vec<u8>)
        ensures
            r@ == error_line(self@),
    {
        match self {
            RedisError::WrongNumberOfArgs(c) => {
                let mut r: Vec<u8> = lit("ERR wrong number of arguments for '");
                put(&mut r, c);
                put_text(&mut r, "' command");
                r
            },
            RedisError::Syntax(m) => {
                let mut r: Vec<u8> = lit("ERR ");
                put(&mut r, m);
                r
            },
            RedisError::WrongType => lit(
                "WRONGTYPE Operation against a key holding the wrong kind of value",
            ),
            RedisError::NotInteger => lit("ERR value is not an integer or out of range"),
            RedisError::NotFloat => lit("ERR value is not a valid float"),
            RedisError::OutOfRange => lit("ERR value is out of range"),
            RedisError::Runtime(m) => crate::bytes::dup(m),
        }
    }
}

} // verus!
