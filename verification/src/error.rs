//! The errors of compiling a template.

use crate::data::AllayDataError;
use vstd::prelude::*;

verus! {

/// Errors that can occur during interpretation.
#[derive(Debug)]
pub enum InterpretError {
    /// A value does not have the type an operation needs.
    DataError(AllayDataError),
    /// A field access has no steps.
    FieldNotFound(String),
    /// A list index is past the end of the list.
    IndexOutOfBounds(usize),
    /// A variable is not defined.
    VariableNotFound(String),
    /// An integer operation overflows, or divides by zero.
    ArithmeticError(String),
    /// No template file is found for an include or a shortcode.
    IncludePathNotFound(String),
}

/// Errors that can occur during compilation (parsing and interpretation).
#[derive(Debug)]
pub enum CompileError {
    /// The template does not read up to its end: reading stopped at this
    /// character index.
    ParsingError(usize),
    /// A block shortcode is closed with another name than its own.
    ShortCodeInconsistent(String),
    /// A number does not fit its type.
    InvalidNumber(String),
    /// A file is neither markdown nor HTML.
    FileTypeNotSupported(String),
    /// A file could not be read.
    FileError(String),
    /// Interpretation failed.
    InterpretError(InterpretError),
}


/// An interpretation error, as plain data: the kind of error and what it names.
pub enum IErr {
    /// A value does not have the type an operation needs, with the message.
    Type(Seq<char>),
    /// Another error on data.
    Data(AllayDataError),
    /// A field access has no steps, with the message.
    FieldNotFound(Seq<char>),
    IndexOut(usize),
    VarNotFound(Seq<char>),
    /// Overflow or division by zero, with the message.
    Arith(Seq<char>),
    PathNotFound(Seq<char>),
}

impl InterpretError {
    pub open spec fn view(&self) -> IErr {
        match self {
            InterpretError::DataError(AllayDataError::TypeConversion(m)) => IErr::Type(m@),
            InterpretError::DataError(e) => IErr::Data(*e),
            InterpretError::FieldNotFound(m) => IErr::FieldNotFound(m@),
            InterpretError::IndexOutOfBounds(i) => IErr::IndexOut(*i),
            InterpretError::VariableNotFound(v) => IErr::VarNotFound(v@),
            InterpretError::ArithmeticError(m) => IErr::Arith(m@),
            InterpretError::IncludePathNotFound(p) => IErr::PathNotFound(p@),
        }
    }
}

/// A type error with a message.
pub fn type_error(msg: &str) -> (r: InterpretError)
    ensures
        r.view() == IErr::Type(msg@),
{
    InterpretError::DataError(AllayDataError::TypeConversion(msg.to_string()))
}

} // verus!
