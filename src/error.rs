use vstd::prelude::*;

use crate::datatype::MatType;

verus! {

/// What can go wrong when converting between Rust values and MAT variables.
#[derive(Debug)]
pub enum MatioError {
    /// The MAT file does not exist.
    NoFile(String),
    /// Opening the MAT file at this path failed.
    MatOpen(String),
    /// This variable or field name holds a NUL character.
    MatName(String),
    /// Reading the variable of this name failed.
    MatVarRead(String),
    /// Creating the variable of this name failed.
    MatVarCreate(String),
    /// The variable of this name has the second type where the first was expected.
    TypeMismatch(String, MatType, MatType),
    /// The variable of this name holds this many elements where a scalar was expected.
    Scalar(String, usize),
    /// The cell array of this name holds this number of elements, not the
    /// number of items requested.
    Arity(String, usize),
    /// The characters of the variable of this name are not valid UTF-8.
    Utf8(String),
    /// The structure has no field of this name.
    FieldNotFound(String),
    /// A structure was requested without any field.
    NoFields,
    /// The fields of a structure array have these different numbers of elements.
    FieldSize(Vec<usize>),
    /// A matrix was requested from a variable of this rank.
    Rank(usize),
    /// Closing the MAT file failed.
    MatClose,
}

} // verus!
