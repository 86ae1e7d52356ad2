//! Typed marshalling between Rust values and the variable graph of MAT files.
//!
//! A [`Mat`] is one node of that graph: a numeric or character array, a cell
//! array or a structure. Values are written with [`MayBeFrom`] and read back
//! with [`MayBeInto`]; structures are assembled with [`MatStructBuilder`] and
//! heterogeneous cell arrays with [`cell::Cell`]. The properties that hold
//! across these conversions are stated and proved in [`laws`].

mod builder;
pub mod cell;
mod convert;
mod datatype;
mod error;
pub mod laws;
mod mat;
mod mat_array;
mod matstruct;
mod text;

pub use builder::{AccessMode, Builder};
pub use convert::{Codec, Decode, Encode, MatValue, MayBeFrom, MayBeInto};
pub use datatype::{DataType, Double, MatType, Single};
pub use error::MatioError;
pub use mat::{Data, Mat, Ownership};
pub use mat_array::{ColumnMajor, MatArray};
pub use matstruct::MatStructBuilder;
