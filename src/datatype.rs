use vstd::prelude::*;

use crate::mat::{Data, DataView};

verus! {

/// The type of a MAT variable: its class, and for numeric arrays the element type.
#[derive(Debug, Clone, Copy, PartialEq, Eq, Structural)]
pub enum MatType {
    DOUBLE,
    SINGLE,
    INT8,
    INT16,
    INT32,
    INT64,
    UINT8,
    UINT16,
    UINT32,
    UINT64,
    CHAR,
    CELL,
    STRUCT,
}

impl MatType {
    /// The `(class, data type)` codes of the MAT format for this type.
    pub open spec fn tags_spec(self) -> (u8, u8) {
        match self {
            MatType::DOUBLE => (6, 9),
            MatType::SINGLE => (7, 7),
            MatType::INT8 => (8, 1),
            MatType::INT16 => (10, 3),
            MatType::INT32 => (12, 5),
            MatType::INT64 => (14, 12),
            MatType::UINT8 => (9, 2),
            MatType::UINT16 => (11, 4),
            MatType::UINT32 => (13, 6),
            MatType::UINT64 => (15, 13),
            MatType::CHAR => (4, 2),
            MatType::CELL => (1, 21),
            MatType::STRUCT => (2, 22),
        }
    }

    /// The name under which the type is reported.
    pub open spec fn name_spec(self) -> Seq<char> {
        match self {
            MatType::DOUBLE => "DOUBLE"@,
            MatType::SINGLE => "SINGLE"@,
            MatType::INT8 => "INT8"@,
            MatType::INT16 => "INT16"@,
            MatType::INT32 => "INT32"@,
            MatType::INT64 => "INT64"@,
            MatType::UINT8 => "UINT8"@,
            MatType::UINT16 => "UINT16"@,
            MatType::UINT32 => "UINT32"@,
            MatType::UINT64 => "UINT64"@,
            MatType::CHAR => "CHAR"@,
            MatType::CELL => "CELL"@,
            MatType::STRUCT => "STRUCT"@,
        }
    }

    /// Returns the `(class, data type)` codes of the MAT format for this type.
    pub fn tags(&self) -> (r: (u8, u8))
        ensures
            r == self.tags_spec(),
    {
        match self {
            MatType::DOUBLE => (6, 9),
            MatType::SINGLE => (7, 7),
            MatType::INT8 => (8, 1),
            MatType::INT16 => (10, 3),
            MatType::INT32 => (12, 5),
            MatType::INT64 => (14, 12),
            MatType::UINT8 => (9, 2),
            MatType::UINT16 => (11, 4),
            MatType::UINT32 => (13, 6),
            MatType::UINT64 => (15, 13),
            MatType::CHAR => (4, 2),
            MatType::CELL => (1, 21),
            MatType::STRUCT => (2, 22),
        }
    }

    /// Recognizes a `(class, data type)` pair read from a variable.
    pub fn from_tags(class: u8, data: u8) -> (r: Option<MatType>)
        ensures
            r matches Some(t) ==> t.tags_spec() == (class, data),
            r is None ==> forall|t: MatType| t.tags_spec() != (class, data),
    {
        match (class, data) {
            (6, 9) => Some(MatType::DOUBLE),
            (7, 7) => Some(MatType::SINGLE),
            (8, 1) => Some(MatType::INT8),
            (10, 3) => Some(MatType::INT16),
            (12, 5) => Some(MatType::INT32),
            (14, 12) => Some(MatType::INT64),
            (9, 2) => Some(MatType::UINT8),
            (11, 4) => Some(MatType::UINT16),
            (13, 6) => Some(MatType::UINT32),
            (15, 13) => Some(MatType::UINT64),
            (4, 2) => Some(MatType::CHAR),
            (1, 21) => Some(MatType::CELL),
            (2, 22) => Some(MatType::STRUCT),
            _ => None,
        }
    }

    /// Returns the name under which the type is reported.
    pub fn to_string(&self) -> (r: String)
        ensures
            r@ == self.name_spec(),
    {
        let s = match self {
            MatType::DOUBLE => "DOUBLE",
            MatType::SINGLE => "SINGLE",
            MatType::INT8 => "INT8",
            MatType::INT16 => "INT16",
            MatType::INT32 => "INT32",
            MatType::INT64 => "INT64",
            MatType::UINT8 => "UINT8",
            MatType::UINT16 => "UINT16",
            MatType::UINT32 => "UINT32",
            MatType::UINT64 => "UINT64",
            MatType::CHAR => "CHAR",
            MatType::CELL => "CELL",
            MatType::STRUCT => "STRUCT",
        };
        s.to_owned()
    }
}

/// Distinct types have distinct codes, so reading back the codes of a type
/// recognizes that same type.
pub proof fn lemma_tags_round_trip(t: MatType)
    ensures
        forall|u: MatType| u.tags_spec() == t.tags_spec() ==> u == t,
{
}


/// A double precision number, held as its IEEE-754 bit pattern.
#[derive(Debug, Clone, Copy, PartialEq, Eq, Structural)]
pub struct Double(pub u64);

/// A single precision number, held as its IEEE-754 bit pattern.
#[derive(Debug, Clone, Copy, PartialEq, Eq, Structural)]
pub struct Single(pub u32);

impl Double {
    /// The number with this bit pattern.
    pub fn from_bits(bits: u64) -> (r: Double)
        ensures
            r.0 == bits,
    {
        Double(bits)
    }

    /// The bit pattern of the number.
    pub fn to_bits(self) -> (r: u64)
        ensures
            r == self.0,
    {
        self.0
    }
}

impl Single {
    /// The number with this bit pattern.
    pub fn from_bits(bits: u32) -> (r: Single)
        ensures
            r.0 == bits,
    {
        Single(bits)
    }

    /// The bit pattern of the number.
    pub fn to_bits(self) -> (r: u32)
        ensures
            r == self.0,
    {
        self.0
    }
}

/// The Rust element types of numeric MAT arrays.
pub trait DataType: Sized + Copy {
    /// The type of a variable holding elements of this kind.
    spec fn mat_type_spec() -> MatType;

    /// The payload holding the elements `v`.
    spec fn wrap(v: Seq<Self>) -> DataView;

    /// The elements of a payload of this kind; `None` for a payload of another type.
    spec fn unwrap(d: DataView) -> Option<Seq<Self>>;

    /// Returns the type of a variable holding elements of this kind.
    fn mat_type() -> (r: MatType)
        ensures
            r == Self::mat_type_spec(),
    ;

    /// Returns the payload holding the elements `v`.
    fn into_data(v: Vec<Self>) -> (r: Data)
        ensures
            r@ == Self::wrap(v@),
    ;

    /// Returns a copy of the elements of a payload of this kind.
    fn from_data(d: &Data) -> (r: Option<Vec<Self>>)
        ensures
            match r {
                Some(x) => Self::unwrap(d@) == Some(x@),
                None => Self::unwrap(d@) is None,
            },
    ;

    /// Wrapping elements gives an array of this type from which they unwrap unchanged.
    proof fn lemma_wrap(v: Seq<Self>)
        ensures
            Self::unwrap(Self::wrap(v)) == Some(v),
            Self::wrap(v).mat_type() == Self::mat_type_spec(),
            Self::wrap(v).len() == v.len(),
            Self::wrap(v).children().len() == 0,
            !(Self::wrap(v) is Cell),
            !(Self::wrap(v) is Struct),
    ;

    /// A payload unwraps exactly when it has this type, into all its elements.
    proof fn lemma_unwrap(d: DataView)
        ensures
            Self::unwrap(d) is Some <==> d.mat_type() == Self::mat_type_spec(),
            Self::unwrap(d) matches Some(x) ==> x.len() == d.len(),
    ;
}

impl DataType for Double {
    open spec fn mat_type_spec() -> MatType {
        MatType::DOUBLE
    }

    open spec fn wrap(v: Seq<Double>) -> DataView {
        DataView::Double(v)
    }

    open spec fn unwrap(d: DataView) -> Option<Seq<Double>> {
        match d {
            DataView::Double(v) => Some(v),
            _ => None,
        }
    }

    fn mat_type() -> (r: MatType) {
        MatType::DOUBLE
    }

    fn into_data(v: Vec<Double>) -> (r: Data) {
        Data::Double(v)
    }

    fn from_data(d: &Data) -> (r: Option<Vec<Double>>) {
        match d {
            Data::Double(v) => Some(vstd::slice::slice_to_vec(v.as_slice())),
            _ => None,
        }
    }

    proof fn lemma_wrap(v: Seq<Double>) {
    }

    proof fn lemma_unwrap(d: DataView) {
    }
}

impl DataType for Single {
    open spec fn mat_type_spec() -> MatType {
        MatType::SINGLE
    }

    open spec fn wrap(v: Seq<Single>) -> DataView {
        DataView::Single(v)
    }

    open spec fn unwrap(d: DataView) -> Option<Seq<Single>> {
        match d {
            DataView::Single(v) => Some(v),
            _ => None,
        }
    }

    fn mat_type() -> (r: MatType) {
        MatType::SINGLE
    }

    fn into_data(v: Vec<Single>) -> (r: Data) {
        Data::Single(v)
    }

    fn from_data(d: &Data) -> (r: Option<Vec<Single>>) {
        match d {
            Data::Single(v) => Some(vstd::slice::slice_to_vec(v.as_slice())),
            _ => None,
        }
    }

    proof fn lemma_wrap(v: Seq<Single>) {
    }

    proof fn lemma_unwrap(d: DataView) {
    }
}

impl DataType for i8 {
    open spec fn mat_type_spec() -> MatType {
        MatType::INT8
    }

    open spec fn wrap(v: Seq<i8>) -> DataView {
        DataView::Int8(v)
    }

    open spec fn unwrap(d: DataView) -> Option<Seq<i8>> {
        match d {
            DataView::Int8(v) => Some(v),
            _ => None,
        }
    }

    fn mat_type() -> (r: MatType) {
        MatType::INT8
    }

    fn into_data(v: Vec<i8>) -> (r: Data) {
        Data::Int8(v)
    }

    fn from_data(d: &Data) -> (r: Option<Vec<i8>>) {
        match d {
            Data::Int8(v) => Some(vstd::slice::slice_to_vec(v.as_slice())),
            _ => None,
        }
    }

    proof fn lemma_wrap(v: Seq<i8>) {
    }

    proof fn lemma_unwrap(d: DataView) {
    }
}

impl DataType for i16 {
    open spec fn mat_type_spec() -> MatType {
        MatType::INT16
    }

    open spec fn wrap(v: Seq<i16>) -> DataView {
        DataView::Int16(v)
    }

    open spec fn unwrap(d: DataView) -> Option<Seq<i16>> {
        match d {
            DataView::Int16(v) => Some(v),
            _ => None,
        }
    }

    fn mat_type() -> (r: MatType) {
        MatType::INT16
    }

    fn into_data(v: Vec<i16>) -> (r: Data) {
        Data::Int16(v)
    }

    fn from_data(d: &Data) -> (r: Option<Vec<i16>>) {
        match d {
            Data::Int16(v) => Some(vstd::slice::slice_to_vec(v.as_slice())),
            _ => None,
        }
    }

    proof fn lemma_wrap(v: Seq<i16>) {
    }

    proof fn lemma_unwrap(d: DataView) {
    }
}

impl DataType for i32 {
    open spec fn mat_type_spec() -> MatType {
        MatType::INT32
    }

    open spec fn wrap(v: Seq<i32>) -> DataView {
        DataView::Int32(v)
    }

    open spec fn unwrap(d: DataView) -> Option<Seq<i32>> {
        match d {
            DataView::Int32(v) => Some(v),
            _ => None,
        }
    }

    fn mat_type() -> (r: MatType) {
        MatType::INT32
    }

    fn into_data(v: Vec<i32>) -> (r: Data) {
        Data::Int32(v)
    }

    fn from_data(d: &Data) -> (r: Option<Vec<i32>>) {
        match d {
            Data::Int32(v) => Some(vstd::slice::slice_to_vec(v.as_slice())),
            _ => None,
        }
    }

    proof fn lemma_wrap(v: Seq<i32>) {
    }

    proof fn lemma_unwrap(d: DataView) {
    }
}

impl DataType for i64 {
    open spec fn mat_type_spec() -> MatType {
        MatType::INT64
    }

    open spec fn wrap(v: Seq<i64>) -> DataView {
        DataView::Int64(v)
    }

    open spec fn unwrap(d: DataView) -> Option<Seq<i64>> {
        match d {
            DataView::Int64(v) => Some(v),
            _ => None,
        }
    }

    fn mat_type() -> (r: MatType) {
        MatType::INT64
    }

    fn into_data(v: Vec<i64>) -> (r: Data) {
        Data::Int64(v)
    }

    fn from_data(d: &Data) -> (r: Option<Vec<i64>>) {
        match d {
            Data::Int64(v) => Some(vstd::slice::slice_to_vec(v.as_slice())),
            _ => None,
        }
    }

    proof fn lemma_wrap(v: Seq<i64>) {
    }

    proof fn lemma_unwrap(d: DataView) {
    }
}

impl DataType for u8 {
    open spec fn mat_type_spec() -> MatType {
        MatType::UINT8
    }

    open spec fn wrap(v: Seq<u8>) -> DataView {
        DataView::UInt8(v)
    }

    open spec fn unwrap(d: DataView) -> Option<Seq<u8>> {
        match d {
            DataView::UInt8(v) => Some(v),
            _ => None,
        }
    }

    fn mat_type() -> (r: MatType) {
        MatType::UINT8
    }

    fn into_data(v: Vec<u8>) -> (r: Data) {
        Data::UInt8(v)
    }

    fn from_data(d: &Data) -> (r: Option<Vec<u8>>) {
        match d {
            Data::UInt8(v) => Some(vstd::slice::slice_to_vec(v.as_slice())),
            _ => None,
        }
    }

    proof fn lemma_wrap(v: Seq<u8>) {
    }

    proof fn lemma_unwrap(d: DataView) {
    }
}

impl DataType for u16 {
    open spec fn mat_type_spec() -> MatType {
        MatType::UINT16
    }

    open spec fn wrap(v: Seq<u16>) -> DataView {
        DataView::UInt16(v)
    }

    open spec fn unwrap(d: DataView) -> Option<Seq<u16>> {
        match d {
            DataView::UInt16(v) => Some(v),
            _ => None,
        }
    }

    fn mat_type() -> (r: MatType) {
        MatType::UINT16
    }

    fn into_data(v: Vec<u16>) -> (r: Data) {
        Data::UInt16(v)
    }

    fn from_data(d: &Data) -> (r: Option<Vec<u16>>) {
        match d {
            Data::UInt16(v) => Some(vstd::slice::slice_to_vec(v.as_slice())),
            _ => None,
        }
    }

    proof fn lemma_wrap(v: Seq<u16>) {
    }

    proof fn lemma_unwrap(d: DataView) {
    }
}

impl DataType for u32 {
    open spec fn mat_type_spec() -> MatType {
        MatType::UINT32
    }

    open spec fn wrap(v: Seq<u32>) -> DataView {
        DataView::UInt32(v)
    }

    open spec fn unwrap(d: DataView) -> Option<Seq<u32>> {
        match d {
            DataView::UInt32(v) => Some(v),
            _ => None,
        }
    }

    fn mat_type() -> (r: MatType) {
        MatType::UINT32
    }

    fn into_data(v: Vec<u32>) -> (r: Data) {
        Data::UInt32(v)
    }

    fn from_data(d: &Data) -> (r: Option<Vec<u32>>) {
        match d {
            Data::UInt32(v) => Some(vstd::slice::slice_to_vec(v.as_slice())),
            _ => None,
        }
    }

    proof fn lemma_wrap(v: Seq<u32>) {
    }

    proof fn lemma_unwrap(d: DataView) {
    }
}

impl DataType for u64 {
    open spec fn mat_type_spec() -> MatType {
        MatType::UINT64
    }

    open spec fn wrap(v: Seq<u64>) -> DataView {
        DataView::UInt64(v)
    }

    open spec fn unwrap(d: DataView) -> Option<Seq<u64>> {
        match d {
            DataView::UInt64(v) => Some(v),
            _ => None,
        }
    }

    fn mat_type() -> (r: MatType) {
        MatType::UINT64
    }

    fn into_data(v: Vec<u64>) -> (r: Data) {
        Data::UInt64(v)
    }

    fn from_data(d: &Data) -> (r: Option<Vec<u64>>) {
        match d {
            Data::UInt64(v) => Some(vstd::slice::slice_to_vec(v.as_slice())),
            _ => None,
        }
    }

    proof fn lemma_wrap(v: Seq<u64>) {
    }

    proof fn lemma_unwrap(d: DataView) {
    }
}

} // verus!
