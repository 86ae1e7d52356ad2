use vstd::prelude::*;

use crate::datatype::DataType;
use crate::error::MatioError;
use crate::mat::{checked_name, lemma_product_row, product, valid_name, DataView, Mat, Ownership};

verus! {

/// A Rust value, seen as the mathematical value that it stands for.
pub trait MatValue {
    type V;

    /// The mathematical value of `self`.
    spec fn value(&self) -> Self::V;
}

/// Rust values that can be written as a MAT variable.
pub trait Encode: MatValue + Sized {
    /// Whether a variable with dimensions `dims` and payload `data` holds `v`
    /// in the form that this type is written in.
    spec fn holds(dims: Seq<usize>, data: DataView, v: Self::V) -> bool;

    /// Whether the value `v` can be written at all (names aside).
    spec fn encodable(v: Self::V) -> bool;

    /// Whether `e` is the error reported for a value `v` that cannot be written.
    spec fn refusal(v: Self::V, e: MatioError) -> bool;

    /// Writes `self` as a new variable named `name`.
    fn encode(self, name: &str) -> (r: Result<Mat, MatioError>)
        ensures
            r is Ok <==> valid_name(name@) && Self::encodable(self.value()),
            r matches Ok(m) ==> {
                &&& m@.name == name@
                &&& m@.owner == Ownership::Owned
                &&& Self::holds(m@.dims, m@.data, self.value())
            },
            !valid_name(name@) ==> (r matches Err(MatioError::MatName(n)) && n@ == name@),
            valid_name(name@) && !Self::encodable(self.value()) ==> (r matches Err(e)
                && Self::refusal(self.value(), e)),
    ;
}

/// Rust values that can be read from a MAT variable.
pub trait Decode: MatValue + Sized {
    /// What reading the variable `m` gives: the value read, or the error.
    spec fn decode_spec(m: Mat) -> Result<Self::V, MatioError>;

    /// Reads a value of this type from the variable `m`.
    fn decode(m: &Mat) -> (r: Result<Self, MatioError>)
        ensures
            match r {
                Ok(x) => Self::decode_spec(*m) == Ok::<Self::V, MatioError>(x.value()),
                Err(e) => Self::decode_spec(*m) == Err::<Self::V, MatioError>(e),
            },
    ;
}

/// Whether `r` is the outcome of writing `data` as a variable named `name`:
/// the variable holds the value of `data`, is named `name` and owns its
/// payload; a name with a NUL character, or a value that cannot be written,
/// is refused with the matching error.
pub open spec fn encoded_as<T: Encode>(name: Seq<char>, data: T, r: Result<Mat, MatioError>) -> bool {
    &&& r is Ok <==> valid_name(name) && T::encodable(data.value())
    &&& r matches Ok(m) ==> {
        &&& m@.name == name
        &&& m@.owner == Ownership::Owned
        &&& T::holds(m@.dims, m@.data, data.value())
    }
    &&& !valid_name(name) ==> (r matches Err(MatioError::MatName(n)) && n@ == name)
    &&& valid_name(name) && !T::encodable(data.value()) ==> (r matches Err(e) && T::refusal(
        data.value(),
        e,
    ))
}

/// Whether `r` is the outcome of reading a `T` from the variable `m`, as
/// [`Decode::decode_spec`] describes it.
pub open spec fn decoded_as<T: Decode>(m: Mat, r: Result<T, MatioError>) -> bool {
    match r {
        Ok(x) => T::decode_spec(m) == Ok::<T::V, MatioError>(x.value()),
        Err(e) => T::decode_spec(m) == Err::<T::V, MatioError>(e),
    }
}

/// Types that read back what they write.
pub trait Codec: Encode + Decode {
    /// Reading a variable that holds `v` in this type's form gives `v` back.
    proof fn lemma_round_trip(m: Mat, v: Self::V)
        requires
            Self::holds(m@.dims, m@.data, v),
        ensures
            Self::decode_spec(m) == Ok::<Self::V, MatioError>(v),
    ;
}

/// Converts a Rust value into a [`Mat`] variable.
pub trait MayBeFrom<T>: Sized {
    fn maybe_from(name: &str, data: T) -> Result<Self, MatioError>;
}

/// Converts a [`Mat`] variable into a Rust value.
pub trait MayBeInto<T> {
    fn maybe_into(self) -> Result<T, MatioError>;
}

impl<T: Encode> MayBeFrom<T> for Mat {
    fn maybe_from(name: &str, data: T) -> (r: Result<Mat, MatioError>)
        ensures
            encoded_as::<T>(name@, data, r),
    {
        data.encode(name)
    }
}

impl<'a, T: Decode> MayBeInto<T> for &'a Mat {
    fn maybe_into(self) -> (r: Result<T, MatioError>)
        ensures
            decoded_as::<T>(*self, r),
    {
        T::decode(self)
    }
}

impl<T: Decode> MayBeInto<T> for Mat {
    fn maybe_into(self) -> (r: Result<T, MatioError>)
        ensures
            decoded_as::<T>(self, r),
    {
        T::decode(&self)
    }
}

/// The scalar form: a `1 x 1` array of the value's type.
pub open spec fn holds_scalar<T: DataType>(dims: Seq<usize>, data: DataView, v: T) -> bool {
    dims == seq![1usize, 1usize] && data == T::wrap(seq![v])
}

/// The row form: a `1 x n` array of the values' type.
pub open spec fn holds_row<T: DataType>(dims: Seq<usize>, data: DataView, v: Seq<T>) -> bool {
    dims == seq![1usize, v.len() as usize] && data == T::wrap(v)
}

impl<T: DataType> MatValue for T {
    type V = T;

    open spec fn value(&self) -> T {
        *self
    }
}

impl<T: DataType> Encode for T {
    open spec fn holds(dims: Seq<usize>, data: DataView, v: T) -> bool {
        holds_scalar(dims, data, v)
    }

    open spec fn encodable(v: T) -> bool {
        true
    }

    open spec fn refusal(v: T, e: MatioError) -> bool {
        false
    }

    fn encode(self, name: &str) -> (r: Result<Mat, MatioError>) {
        let name = match checked_name(name) {
            Ok(n) => n,
            Err(e) => {
                return Err(e);
            },
        };
        let mut v: Vec<T> = Vec::new();
        v.push(self);
        let mut dims: Vec<usize> = Vec::new();
        dims.push(1);
        dims.push(1);
        proof {
            T::lemma_wrap(v@);
            lemma_product_row(1);
            assert(dims@ =~= seq![1usize, 1usize]);
            assert(v@ =~= seq![self]);
        }
        Ok(Mat::array(name, dims, T::into_data(v)))
    }
}

impl<T: DataType> Decode for T {
    open spec fn decode_spec(m: Mat) -> Result<T, MatioError> {
        if m@.data.mat_type() != T::mat_type_spec() {
            Err(MatioError::TypeMismatch(m.label(), T::mat_type_spec(), m@.data.mat_type()))
        } else if product(m@.dims) != 1 {
            Err(MatioError::Scalar(m.label(), product(m@.dims) as usize))
        } else {
            Ok(T::unwrap(m@.data).unwrap()[0])
        }
    }

    fn decode(m: &Mat) -> (r: Result<T, MatioError>) {
        proof {
            use_type_invariant(m);
            T::lemma_unwrap(m@.data);
            T::lemma_wrap(Seq::empty());
        }
        if m.mat_type() != T::mat_type() {
            return Err(m.type_mismatch(T::mat_type()));
        }
        let n = m.len();
        if n != 1 {
            return Err(MatioError::Scalar(m.label_clone(), n));
        }
        match T::from_data(m.data()) {
            Some(v) => Ok(v[0]),
            None => Err(m.type_mismatch(T::mat_type())),
        }
    }
}

impl<T: DataType> Codec for T {
    proof fn lemma_round_trip(m: Mat, v: T) {
        T::lemma_wrap(seq![v]);
        lemma_product_row(1);
    }
}

impl<T: DataType> MatValue for Vec<T> {
    type V = Seq<T>;

    open spec fn value(&self) -> Seq<T> {
        self@
    }
}

impl<T: DataType> Encode for Vec<T> {
    open spec fn holds(dims: Seq<usize>, data: DataView, v: Seq<T>) -> bool {
        holds_row(dims, data, v)
    }

    open spec fn encodable(v: Seq<T>) -> bool {
        true
    }

    open spec fn refusal(v: Seq<T>, e: MatioError) -> bool {
        false
    }

    fn encode(self, name: &str) -> (r: Result<Mat, MatioError>) {
        encode_row(name, self)
    }
}

impl<T: DataType> Decode for Vec<T> {
    open spec fn decode_spec(m: Mat) -> Result<Seq<T>, MatioError> {
        if m@.data.mat_type() != T::mat_type_spec() {
            Err(MatioError::TypeMismatch(m.label(), T::mat_type_spec(), m@.data.mat_type()))
        } else {
            Ok(T::unwrap(m@.data).unwrap())
        }
    }

    fn decode(m: &Mat) -> (r: Result<Vec<T>, MatioError>) {
        proof {
            T::lemma_unwrap(m@.data);
        }
        match T::from_data(m.data()) {
            Some(v) => Ok(v),
            None => Err(m.type_mismatch(T::mat_type())),
        }
    }
}

impl<T: DataType> Codec for Vec<T> {
    proof fn lemma_round_trip(m: Mat, v: Seq<T>) {
        T::lemma_wrap(v);
    }
}

impl<'a, T: DataType> MatValue for &'a Vec<T> {
    type V = Seq<T>;

    open spec fn value(&self) -> Seq<T> {
        (*self)@
    }
}

impl<'a, T: DataType> Encode for &'a Vec<T> {
    open spec fn holds(dims: Seq<usize>, data: DataView, v: Seq<T>) -> bool {
        holds_row(dims, data, v)
    }

    open spec fn encodable(v: Seq<T>) -> bool {
        true
    }

    open spec fn refusal(v: Seq<T>, e: MatioError) -> bool {
        false
    }

    fn encode(self, name: &str) -> (r: Result<Mat, MatioError>) {
        encode_row(name, vstd::slice::slice_to_vec(self.as_slice()))
    }
}

impl<'a, T: DataType> MatValue for &'a [T] {
    type V = Seq<T>;

    open spec fn value(&self) -> Seq<T> {
        (*self)@
    }
}

impl<'a, T: DataType> Encode for &'a [T] {
    open spec fn holds(dims: Seq<usize>, data: DataView, v: Seq<T>) -> bool {
        holds_row(dims, data, v)
    }

    open spec fn encodable(v: Seq<T>) -> bool {
        true
    }

    open spec fn refusal(v: Seq<T>, e: MatioError) -> bool {
        false
    }

    fn encode(self, name: &str) -> (r: Result<Mat, MatioError>) {
        encode_row(name, vstd::slice::slice_to_vec(self))
    }
}

/// Writes the elements `v` as a `1 x n` array named `name`.
fn encode_row<T: DataType>(name: &str, v: Vec<T>) -> (r: Result<Mat, MatioError>)
    ensures
        r is Ok <==> valid_name(name@),
        r matches Ok(m) ==> {
            &&& m@.name == name@
            &&& m@.owner == Ownership::Owned
            &&& holds_row(m@.dims, m@.data, v@)
        },
        !valid_name(name@) ==> (r matches Err(MatioError::MatName(n)) && n@ == name@),
{
    let name = match checked_name(name) {
        Ok(n) => n,
        Err(e) => {
            return Err(e);
        },
    };
    let n = v.len();
    let mut dims: Vec<usize> = Vec::new();
    dims.push(1);
    dims.push(n);
    proof {
        T::lemma_wrap(v@);
        lemma_product_row(n);
        assert(dims@ =~= seq![1usize, n]);
    }
    Ok(Mat::array(name, dims, T::into_data(v)))
}

} // verus!
