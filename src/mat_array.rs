use vstd::prelude::*;

use crate::convert::{Decode, Encode, MatValue};
use crate::datatype::DataType;
use crate::error::MatioError;
use crate::mat::{checked_name, product, DataView, Mat};

verus! {

/// An N-dimensional array: elements in the order of the dimensions `dims`,
/// the first dimension varying fastest.
pub struct MatArray<'a, T> {
    data: &'a [T],
    dims: Vec<usize>,
}

impl<'a, T> MatArray<'a, T> {
    /// The elements of the array.
    pub closed spec fn data_spec(&self) -> Seq<T> {
        self.data@
    }

    /// The dimensions of the array.
    pub closed spec fn dims_spec(&self) -> Seq<usize> {
        self.dims@
    }

    /// At least two dimensions, whose product is the number of elements.
    #[verifier::type_invariant]
    pub open spec fn well_formed(&self) -> bool {
        self.dims_spec().len() >= 2 && product(self.dims_spec()) == self.data_spec().len()
    }

    /// Creates the array of the elements `data` with the dimensions `dims`.
    pub fn new(data: &'a [T], dims: Vec<usize>) -> (r: MatArray<'a, T>)
        requires
            dims@.len() >= 2,
            product(dims@) == data@.len(),
        ensures
            r.data_spec() == data@,
            r.dims_spec() == dims@,
    {
        MatArray { data, dims }
    }
}

impl<'a, T: DataType> MatValue for MatArray<'a, T> {
    type V = (Seq<usize>, Seq<T>);

    open spec fn value(&self) -> (Seq<usize>, Seq<T>) {
        (self.dims_spec(), self.data_spec())
    }
}

impl<'a, T: DataType> Encode for MatArray<'a, T> {
    open spec fn holds(dims: Seq<usize>, data: DataView, v: (Seq<usize>, Seq<T>)) -> bool {
        dims == v.0 && data == T::wrap(v.1)
    }

    open spec fn encodable(v: (Seq<usize>, Seq<T>)) -> bool {
        true
    }

    open spec fn refusal(v: (Seq<usize>, Seq<T>), e: MatioError) -> bool {
        false
    }

    fn encode(self, name: &str) -> (r: Result<Mat, MatioError>) {
        proof {
            use_type_invariant(&self);
            T::lemma_wrap(self.data@);
        }
        let name = match checked_name(name) {
            Ok(n) => n,
            Err(e) => {
                return Err(e);
            },
        };
        let elements = vstd::slice::slice_to_vec(self.data);
        Ok(Mat::array(name, self.dims, T::into_data(elements)))
    }
}

/// A matrix of `nrows` rows and `ncols` columns, its elements column by column.
pub struct ColumnMajor<T> {
    pub nrows: usize,
    pub ncols: usize,
    pub data: Vec<T>,
}

impl<T: DataType> MatValue for ColumnMajor<T> {
    type V = (usize, usize, Seq<T>);

    open spec fn value(&self) -> (usize, usize, Seq<T>) {
        (self.nrows, self.ncols, self.data@)
    }
}

impl<T: DataType> Decode for ColumnMajor<T> {
    /// The matrix of a variable of this type and of rank 2: the first
    /// dimension counts the rows, the second the columns.
    open spec fn decode_spec(m: Mat) -> Result<(usize, usize, Seq<T>), MatioError> {
        if m@.data.mat_type() != T::mat_type_spec() {
            Err(MatioError::TypeMismatch(m.label(), T::mat_type_spec(), m@.data.mat_type()))
        } else if m@.dims.len() > 2 {
            Err(MatioError::Rank(m@.dims.len() as usize))
        } else {
            Ok((m@.dims[0], m@.dims[1], T::unwrap(m@.data).unwrap()))
        }
    }

    fn decode(m: &Mat) -> (r: Result<ColumnMajor<T>, MatioError>) {
        proof {
            use_type_invariant(m);
            T::lemma_unwrap(m@.data);
        }
        let data = match T::from_data(m.data()) {
            Some(v) => v,
            None => {
                return Err(m.type_mismatch(T::mat_type()));
            },
        };
        let rank = m.rank();
        if rank > 2 {
            return Err(MatioError::Rank(rank));
        }
        let dims = m.dims();
        Ok(ColumnMajor { nrows: dims[0], ncols: dims[1], data })
    }
}

} // verus!
