//! Properties that hold across the conversion functions.

use vstd::prelude::*;
use vstd::utf8::*;

use crate::cell::{Cell, ToMat};
use crate::convert::{encoded_as, Codec, Decode, Encode, MatValue};
use crate::datatype::DataType;
use crate::error::MatioError;
use crate::mat::{
    below_borrowed, frees, frees_all, lemma_frees_borrowed, lemma_frees_owned, valid_name, DataView,
    Mat, Ownership,
};

verus! {

broadcast use encode_utf8_valid_utf8, encode_utf8_decode_utf8;

/// Writing a value under a valid name and reading it back gives the value.
pub proof fn lemma_round_trip<T: Codec>(name: Seq<char>, data: T)
    requires
        valid_name(name),
        T::encodable(data.value()),
    ensures
        forall|r: Result<Mat, MatioError>| #[trigger]
            encoded_as(name, data, r) ==> r is Ok && T::decode_spec(r->Ok_0) == Ok::<
                T::V,
                MatioError,
            >(data.value()),
{
    assert forall|r: Result<Mat, MatioError>| #[trigger] encoded_as(name, data, r) implies r is Ok
        && T::decode_spec(r->Ok_0) == Ok::<T::V, MatioError>(data.value()) by {
        if encoded_as(name, data, r) {
            T::lemma_round_trip(r->Ok_0, data.value());
        }
    }
}

/// Every number, of every numeric kind, reads back as itself.
pub proof fn lemma_scalar_round_trip<T: DataType>(name: Seq<char>, v: T)
    requires
        valid_name(name),
    ensures
        forall|r: Result<Mat, MatioError>| #[trigger]
            encoded_as(name, v, r) ==> r is Ok && T::decode_spec(r->Ok_0) == Ok::<T, MatioError>(v),
{
    lemma_round_trip(name, v);
}

/// Every array, of every numeric kind and any length, reads back with the
/// same elements in the same order.
pub proof fn lemma_array_round_trip<T: DataType>(name: Seq<char>, v: Vec<T>)
    requires
        valid_name(name),
    ensures
        forall|r: Result<Mat, MatioError>| #[trigger]
            encoded_as(name, v, r) ==> r is Ok && <Vec<T> as Decode>::decode_spec(r->Ok_0) == Ok::<
                Seq<T>,
                MatioError,
            >(v@),
{
    lemma_round_trip(name, v);
}

/// Every text is written as its UTF-8 bytes and reads back as itself.
pub proof fn lemma_text_round_trip(name: Seq<char>, s: &str)
    requires
        valid_name(name),
    ensures
        forall|r: Result<Mat, MatioError>| #[trigger]
            encoded_as(name, s, r) ==> {
                &&& r is Ok
                &&& r->Ok_0@.data == DataView::Char(encode_utf8(s@))
                &&& <String as Decode>::decode_spec(r->Ok_0) == Ok::<Seq<char>, MatioError>(s@)
            },
{
}

/// A cell array reads back with every item in its place.
pub proof fn lemma_cell_round_trip<T: Codec, C: ToMat>(name: Seq<char>, c: Cell<T, C>)
    requires
        valid_name(name),
        <Cell<T, C> as Encode>::encodable(c.value()),
    ensures
        forall|r: Result<Mat, MatioError>| #[trigger]
            encoded_as(name, c, r) ==> r is Ok && <Cell<T, C> as Decode>::decode_spec(r->Ok_0)
                == Ok::<(T::V, C::V), MatioError>(c.value()),
{
    lemma_round_trip(name, c);
}

/// Reading a variable as a number or an array of another numeric kind, or
/// of any other type, is refused as a type mismatch.
pub proof fn lemma_type_mismatch<T: DataType>(m: Mat)
    requires
        m@.data.mat_type() != T::mat_type_spec(),
    ensures
        T::decode_spec(m) == Err::<T, MatioError>(
            MatioError::TypeMismatch(m.label(), T::mat_type_spec(), m@.data.mat_type()),
        ),
        <Vec<T> as Decode>::decode_spec(m) == Err::<Seq<T>, MatioError>(
            MatioError::TypeMismatch(m.label(), T::mat_type_spec(), m@.data.mat_type()),
        ),
{
}

/// Variables that each own their payload, made the fields of a structure,
/// are owned by it: discarding the structure frees one payload, and none of
/// the fields frees its own.
pub proof fn lemma_struct_frees_once(name: Seq<char>, fields: Vec<Mat>, s: Mat)
    requires
        forall|i: int|
            0 <= i < fields@.len() ==> {
                &&& (#[trigger] fields@[i])@.owner == Ownership::Owned
                &&& fields@[i].well_formed()
            },
        s.well_formed(),
        encoded_as(name, fields, Ok::<Mat, MatioError>(s)),
    ensures
        frees_all(fields@) == fields@.len(),
        frees(s) == 1,
        s@.data.children().len() == fields@.len(),
        forall|i: int|
            0 <= i < fields@.len() ==> (#[trigger] s@.data.children()[i])@.owner
                == Ownership::BorrowedByParent && frees(s@.data.children()[i]) == 0,
{
    lemma_frees_owned(fields@);
    let c = s@.data.children();
    lemma_frees_borrowed(c);
    assert(frees_all(Seq::<Mat>::empty()) == 0);
    assert(seq![s].drop_last() =~= Seq::<Mat>::empty());
    assert(seq![s].last() == s);
    assert(s@.owner == Ownership::Owned);
    assert(frees(s) == frees_all(Seq::<Mat>::empty()) + 1 + frees_all(c));
    assert forall|i: int| 0 <= i < fields@.len() implies (#[trigger] c[i])@.owner
        == Ownership::BorrowedByParent && frees(c[i]) == 0 by {
        let d = c[i];
        assert(seq![d].drop_last() =~= Seq::<Mat>::empty());
        assert(seq![d].last() == d);
        assert(d@.owner == Ownership::BorrowedByParent);
        assert(below_borrowed(d));
        lemma_frees_borrowed(d@.data.children());
        assert(frees(d) == frees_all(Seq::<Mat>::empty()) + 0 + frees_all(d@.data.children()));
    }
}

} // verus!
