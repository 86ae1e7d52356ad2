use vstd::prelude::*;
use vstd::utf8::*;

use crate::convert::{Codec, Decode, Encode, MatValue};
use crate::datatype::MatType;
use crate::error::MatioError;
use crate::mat::{checked_name, lemma_product_row, Data, DataView, Mat, Ownership, valid_name};

verus! {

broadcast use encode_utf8_valid_utf8, encode_utf8_decode_utf8;

/// Relies on `String::from_utf8`: it accepts exactly the byte sequences that
/// are valid UTF-8, and the string it returns holds the characters they encode.
#[verifier::external_body]
fn string_from_utf8(bytes: Vec<u8>) -> (r: Option<String>)
    ensures
        r is Some <==> valid_utf8(bytes@),
        r matches Some(s) ==> s@ == decode_utf8(bytes@),
{
    match String::from_utf8(bytes) {
        Ok(s) => Some(s),
        Err(_) => None,
    }
}

/// The text form: a `1 x n` character array of the `n` UTF-8 bytes of the text.
pub open spec fn holds_text(dims: Seq<usize>, data: DataView, v: Seq<char>) -> bool {
    dims == seq![1usize, encode_utf8(v).len() as usize] && data == DataView::Char(encode_utf8(v))
}

/// The form of a sequence of texts: a `1 x n` cell array of unnamed character
/// arrays, one for each text, in order.
pub open spec fn holds_texts(dims: Seq<usize>, data: DataView, v: Seq<Seq<char>>) -> bool {
    &&& dims == seq![1usize, v.len() as usize]
    &&& data is Cell
    &&& data.children().len() == v.len()
    &&& forall|i: int|
        0 <= i < v.len() ==> {
            &&& (#[trigger] data.children()[i])@.name.len() == 0
            &&& holds_text(data.children()[i]@.dims, data.children()[i]@.data, v[i])
        }
}

/// What reading each variable of `c` as a `T` gives: all the values in order,
/// or the error of the first variable that cannot be read.
pub open spec fn decode_all<T: Decode>(c: Seq<Mat>) -> Result<Seq<T::V>, MatioError>
    decreases c.len(),
{
    if c.len() == 0 {
        Ok(Seq::empty())
    } else {
        match decode_all::<T>(c.drop_last()) {
            Err(e) => Err(e),
            Ok(s) => match T::decode_spec(c.last()) {
                Err(e) => Err(e),
                Ok(x) => Ok(s.push(x)),
            },
        }
    }
}

/// Reading variables that each hold a value gives back all the values.
pub proof fn lemma_decode_all<T: Codec>(c: Seq<Mat>, v: Seq<T::V>)
    requires
        c.len() == v.len(),
        forall|i: int| 0 <= i < c.len() ==> T::holds((#[trigger] c[i])@.dims, c[i]@.data, v[i]),
    ensures
        decode_all::<T>(c) == Ok::<Seq<T::V>, MatioError>(v),
    decreases c.len(),
{
    if c.len() == 0 {
        assert(v =~= Seq::empty());
    } else {
        let n = c.len() - 1;
        assert forall|i: int| 0 <= i < n implies T::holds(
            (#[trigger] c.drop_last()[i])@.dims,
            c.drop_last()[i]@.data,
            v.drop_last()[i],
        ) by {
            assert(c.drop_last()[i] == c[i]);
        }
        lemma_decode_all::<T>(c.drop_last(), v.drop_last());
        T::lemma_round_trip(c[n], v[n]);
        assert(v.drop_last().push(v[n]) =~= v);
    }
}

/// Reads each variable of `c` as a `T`, stopping at the first error.
pub fn decode_each<T: Decode>(c: &Vec<Mat>) -> (r: Result<Vec<T>, MatioError>)
    ensures
        match r {
            Ok(v) => decode_all::<T>(c@) == Ok::<Seq<T::V>, MatioError>(
                v@.map_values(|x: T| x.value()),
            ),
            Err(e) => decode_all::<T>(c@) == Err::<Seq<T::V>, MatioError>(e),
        },
{
    let mut out: Vec<T> = Vec::new();
    let mut i: usize = 0;
    proof {
        assert(c@.take(0) =~= Seq::<Mat>::empty());
        assert(out@.map_values(|x: T| x.value()) =~= Seq::<T::V>::empty());
    }
    while i < c.len()
        invariant
            i <= c@.len(),
            decode_all::<T>(c@.take(i as int)) == Ok::<Seq<T::V>, MatioError>(
                out@.map_values(|x: T| x.value()),
            ),
        decreases c@.len() - i,
    {
        proof {
            assert(c@.take(i + 1).drop_last() =~= c@.take(i as int));
        }
        let x = match T::decode(&c[i]) {
            Ok(x) => x,
            Err(e) => {
                proof {
                    lemma_decode_all_stops::<T>(c@, (i + 1) as nat);
                }
                return Err(e);
            },
        };
        let ghost before = out@;
        out.push(x);
        proof {
            assert(out@.map_values(|x: T| x.value()) =~= before.map_values(|x: T| x.value()).push(
                x.value(),
            ));
        }
        i += 1;
    }
    proof {
        assert(c@.take(c@.len() as int) =~= c@);
    }
    Ok(out)
}

/// Once reading a prefix fails, reading any longer prefix fails with the same error.
proof fn lemma_decode_all_stops<T: Decode>(c: Seq<Mat>, k: nat)
    requires
        k <= c.len(),
        decode_all::<T>(c.take(k as int)) is Err,
    ensures
        decode_all::<T>(c) == decode_all::<T>(c.take(k as int)),
    decreases c.len() - k,
{
    if k < c.len() {
        assert(c.take((k + 1) as int).drop_last() =~= c.take(k as int));
        lemma_decode_all_stops::<T>(c, k + 1);
    } else {
        assert(c.take(k as int) =~= c);
    }
}

/// Builds the unnamed character array of `s`.
fn text_mat(s: &str) -> (r: Mat)
    ensures
        r@.name.len() == 0,
        r@.owner == Ownership::Owned,
        holds_text(r@.dims, r@.data, s@),
{
    let bytes = vstd::slice::slice_to_vec(s.as_bytes());
    let n = bytes.len();
    let mut dims: Vec<usize> = Vec::new();
    dims.push(1);
    dims.push(n);
    proof {
        lemma_product_row(n);
        assert(dims@ =~= seq![1usize, n]);
    }
    Mat::array(String::new(), dims, Data::Char(bytes))
}

/// Writes `s` as a character array named `name`.
fn encode_text(name: &str, s: &str) -> (r: Result<Mat, MatioError>)
    ensures
        r is Ok <==> valid_name(name@),
        r matches Ok(m) ==> {
            &&& m@.name == name@
            &&& m@.owner == Ownership::Owned
            &&& holds_text(m@.dims, m@.data, s@)
        },
        !valid_name(name@) ==> (r matches Err(MatioError::MatName(n)) && n@ == name@),
{
    let name = match checked_name(name) {
        Ok(n) => n,
        Err(e) => {
            return Err(e);
        },
    };
    let m = text_mat(s);
    Ok(m.renamed(name))
}

impl MatValue for String {
    type V = Seq<char>;

    open spec fn value(&self) -> Seq<char> {
        self@
    }
}

impl Encode for String {
    open spec fn holds(dims: Seq<usize>, data: DataView, v: Seq<char>) -> bool {
        holds_text(dims, data, v)
    }

    open spec fn encodable(v: Seq<char>) -> bool {
        true
    }

    open spec fn refusal(v: Seq<char>, e: MatioError) -> bool {
        false
    }

    fn encode(self, name: &str) -> (r: Result<Mat, MatioError>) {
        encode_text(name, self.as_str())
    }
}

impl Decode for String {
    open spec fn decode_spec(m: Mat) -> Result<Seq<char>, MatioError> {
        match m@.data {
            DataView::Char(b) => if valid_utf8(b) {
                Ok(decode_utf8(b))
            } else {
                Err(MatioError::Utf8(m.label()))
            },
            _ => Err(MatioError::TypeMismatch(m.label(), MatType::CHAR, m@.data.mat_type())),
        }
    }

    fn decode(m: &Mat) -> (r: Result<String, MatioError>) {
        match m.data() {
            Data::Char(b) => match string_from_utf8(vstd::slice::slice_to_vec(b.as_slice())) {
                Some(s) => Ok(s),
                None => Err(MatioError::Utf8(m.label_clone())),
            },
            _ => Err(m.type_mismatch(MatType::CHAR)),
        }
    }
}

impl Codec for String {
    proof fn lemma_round_trip(m: Mat, v: Seq<char>) {
    }
}

impl<'a> MatValue for &'a str {
    type V = Seq<char>;

    open spec fn value(&self) -> Seq<char> {
        (*self)@
    }
}

impl<'a> Encode for &'a str {
    open spec fn holds(dims: Seq<usize>, data: DataView, v: Seq<char>) -> bool {
        holds_text(dims, data, v)
    }

    open spec fn encodable(v: Seq<char>) -> bool {
        true
    }

    open spec fn refusal(v: Seq<char>, e: MatioError) -> bool {
        false
    }

    fn encode(self, name: &str) -> (r: Result<Mat, MatioError>) {
        encode_text(name, self)
    }
}

impl<'a> MatValue for &'a String {
    type V = Seq<char>;

    open spec fn value(&self) -> Seq<char> {
        (*self)@
    }
}

impl<'a> Encode for &'a String {
    open spec fn holds(dims: Seq<usize>, data: DataView, v: Seq<char>) -> bool {
        holds_text(dims, data, v)
    }

    open spec fn encodable(v: Seq<char>) -> bool {
        true
    }

    open spec fn refusal(v: Seq<char>, e: MatioError) -> bool {
        false
    }

    fn encode(self, name: &str) -> (r: Result<Mat, MatioError>) {
        encode_text(name, self.as_str())
    }
}

/// Writes the texts as a cell array named `name` of unnamed character arrays.
fn encode_texts(name: &str, items: Vec<Mat>, v: Ghost<Seq<Seq<char>>>) -> (r: Result<
    Mat,
    MatioError,
>)
    requires
        items@.len() == v@.len(),
        forall|i: int|
            0 <= i < items@.len() ==> {
                &&& (#[trigger] items@[i])@.name.len() == 0
                &&& holds_text(items@[i]@.dims, items@[i]@.data, v@[i])
            },
    ensures
        r is Ok <==> valid_name(name@),
        r matches Ok(m) ==> {
            &&& m@.name == name@
            &&& m@.owner == Ownership::Owned
            &&& holds_texts(m@.dims, m@.data, v@)
        },
        !valid_name(name@) ==> (r matches Err(MatioError::MatName(n)) && n@ == name@),
{
    let name = match checked_name(name) {
        Ok(n) => n,
        Err(e) => {
            return Err(e);
        },
    };
    let m = Mat::cell_of(name, items);
    proof {
        assert forall|i: int| 0 <= i < v@.len() implies {
            &&& (#[trigger] m@.data.children()[i])@.name.len() == 0
            &&& holds_text(m@.data.children()[i]@.dims, m@.data.children()[i]@.data, v@[i])
        } by {
            assert(items@[i]@.name.len() == 0);
        }
    }
    Ok(m)
}

impl MatValue for Vec<String> {
    type V = Seq<Seq<char>>;

    open spec fn value(&self) -> Seq<Seq<char>> {
        self@.map_values(|s: String| s@)
    }
}

impl Encode for Vec<String> {
    open spec fn holds(dims: Seq<usize>, data: DataView, v: Seq<Seq<char>>) -> bool {
        holds_texts(dims, data, v)
    }

    open spec fn encodable(v: Seq<Seq<char>>) -> bool {
        true
    }

    open spec fn refusal(v: Seq<Seq<char>>, e: MatioError) -> bool {
        false
    }

    fn encode(self, name: &str) -> (r: Result<Mat, MatioError>) {
        let mut items: Vec<Mat> = Vec::new();
        let mut i: usize = 0;
        while i < self.len()
            invariant
                i <= self@.len(),
                items@.len() == i,
                forall|j: int|
                    0 <= j < i ==> {
                        &&& (#[trigger] items@[j])@.name.len() == 0
                        &&& holds_text(items@[j]@.dims, items@[j]@.data, self@[j]@)
                    },
            decreases self@.len() - i,
        {
            items.push(text_mat(self[i].as_str()));
            i += 1;
        }
        encode_texts(name, items, Ghost(self.value()))
    }
}

impl Decode for Vec<String> {
    open spec fn decode_spec(m: Mat) -> Result<Seq<Seq<char>>, MatioError> {
        match m@.data {
            DataView::Cell(c) => decode_all::<String>(c),
            _ => Err(MatioError::TypeMismatch(m.label(), MatType::CELL, m@.data.mat_type())),
        }
    }

    fn decode(m: &Mat) -> (r: Result<Vec<String>, MatioError>) {
        match m.data() {
            Data::Cell(c) => {
                let r = decode_each::<String>(c);
                proof {
                    if r is Ok {
                        let v = r->Ok_0;
                        assert(v@.map_values(|x: String| x.value()) =~= v.value());
                    }
                }
                r
            },
            _ => Err(m.type_mismatch(MatType::CELL)),
        }
    }
}

impl Codec for Vec<String> {
    proof fn lemma_round_trip(m: Mat, v: Seq<Seq<char>>) {
        lemma_decode_all::<String>(m@.data.children(), v);
    }
}

impl<'a> MatValue for Vec<&'a str> {
    type V = Seq<Seq<char>>;

    open spec fn value(&self) -> Seq<Seq<char>> {
        self@.map_values(|s: &str| s@)
    }
}

impl<'a> Encode for Vec<&'a str> {
    open spec fn holds(dims: Seq<usize>, data: DataView, v: Seq<Seq<char>>) -> bool {
        holds_texts(dims, data, v)
    }

    open spec fn encodable(v: Seq<Seq<char>>) -> bool {
        true
    }

    open spec fn refusal(v: Seq<Seq<char>>, e: MatioError) -> bool {
        false
    }

    fn encode(self, name: &str) -> (r: Result<Mat, MatioError>) {
        self.as_slice().encode(name)
    }
}

impl<'a, 'b> MatValue for &'b [&'a str] {
    type V = Seq<Seq<char>>;

    open spec fn value(&self) -> Seq<Seq<char>> {
        (*self)@.map_values(|s: &str| s@)
    }
}

impl<'a, 'b> Encode for &'b [&'a str] {
    open spec fn holds(dims: Seq<usize>, data: DataView, v: Seq<Seq<char>>) -> bool {
        holds_texts(dims, data, v)
    }

    open spec fn encodable(v: Seq<Seq<char>>) -> bool {
        true
    }

    open spec fn refusal(v: Seq<Seq<char>>, e: MatioError) -> bool {
        false
    }

    fn encode(self, name: &str) -> (r: Result<Mat, MatioError>) {
        let mut items: Vec<Mat> = Vec::new();
        let mut i: usize = 0;
        while i < self.len()
            invariant
                i <= self@.len(),
                items@.len() == i,
                forall|j: int|
                    0 <= j < i ==> {
                        &&& (#[trigger] items@[j])@.name.len() == 0
                        &&& holds_text(items@[j]@.dims, items@[j]@.data, self@[j]@)
                    },
            decreases self@.len() - i,
        {
            items.push(text_mat(self[i]));
            i += 1;
        }
        encode_texts(name, items, Ghost(self.value()))
    }
}

} // verus!
