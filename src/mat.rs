use vstd::prelude::*;

use crate::datatype::{Double, MatType, Single};
use crate::error::MatioError;
use vstd::utf8::*;

verus! {

broadcast use vstd::std_specs::vec::group_vec_axioms;

/// Who frees the payload of a variable.
#[derive(Debug, Clone, Copy, PartialEq, Eq, Structural)]
pub enum Ownership {
    /// The variable frees its payload when it is discarded.
    Owned,
    /// A containing variable owns the payload; discarding this one frees nothing.
    BorrowedByParent,
}

/// The payload of a variable: a flat array of elements of its type, or its children.
#[derive(Debug)]
pub enum Data {
    Double(Vec<Double>),
    Single(Vec<Single>),
    Int8(Vec<i8>),
    Int16(Vec<i16>),
    Int32(Vec<i32>),
    Int64(Vec<i64>),
    UInt8(Vec<u8>),
    UInt16(Vec<u16>),
    UInt32(Vec<u32>),
    UInt64(Vec<u64>),
    /// UTF-8 bytes.
    Char(Vec<u8>),
    /// The elements of a cell array, in order.
    Cell(Vec<Mat>),
    /// The fields of a structure, each child named after its field.
    Struct(Vec<Mat>),
}

/// The mathematical view of a [`Data`] payload.
pub enum DataView {
    Double(Seq<Double>),
    Single(Seq<Single>),
    Int8(Seq<i8>),
    Int16(Seq<i16>),
    Int32(Seq<i32>),
    Int64(Seq<i64>),
    UInt8(Seq<u8>),
    UInt16(Seq<u16>),
    UInt32(Seq<u32>),
    UInt64(Seq<u64>),
    Char(Seq<u8>),
    Cell(Seq<Mat>),
    Struct(Seq<Mat>),
}

impl View for Data {
    type V = DataView;

    open spec fn view(&self) -> DataView {
        match self {
            Data::Double(v) => DataView::Double(v@),
            Data::Single(v) => DataView::Single(v@),
            Data::Int8(v) => DataView::Int8(v@),
            Data::Int16(v) => DataView::Int16(v@),
            Data::Int32(v) => DataView::Int32(v@),
            Data::Int64(v) => DataView::Int64(v@),
            Data::UInt8(v) => DataView::UInt8(v@),
            Data::UInt16(v) => DataView::UInt16(v@),
            Data::UInt32(v) => DataView::UInt32(v@),
            Data::UInt64(v) => DataView::UInt64(v@),
            Data::Char(v) => DataView::Char(v@),
            Data::Cell(v) => DataView::Cell(v@),
            Data::Struct(v) => DataView::Struct(v@),
        }
    }
}

impl DataView {
    /// The type that the payload gives its variable.
    pub open spec fn mat_type(self) -> MatType {
        match self {
            DataView::Double(_) => MatType::DOUBLE,
            DataView::Single(_) => MatType::SINGLE,
            DataView::Int8(_) => MatType::INT8,
            DataView::Int16(_) => MatType::INT16,
            DataView::Int32(_) => MatType::INT32,
            DataView::Int64(_) => MatType::INT64,
            DataView::UInt8(_) => MatType::UINT8,
            DataView::UInt16(_) => MatType::UINT16,
            DataView::UInt32(_) => MatType::UINT32,
            DataView::UInt64(_) => MatType::UINT64,
            DataView::Char(_) => MatType::CHAR,
            DataView::Cell(_) => MatType::CELL,
            DataView::Struct(_) => MatType::STRUCT,
        }
    }

    /// The number of entries: elements of an array, or children.
    pub open spec fn len(self) -> nat {
        match self {
            DataView::Double(v) => v.len(),
            DataView::Single(v) => v.len(),
            DataView::Int8(v) => v.len(),
            DataView::Int16(v) => v.len(),
            DataView::Int32(v) => v.len(),
            DataView::Int64(v) => v.len(),
            DataView::UInt8(v) => v.len(),
            DataView::UInt16(v) => v.len(),
            DataView::UInt32(v) => v.len(),
            DataView::UInt64(v) => v.len(),
            DataView::Char(v) => v.len(),
            DataView::Cell(v) => v.len(),
            DataView::Struct(v) => v.len(),
        }
    }

    /// The children of a cell array or a structure; empty for arrays.
    pub open spec fn children(self) -> Seq<Mat> {
        match self {
            DataView::Cell(c) => c,
            DataView::Struct(c) => c,
            _ => Seq::empty(),
        }
    }
}

/// The mathematical view of a [`Mat`].
pub struct MatView {
    pub name: Seq<char>,
    pub dims: Seq<usize>,
    pub data: DataView,
    pub owner: Ownership,
}

/// The product of the dimensions: the number of elements of a variable.
pub open spec fn product(dims: Seq<usize>) -> nat
    decreases dims.len(),
{
    if dims.len() == 0 {
        1
    } else {
        product(dims.drop_last()) * (dims.last() as nat)
    }
}

/// The names of a sequence of variables.
pub open spec fn names(c: Seq<Mat>) -> Seq<Seq<char>> {
    c.map_values(|m: Mat| m@.name)
}

/// How many of the variables are named `name`.
pub open spec fn count_named(c: Seq<Mat>, name: Seq<char>) -> nat {
    names(c).filter(|n: Seq<char>| n == name).len()
}

/// The fields of a structure array of `k` elements: at least one child, and
/// every field name that occurs occurs exactly `k` times.
pub open spec fn struct_layout(c: Seq<Mat>, k: nat) -> bool {
    &&& c.len() > 0
    &&& forall|i: int| 0 <= i < c.len() ==> #[trigger] count_named(c, c[i]@.name) == k
}

/// Whether every variable of the sequence is owned by its parent.
pub open spec fn all_borrowed(c: Seq<Mat>) -> bool {
    forall|i: int| 0 <= i < c.len() ==> (#[trigger] c[i])@.owner == Ownership::BorrowedByParent
}

/// The shape rules that every variable obeys: rank at least 2; as many array
/// elements or cell children as the product of the dimensions; a structure
/// laid out as `1 x k` with every field occurring `k` times; and children
/// that their parent owns.
pub open spec fn shape_ok(v: MatView) -> bool {
    &&& v.dims.len() >= 2
    &&& all_borrowed(v.data.children())
    &&& match v.data {
        DataView::Struct(c) => {
            &&& v.dims.len() == 2
            &&& v.dims[0] == 1
            &&& struct_layout(c, v.dims[1] as nat)
        },
        _ => product(v.dims) == v.data.len(),
    }
}

/// Whether a name can label a variable: it holds no NUL character.
pub open spec fn valid_name(name: Seq<char>) -> bool {
    !name.contains('\0')
}

/// Whether a variable is named `name`.
pub open spec fn named(name: Seq<char>) -> spec_fn(Mat) -> bool {
    |m: Mat| m@.name == name
}

/// The children of `c` named `name`, in order.
pub open spec fn fields_named(c: Seq<Mat>, name: Seq<char>) -> Seq<Mat> {
    c.filter(named(name))
}

/// The variables that a sequence of references points to.
pub open spec fn derefs(s: Seq<&Mat>) -> Seq<Mat> {
    s.map_values(|r: &Mat| *r)
}

proof fn lemma_scalar_nul(c: char)
    ensures
        encode_scalar(c as u32).contains(0u8) <==> c == '\0',
{
    let v = c as u32;
    let e = encode_scalar(v);
    char_is_scalar(c);
    if has_width_1_encoding(v) {
        assert(e =~= seq![leading_byte_width_1(v)]);
        assert(((v & 0x7F) as u8 == 0) <==> v == 0) by (bit_vector)
            requires
                v <= 0x7F,
        ;
        if c == '\0' {
            assert(e[0] == 0u8);
        }
        if e.contains(0u8) {
            let i = choose|i: int| 0 <= i < e.len() && e[i] == 0u8;
            assert(i == 0);
            char_u32_cast(c, v);
            assert(v == 0);
            assert(c == (0u32 as char));
        }
    } else {
        assert(v != 0);
        assert(forall|x: u8| #[trigger] (0xC0u8 | x) != 0u8) by (bit_vector);
        assert(forall|x: u8| #[trigger] (0xE0u8 | x) != 0u8) by (bit_vector);
        assert(forall|x: u8| #[trigger] (0xF0u8 | x) != 0u8) by (bit_vector);
        assert(forall|x: u8| #[trigger] (0x80u8 | x) != 0u8) by (bit_vector);
        assert forall|i: int| 0 <= i < e.len() implies e[i] != 0u8 by {
            if has_width_2_encoding(v) {
                assert(e =~= seq![leading_byte_width_2(v), last_continuation_byte(v)]);
            } else if has_width_3_encoding(v) {
                assert(e =~= seq![
                    leading_byte_width_3(v),
                    second_last_continuation_byte(v),
                    last_continuation_byte(v),
                ]);
            } else {
                assert(e =~= seq![
                    leading_byte_width_4(v),
                    third_last_continuation_byte(v),
                    second_last_continuation_byte(v),
                    last_continuation_byte(v),
                ]);
            }
        }
        assert(c != '\0');
    }
}

/// A name holds a NUL character exactly when its UTF-8 bytes hold a zero byte.
proof fn lemma_utf8_nul(s: Seq<char>)
    ensures
        encode_utf8(s).contains(0u8) <==> s.contains('\0'),
    decreases s.len(),
{
    if s.len() > 0 {
        let rest = s.drop_first();
        lemma_utf8_nul(rest);
        lemma_scalar_nul(s[0]);
        let a = encode_scalar(s[0] as u32);
        let b = encode_utf8(rest);
        assert(encode_utf8(s) == a + b);
        if encode_utf8(s).contains(0u8) {
            let i = choose|i: int| 0 <= i < (a + b).len() && (a + b)[i] == 0u8;
            if i < a.len() {
                assert(a[i] == 0u8);
                assert(s[0] == '\0');
            } else {
                assert(b[i - a.len()] == 0u8);
                let j = choose|j: int| 0 <= j < rest.len() && rest[j] == '\0';
                assert(s[j + 1] == '\0');
            }
        }
        if s.contains('\0') {
            let j = choose|j: int| 0 <= j < s.len() && s[j] == '\0';
            if j == 0 {
                let i = choose|i: int| 0 <= i < a.len() && a[i] == 0u8;
                assert((a + b)[i] == 0u8);
            } else {
                assert(rest[j - 1] == '\0');
                let i = choose|i: int| 0 <= i < b.len() && b[i] == 0u8;
                assert((a + b)[a.len() + i] == 0u8);
            }
        }
    }
}

/// Takes `name` as the name of a variable or field, refusing one that holds
/// a NUL character.
pub(crate) fn checked_name(name: &str) -> (r: Result<String, MatioError>)
    ensures
        valid_name(name@) ==> (r matches Ok(s) && s@ == name@),
        !valid_name(name@) ==> (r matches Err(MatioError::MatName(s)) && s@ == name@),
{
    let bytes = name.as_bytes();
    proof {
        lemma_utf8_nul(name@);
    }
    let mut i: usize = 0;
    while i < bytes.len()
        invariant
            bytes@ == encode_utf8(name@),
            i <= bytes@.len(),
            forall|j: int| 0 <= j < i ==> bytes@[j] != 0u8,
        decreases bytes@.len() - i,
    {
        if bytes[i] == 0 {
            proof {
                assert(encode_utf8(name@)[i as int] == 0u8);
                assert(encode_utf8(name@).contains(0u8));
                lemma_utf8_nul(name@);
            }
            return Err(MatioError::MatName(name.to_owned()));
        }
        i += 1;
    }
    proof {
        lemma_utf8_nul(name@);
    }
    Ok(name.to_owned())
}

/// Whether every variable below `m`, at any depth, is owned by its parent.
pub open spec fn below_borrowed(m: Mat) -> bool
    decreases m,
{
    forall|i: int|
        0 <= i < m@.data.children().len() ==> {
            &&& (#[trigger] m@.data.children()[i])@.owner == Ownership::BorrowedByParent
            &&& below_borrowed(m@.data.children()[i])
        }
}

/// How many payloads discarding the variables of `s` frees: one for each
/// variable, at any depth, that owns its payload.
pub open spec fn frees_all(s: Seq<Mat>) -> nat
    decreases s,
    via frees_all_decreases
{
    if s.len() == 0 {
        0
    } else {
        let m = s.last();
        frees_all(s.drop_last()) + (if m@.owner == Ownership::Owned {
            1nat
        } else {
            0nat
        }) + frees_all(m@.data.children())
    }
}

#[via_fn]
proof fn frees_all_decreases(s: Seq<Mat>) {
    broadcast use vstd::seq::group_seq_axioms;

    if s.len() > 0 {
        let m = s.last();
        assert(decreases_to!(s => s.drop_last()));
        assert(decreases_to!(s => m));
        match m.data {
            Data::Cell(c) => {
                assert(decreases_to!(m => m.data));
                assert(decreases_to!(m.data => m.data->Cell_0));
                assert(decreases_to!(c => c@));
                assert(decreases_to!(s => c@));
                assert(m@.data.children() == c@);
            },
            Data::Struct(c) => {
                assert(decreases_to!(m => m.data));
                assert(decreases_to!(m.data => m.data->Struct_0));
                assert(decreases_to!(c => c@));
                assert(decreases_to!(s => c@));
                assert(m@.data.children() == c@);
            },
            _ => {
                assert(m@.data.children() =~= s.subrange(0, 0));
                assert(decreases_to!(s => s.subrange(0, 0)));
            },
        }
    }
}

/// Discarding variables that are each owned by their parent, down to any
/// depth, frees nothing.
pub proof fn lemma_frees_borrowed(s: Seq<Mat>)
    requires
        forall|i: int|
            0 <= i < s.len() ==> {
                &&& (#[trigger] s[i])@.owner == Ownership::BorrowedByParent
                &&& below_borrowed(s[i])
            },
    ensures
        frees_all(s) == 0,
    decreases s,
{
    broadcast use vstd::seq::group_seq_axioms;

    if s.len() > 0 {
        let m = s.last();
        assert(s[s.len() - 1] == m);
        assert(decreases_to!(s => s.drop_last()));
        assert(decreases_to!(s => m));
        match m.data {
            Data::Cell(c) => {
                assert(decreases_to!(m => m.data));
                assert(decreases_to!(m.data => m.data->Cell_0));
                assert(decreases_to!(c => c@));
                assert(m@.data.children() == c@);
            },
            Data::Struct(c) => {
                assert(decreases_to!(m => m.data));
                assert(decreases_to!(m.data => m.data->Struct_0));
                assert(decreases_to!(c => c@));
                assert(m@.data.children() == c@);
            },
            _ => {
                assert(m@.data.children() =~= s.subrange(0, 0));
                assert(decreases_to!(s => s.subrange(0, 0)));
            },
        }
        assert forall|i: int| 0 <= i < s.len() - 1 implies {
            &&& (#[trigger] s.drop_last()[i])@.owner == Ownership::BorrowedByParent
            &&& below_borrowed(s.drop_last()[i])
        } by {
            assert(s.drop_last()[i] == s[i]);
        }
        lemma_frees_borrowed(s.drop_last());
        lemma_frees_borrowed(m@.data.children());
    }
}

/// Discarding variables that each own their payload, with everything below
/// them owned by its parent, frees one payload for each.
pub proof fn lemma_frees_owned(s: Seq<Mat>)
    requires
        forall|i: int|
            0 <= i < s.len() ==> {
                &&& (#[trigger] s[i])@.owner == Ownership::Owned
                &&& below_borrowed(s[i])
            },
    ensures
        frees_all(s) == s.len(),
    decreases s.len(),
{
    if s.len() > 0 {
        let m = s.last();
        assert(s[s.len() - 1] == m);
        assert forall|i: int| 0 <= i < s.len() - 1 implies {
            &&& (#[trigger] s.drop_last()[i])@.owner == Ownership::Owned
            &&& below_borrowed(s.drop_last()[i])
        } by {
            assert(s.drop_last()[i] == s[i]);
        }
        lemma_frees_owned(s.drop_last());
        lemma_frees_borrowed(m@.data.children());
    }
}

/// How many payloads discarding `m` frees.
pub open spec fn frees(m: Mat) -> nat {
    frees_all(seq![m])
}

/// A MAT variable: a node of the variable graph.
#[derive(Debug)]
pub struct Mat {
    name: String,
    dims: Vec<usize>,
    data: Data,
    owner: Ownership,
}

impl View for Mat {
    type V = MatView;

    closed spec fn view(&self) -> MatView {
        MatView { name: self.name@, dims: self.dims@, data: self.data@, owner: self.owner }
    }
}

/// A `1 x n` variable holds `n` elements.
pub proof fn lemma_product_row(n: usize)
    ensures
        product(seq![1usize, n]) == n as nat,
{
    let s = seq![1usize, n];
    assert(s.drop_last() =~= seq![1usize]);
    assert(seq![1usize].drop_last() =~= Seq::<usize>::empty());
    let one = seq![1usize];
    assert(product(one.drop_last()) == 1);
    assert(one.last() == 1);
    assert(product(one) == 1);
    assert(product(s) == product(seq![1usize]) * (n as nat));
}

/// Hands each variable over to a parent: the same variables, in the same
/// order, now marked as owned by that parent.
fn adopt(items: Vec<Mat>) -> (r: Vec<Mat>)
    ensures
        r@.len() == items@.len(),
        all_borrowed(r@),
        forall|i: int| 0 <= i < r@.len() ==> below_borrowed(#[trigger] r@[i]),
        names(r@) == names(items@),
        forall|i: int|
            0 <= i < r@.len() ==> (#[trigger] r@[i])@ == (MatView {
                owner: Ownership::BorrowedByParent,
                ..items@[i]@
            }),
{
    let mut items = items;
    let ghost orig = items@;
    let mut rev: Vec<Mat> = Vec::new();
    while items.len() > 0
        invariant
            items@.len() + rev@.len() == orig.len(),
            items@ == orig.subrange(0, items@.len() as int),
            forall|j: int| 0 <= j < rev@.len() ==> rev@[j] == orig[orig.len() - 1 - j],
        decreases items@.len(),
    {
        let m = items.pop().unwrap();
        rev.push(m);
    }
    let mut out: Vec<Mat> = Vec::new();
    while rev.len() > 0
        invariant
            out@.len() + rev@.len() == orig.len(),
            forall|j: int| 0 <= j < rev@.len() ==> rev@[j] == orig[orig.len() - 1 - j],
            forall|j: int| 0 <= j < out@.len() ==> below_borrowed(#[trigger] out@[j]),
            forall|j: int|
                0 <= j < out@.len() ==> (#[trigger] out@[j])@ == (MatView {
                    owner: Ownership::BorrowedByParent,
                    ..orig[j]@
                }),
        decreases rev@.len(),
    {
        let mut m = rev.pop().unwrap();
        proof {
            use_type_invariant(&m);
        }
        let ghost before = m;
        m.owner = Ownership::BorrowedByParent;
        proof {
            assert(m@.data == before@.data);
        }
        out.push(m);
    }
    assert(names(out@) =~= names(orig));
    out
}

impl Mat {
    /// A new array variable, owned by itself.
    pub(crate) fn array(name: String, dims: Vec<usize>, data: Data) -> (r: Mat)
        requires
            dims@.len() >= 2,
            product(dims@) == data@.len(),
            !(data@ is Cell),
            !(data@ is Struct),
        ensures
            r@ == (MatView { name: name@, dims: dims@, data: data@, owner: Ownership::Owned }),
    {
        Mat { name, dims, data, owner: Ownership::Owned }
    }

    /// A new `1 x n` cell array holding `items` in order; it takes them over.
    pub(crate) fn cell_of(name: String, items: Vec<Mat>) -> (r: Mat)
        ensures
            r@.name == name@,
            r@.dims == seq![1usize, items@.len() as usize],
            r@.owner == Ownership::Owned,
            r@.data is Cell,
            r@.data.children().len() == items@.len(),
            forall|i: int|
                0 <= i < items@.len() ==> (#[trigger] r@.data.children()[i])@ == (MatView {
                    owner: Ownership::BorrowedByParent,
                    ..items@[i]@
                }),
    {
        let n = items.len();
        let children = adopt(items);
        let mut dims: Vec<usize> = Vec::new();
        dims.push(1);
        dims.push(n);
        proof {
            assert(dims@ =~= seq![1usize, n]);
            lemma_product_row(n);
        }
        Mat { name, dims, data: Data::Cell(children), owner: Ownership::Owned }
    }

    /// A new `1 x k` structure array with the fields `fields`, in order; it takes them over.
    pub(crate) fn struct_of(name: String, fields: Vec<Mat>, k: usize) -> (r: Mat)
        requires
            struct_layout(fields@, k as nat),
        ensures
            r@.name == name@,
            r@.dims == seq![1usize, k],
            r@.owner == Ownership::Owned,
            r@.data is Struct,
            r@.data.children().len() == fields@.len(),
            forall|i: int|
                0 <= i < fields@.len() ==> (#[trigger] r@.data.children()[i])@ == (MatView {
                    owner: Ownership::BorrowedByParent,
                    ..fields@[i]@
                }),
    {
        let children = adopt(fields);
        let mut dims: Vec<usize> = Vec::new();
        dims.push(1);
        dims.push(k);
        proof {
            assert(dims@ =~= seq![1usize, k]);
            assert forall|i: int| 0 <= i < children@.len() implies #[trigger] count_named(
                children@,
                children@[i]@.name,
            ) == k as nat by {
                assert(children@[i]@.name == fields@[i]@.name);
                assert(count_named(fields@, fields@[i]@.name) == k as nat);
            }
        }
        Mat { name, dims, data: Data::Struct(children), owner: Ownership::Owned }
    }

    /// Makes the `1 x n` cell array named `name` holding `items` in order; it
    /// takes them over.
    pub fn cell(name: &str, items: Vec<Mat>) -> (r: Result<Mat, MatioError>)
        ensures
            r is Ok <==> valid_name(name@),
            r matches Ok(m) ==> {
                &&& m@.name == name@
                &&& m@.dims == seq![1usize, items@.len() as usize]
                &&& m@.owner == Ownership::Owned
                &&& m@.data is Cell
                &&& m@.data.children().len() == items@.len()
                &&& forall|i: int|
                    0 <= i < items@.len() ==> (#[trigger] m@.data.children()[i])@ == (MatView {
                        owner: Ownership::BorrowedByParent,
                        ..items@[i]@
                    })
            },
            !valid_name(name@) ==> (r matches Err(MatioError::MatName(n)) && n@ == name@),
    {
        let name = match checked_name(name) {
            Ok(n) => n,
            Err(e) => {
                return Err(e);
            },
        };
        Ok(Mat::cell_of(name, items))
    }

    /// Returns the elements of a cell array, or the fields of a structure, in
    /// order; nothing for an array.
    pub fn children(&self) -> (r: &[Mat])
        ensures
            r@ == self@.data.children(),
    {
        match &self.data {
            Data::Cell(c) => c.as_slice(),
            Data::Struct(c) => c.as_slice(),
            _ => &[],
        }
    }

    /// The same variable under the name `name`.
    pub(crate) fn renamed(self, name: String) -> (r: Mat)
        ensures
            r@ == (MatView { name: name@, ..self@ }),
    {
        proof {
            use_type_invariant(&self);
        }
        let mut m = self;
        m.name = name;
        m
    }

    /// The name of the variable, as it is held.
    pub closed spec fn label(self) -> String {
        self.name
    }

    /// Returns a copy of the name of the variable.
    pub(crate) fn label_clone(&self) -> (r: String)
        ensures
            r == self.label(),
            r@ == self@.name,
    {
        self.name.clone()
    }

    /// The error for a variable found where one of type `expected` was wanted.
    pub(crate) fn type_mismatch(&self, expected: MatType) -> (r: MatioError)
        ensures
            r == MatioError::TypeMismatch(self.label(), expected, self@.data.mat_type()),
    {
        MatioError::TypeMismatch(self.name.clone(), expected, self.mat_type())
    }

    /// Returns the name of the variable.
    pub fn name(&self) -> (r: &str)
        ensures
            r@ == self@.name,
    {
        self.name.as_str()
    }

    /// Returns who frees the payload of the variable.
    pub fn owner(&self) -> (r: Ownership)
        ensures
            r == self@.owner,
    {
        self.owner
    }

    /// Returns the payload of the variable.
    pub fn data(&self) -> (r: &Data)
        ensures
            r@ == self@.data,
    {
        &self.data
    }

    /// Returns the rank (number of dimensions) of the variable.
    pub fn rank(&self) -> (r: usize)
        ensures
            r == self@.dims.len(),
    {
        self.dims.len()
    }

    /// Returns the dimensions of the variable.
    pub fn dims(&self) -> (r: Vec<usize>)
        ensures
            r@ == self@.dims,
    {
        vstd::slice::slice_to_vec(self.dims.as_slice())
    }

    /// Returns the number of elements of the variable.
    pub fn len(&self) -> (r: usize)
        ensures
            r as nat == product(self@.dims),
    {
        proof {
            use_type_invariant(self);
        }
        match &self.data {
            Data::Double(v) => v.len(),
            Data::Single(v) => v.len(),
            Data::Int8(v) => v.len(),
            Data::Int16(v) => v.len(),
            Data::Int32(v) => v.len(),
            Data::Int64(v) => v.len(),
            Data::UInt8(v) => v.len(),
            Data::UInt16(v) => v.len(),
            Data::UInt32(v) => v.len(),
            Data::UInt64(v) => v.len(),
            Data::Char(v) => v.len(),
            Data::Cell(v) => v.len(),
            Data::Struct(_) => {
                proof {
                    assert(self.dims@ =~= seq![1usize, self.dims@[1]]);
                    lemma_product_row(self.dims@[1]);
                }
                self.dims[1]
            },
        }
    }

    /// Returns the children of the structure named `name`: one for each element
    /// of a structure array, in order.
    pub fn field(&self, name: &str) -> (r: Result<Vec<&Mat>, MatioError>)
        ensures
            !(self@.data is Struct) ==> (r matches Err(MatioError::TypeMismatch(n, e, f)) && n@
                == self@.name && e == MatType::STRUCT && f == self@.data.mat_type()),
            self@.data is Struct ==> match r {
                Ok(v) => derefs(v@) == fields_named(self@.data.children(), name@) && v@.len() > 0,
                Err(e) => e matches MatioError::FieldNotFound(n) && n@ == name@ && fields_named(
                    self@.data.children(),
                    name@,
                ).len() == 0,
            },
    {
        let children = match &self.data {
            Data::Struct(c) => c,
            _ => {
                return Err(
                    MatioError::TypeMismatch(self.name.clone(), MatType::STRUCT, self.mat_type()),
                );
            },
        };
        let ghost pred = named(name@);
        let key = name.to_owned();
        let mut found: Vec<&Mat> = Vec::new();
        let mut i: usize = 0;
        while i < children.len()
            invariant
                i <= children@.len(),
                key@ == name@,
                pred == named(name@),
                derefs(found@) == children@.take(i as int).filter(pred),
            decreases children@.len() - i,
        {
            let c = &children[i];
            proof {
                assert(children@.take(i + 1) =~= children@.take(i as int).push(children@[i as int]));
                children@.take(i as int).lemma_filter_push(children@[i as int], pred);
            }
            let ghost old_found = found@;
            if c.name == key {
                found.push(c);
                proof {
                    assert(derefs(found@) =~= derefs(old_found).push(*c));
                }
            }
            i += 1;
        }
        proof {
            assert(children@.take(children@.len() as int) =~= children@);
        }
        if found.len() == 0 {
            return Err(MatioError::FieldNotFound(name.to_owned()));
        }
        Ok(found)
    }

    /// Returns the type of the variable.
    pub fn mat_type(&self) -> (r: MatType)
        ensures
            r == self@.data.mat_type(),
    {
        match &self.data {
            Data::Double(_) => MatType::DOUBLE,
            Data::Single(_) => MatType::SINGLE,
            Data::Int8(_) => MatType::INT8,
            Data::Int16(_) => MatType::INT16,
            Data::Int32(_) => MatType::INT32,
            Data::Int64(_) => MatType::INT64,
            Data::UInt8(_) => MatType::UINT8,
            Data::UInt16(_) => MatType::UINT16,
            Data::UInt32(_) => MatType::UINT32,
            Data::UInt64(_) => MatType::UINT64,
            Data::Char(_) => MatType::CHAR,
            Data::Cell(_) => MatType::CELL,
            Data::Struct(_) => MatType::STRUCT,
        }
    }

    /// Every variable obeys the shape rules.
    #[verifier::type_invariant]
    pub open spec fn well_formed(&self) -> bool {
        shape_ok(self@) && below_borrowed(*self)
    }
}

} // verus!
