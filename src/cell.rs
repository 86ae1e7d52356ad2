//! Heterogeneous, fixed-arity cell arrays.
//!
//! `Cell::new(a).push(b).push(c)` holds the items `a`, `b`, `c` in that order.
//! Each node knows its position counted from the last node: the last node is
//! at index 0, and each other node one above its successor. A cell array of
//! `n` elements therefore holds the node of index `i` at position `n - i - 1`.

use vstd::prelude::*;

use crate::convert::{Codec, Decode, Encode, MatValue};
use crate::datatype::MatType;
use crate::error::MatioError;
use crate::mat::{checked_name, valid_name, Data, DataView, Mat, Ownership};

verus! {

/// The last node of a cell array.
#[derive(Debug, Clone, PartialEq)]
pub struct LastCell<T> {
    pub(crate) item: T,
}

/// A node of a cell array followed by the nodes `C`.
#[derive(Debug, Clone, PartialEq)]
pub struct Cell<T, C> {
    pub(crate) item: T,
    pub(crate) next_cell: C,
}

impl<T> LastCell<T> {
    /// The item of the node.
    pub closed spec fn item_spec(&self) -> T {
        self.item
    }

    /// Returns the item of the node.
    pub fn item(self) -> (r: T)
        ensures
            r == self.item_spec(),
    {
        self.item
    }
}

impl<T, C> Cell<T, C> {
    /// The item of the node.
    pub closed spec fn item_spec(&self) -> T {
        self.item
    }

    /// The nodes that follow.
    pub closed spec fn next_spec(&self) -> C {
        self.next_cell
    }

    /// Returns the item of the node and the nodes that follow.
    pub fn split(self) -> (r: (T, C))
        ensures
            r.0 == self.item_spec(),
            r.1 == self.next_spec(),
    {
        (self.item, self.next_cell)
    }
}

impl<T> Cell<T, LastCell<T>> {
    /// Starts a cell array with the single item `item`.
    pub fn new(item: T) -> (r: LastCell<T>)
        ensures
            r.item_spec() == item,
    {
        LastCell { item }
    }
}

/// The nodes of a cell array.
pub trait CellBounds: Sized {
    type Item;

    type NextCell;

    /// The index of the node, counted from the last node.
    spec fn index_spec() -> nat;

    /// The item of the node.
    spec fn item_of(&self) -> Self::Item;

    /// The nodes that follow, if any.
    spec fn next_of(&self) -> Option<Self::NextCell>;

    /// Returns the index of the node when it is below `n`.
    fn index_below(n: usize) -> (r: Option<usize>)
        ensures
            match r {
                Some(i) => i as nat == Self::index_spec() && i < n,
                None => Self::index_spec() >= n,
            },
    ;

    /// Returns the item of the node.
    fn i(&self) -> (r: &Self::Item)
        ensures
            *r == self.item_of(),
    ;

    /// Returns the nodes that follow, if any.
    fn n(&self) -> (r: Option<&Self::NextCell>)
        ensures
            match r {
                Some(x) => self.next_of() == Some(*x),
                None => self.next_of() is None,
            },
    ;
}

impl<T> CellBounds for LastCell<T> {
    type Item = T;

    type NextCell = Self;

    open spec fn index_spec() -> nat {
        0
    }

    open spec fn item_of(&self) -> T {
        self.item_spec()
    }

    open spec fn next_of(&self) -> Option<Self> {
        None
    }

    fn index_below(n: usize) -> (r: Option<usize>) {
        if n > 0 {
            Some(0)
        } else {
            None
        }
    }

    fn i(&self) -> (r: &T) {
        &self.item
    }

    fn n(&self) -> (r: Option<&Self>) {
        None
    }
}

impl<T, C: CellBounds> CellBounds for Cell<T, C> {
    type Item = T;

    type NextCell = C;

    open spec fn index_spec() -> nat {
        C::index_spec() + 1
    }

    open spec fn item_of(&self) -> T {
        self.item_spec()
    }

    open spec fn next_of(&self) -> Option<C> {
        Some(self.next_spec())
    }

    fn index_below(n: usize) -> (r: Option<usize>) {
        match C::index_below(n) {
            Some(j) => if j + 1 < n {
                Some(j + 1)
            } else {
                None
            },
            None => None,
        }
    }

    fn i(&self) -> (r: &T) {
        &self.item
    }

    fn n(&self) -> (r: Option<&C>) {
        Some(&self.next_cell)
    }
}

/// Appending an item at the end of a cell array.
pub trait PushBack<I>: Sized {
    type Output;

    /// Whether `r` is `self` with `item` appended at the end.
    spec fn pushed(self, item: I, r: Self::Output) -> bool;

    /// Appends `item` at the end of the cell array.
    fn push(self, item: I) -> (r: Self::Output)
        ensures
            Self::pushed(self, item, r),
    ;
}

impl<T, I> PushBack<I> for LastCell<T> {
    type Output = Cell<T, LastCell<I>>;

    open spec fn pushed(self, item: I, r: Cell<T, LastCell<I>>) -> bool {
        r.item_spec() == self.item_spec() && r.next_spec().item_spec() == item
    }

    fn push(self, item: I) -> (r: Cell<T, LastCell<I>>) {
        Cell { item: self.item, next_cell: LastCell { item } }
    }
}

impl<T, I, C: PushBack<I>> PushBack<I> for Cell<T, C> {
    type Output = Cell<T, C::Output>;

    open spec fn pushed(self, item: I, r: Cell<T, C::Output>) -> bool {
        r.item_spec() == self.item_spec() && C::pushed(self.next_spec(), item, r.next_spec())
    }

    fn push(self, item: I) -> (r: Cell<T, C::Output>) {
        Cell { item: self.item, next_cell: self.next_cell.push(item) }
    }
}

/// The first `k` elements taken off the back of `s`, in the order taken.
pub open spec fn popped<T>(s: Seq<T>, k: nat) -> Seq<T> {
    Seq::new(k, |i: int| s[s.len() - 1 - i])
}

/// Cell arrays whose items all have the type `T`.
pub trait CellVec<T>: CellBounds {
    /// The items, head first.
    spec fn items(&self) -> Seq<T>;

    /// There is one item for each node.
    proof fn lemma_items_len(&self)
        ensures
            self.items().len() == Self::index_spec() + 1,
    ;

    /// Returns the item of the node of index `idx`; index `0` is the last node.
    fn get(&self, idx: usize) -> (r: Option<&T>)
        ensures
            match r {
                Some(x) => idx <= Self::index_spec() && *x == self.items()[Self::index_spec() - idx],
                None => idx > Self::index_spec(),
            },
    ;

    /// Returns the items, head first.
    fn into_vec(self) -> (r: Vec<T>)
        ensures
            r@ == self.items(),
    ;

    /// Takes the items off the back of `v`: the last element of `v` becomes
    /// the head, so that the node of index `i` holds what was at position `i`
    /// of the elements taken. Without enough elements, `v` is emptied and
    /// nothing is returned.
    fn from_vec(v: &mut Vec<T>) -> (r: Option<Self>)
        ensures
            old(v)@.len() > Self::index_spec() ==> (r matches Some(c) && c.items() == popped(
                old(v)@,
                Self::index_spec() + 1,
            ) && final(v)@ == old(v)@.take(old(v)@.len() - Self::index_spec() - 1)),
            old(v)@.len() <= Self::index_spec() ==> (r is None && final(v)@.len() == 0),
    ;
}

impl<T> CellVec<T> for LastCell<T> {
    open spec fn items(&self) -> Seq<T> {
        seq![self.item_spec()]
    }

    proof fn lemma_items_len(&self) {
    }

    fn get(&self, idx: usize) -> (r: Option<&T>) {
        if idx == 0 {
            Some(&self.item)
        } else {
            None
        }
    }

    fn into_vec(self) -> (r: Vec<T>) {
        let mut v: Vec<T> = Vec::new();
        v.push(self.item);
        proof {
            assert(v@ =~= seq![self.item]);
        }
        v
    }

    fn from_vec(v: &mut Vec<T>) -> (r: Option<LastCell<T>>) {
        match v.pop() {
            Some(item) => {
                proof {
                    assert(popped(old(v)@, 1) =~= seq![item]);
                    assert(v@ =~= old(v)@.take(old(v)@.len() - 1));
                }
                Some(LastCell { item })
            },
            None => None,
        }
    }
}

impl<T, C: CellVec<T>> CellVec<T> for Cell<T, C> {
    open spec fn items(&self) -> Seq<T> {
        seq![self.item_spec()] + self.next_spec().items()
    }

    proof fn lemma_items_len(&self) {
        self.next_spec().lemma_items_len();
    }

    fn get(&self, idx: usize) -> (r: Option<&T>) {
        proof {
            self.next_cell.lemma_items_len();
        }
        match C::index_below(idx) {
            Some(j) => if j + 1 == idx {
                Some(&self.item)
            } else {
                None
            },
            None => {
                let r = self.next_cell.get(idx);
                proof {
                    if r is Some {
                        assert(self.items()[Self::index_spec() - idx] == self.next_cell.items()[C::index_spec() - idx]);
                    }
                }
                r
            },
        }
    }

    fn into_vec(self) -> (r: Vec<T>) {
        let mut v: Vec<T> = Vec::new();
        v.push(self.item);
        let mut rest = self.next_cell.into_vec();
        v.append(&mut rest);
        proof {
            assert(v@ =~= self.items());
        }
        v
    }

    fn from_vec(v: &mut Vec<T>) -> (r: Option<Cell<T, C>>) {
        let item = match v.pop() {
            Some(item) => item,
            None => {
                return None;
            },
        };
        let ghost rest = v@;
        match C::from_vec(v) {
            Some(next_cell) => {
                proof {
                    let n = old(v)@.len();
                    assert(rest =~= old(v)@.drop_last());
                    assert(popped(old(v)@, Self::index_spec() + 1) =~= seq![item] + popped(
                        rest,
                        C::index_spec() + 1,
                    ));
                    assert(rest.take(rest.len() - C::index_spec() - 1) =~= old(v)@.take(
                        n - Self::index_spec() - 1,
                    ));
                }
                Some(Cell { item, next_cell })
            },
            None => None,
        }
    }
}

/// The dimensions and payload of each variable of `c`.
pub open spec fn payloads(c: Seq<Mat>) -> Seq<(Seq<usize>, DataView)> {
    c.map_values(|m: Mat| (m@.dims, m@.data))
}

/// Cell arrays as the flat sequence of their elements, head first.
pub trait ToMat: CellBounds + MatValue {
    /// Whether the payloads `p` hold the items of `v`, the node of index `i`
    /// at position `p.len() - i - 1`.
    spec fn flat_holds(p: Seq<(Seq<usize>, DataView)>, v: Self::V) -> bool;

    /// Whether every item can be written.
    spec fn flat_encodable(v: Self::V) -> bool;

    /// Whether `e` is the error of the first item that cannot be written.
    spec fn flat_refusal(v: Self::V, e: MatioError) -> bool;

    /// What reading the items from `c` gives, the node of index `i` from
    /// position `c.len() - i - 1`: the values, or the first error.
    spec fn flat_decode(c: Seq<Mat>) -> Result<Self::V, MatioError>;

    /// Writes the items as unnamed variables, head first.
    fn to_mat(self) -> (r: Result<Vec<Mat>, MatioError>)
        ensures
            r is Ok <==> Self::flat_encodable(self.value()),
            r matches Ok(c) ==> {
                &&& c@.len() == Self::index_spec() + 1
                &&& Self::flat_holds(payloads(c@), self.value())
            },
            r matches Err(e) ==> Self::flat_refusal(self.value(), e),
    ;

    /// Reads the items from the variables `c`.
    fn from_flat(c: &Vec<Mat>) -> (r: Result<Self, MatioError>)
        requires
            Self::index_spec() < c@.len(),
        ensures
            match r {
                Ok(x) => Self::flat_decode(c@) == Ok::<Self::V, MatioError>(x.value()),
                Err(e) => Self::flat_decode(c@) == Err::<Self::V, MatioError>(e),
            },
    ;

    /// Reading items from variables that hold them gives them back.
    proof fn lemma_flat_round_trip(c: Seq<Mat>, v: Self::V)
        requires
            Self::index_spec() < c.len(),
            Self::flat_holds(payloads(c), v),
        ensures
            Self::flat_decode(c) == Ok::<Self::V, MatioError>(v),
    ;

    /// Positions counted from the end do not move when a variable is put in front.
    proof fn lemma_prepend(x: (Seq<usize>, DataView), p: Seq<(Seq<usize>, DataView)>, v: Self::V)
        requires
            Self::index_spec() < p.len(),
        ensures
            Self::flat_holds(seq![x] + p, v) == Self::flat_holds(p, v),
    ;
}

impl<T: MatValue> MatValue for LastCell<T> {
    type V = T::V;

    open spec fn value(&self) -> T::V {
        self.item_spec().value()
    }
}

impl<T: MatValue, C: MatValue> MatValue for Cell<T, C> {
    type V = (T::V, C::V);

    open spec fn value(&self) -> (T::V, C::V) {
        (self.item_spec().value(), self.next_spec().value())
    }
}

impl<T: Codec> ToMat for LastCell<T> {
    open spec fn flat_holds(p: Seq<(Seq<usize>, DataView)>, v: T::V) -> bool {
        p.len() > 0 && T::holds(p.last().0, p.last().1, v)
    }

    open spec fn flat_encodable(v: T::V) -> bool {
        T::encodable(v)
    }

    open spec fn flat_refusal(v: T::V, e: MatioError) -> bool {
        T::refusal(v, e)
    }

    open spec fn flat_decode(c: Seq<Mat>) -> Result<T::V, MatioError> {
        T::decode_spec(c.last())
    }

    fn to_mat(self) -> (r: Result<Vec<Mat>, MatioError>) {
        let unnamed = String::new();
        match self.item.encode(unnamed.as_str()) {
            Ok(m) => {
                let mut c: Vec<Mat> = Vec::new();
                c.push(m);
                Ok(c)
            },
            Err(e) => Err(e),
        }
    }

    fn from_flat(c: &Vec<Mat>) -> (r: Result<LastCell<T>, MatioError>) {
        match T::decode(&c[c.len() - 1]) {
            Ok(item) => Ok(LastCell { item }),
            Err(e) => Err(e),
        }
    }

    proof fn lemma_flat_round_trip(c: Seq<Mat>, v: T::V) {
        T::lemma_round_trip(c.last(), v);
    }

    proof fn lemma_prepend(x: (Seq<usize>, DataView), p: Seq<(Seq<usize>, DataView)>, v: T::V) {
        assert((seq![x] + p).last() == p.last());
    }
}

impl<T: Codec, C: ToMat> ToMat for Cell<T, C> {
    open spec fn flat_holds(p: Seq<(Seq<usize>, DataView)>, v: (T::V, C::V)) -> bool {
        let at = p.len() - Self::index_spec() - 1;
        &&& Self::index_spec() < p.len()
        &&& T::holds(p[at].0, p[at].1, v.0)
        &&& C::flat_holds(p, v.1)
    }

    open spec fn flat_encodable(v: (T::V, C::V)) -> bool {
        T::encodable(v.0) && C::flat_encodable(v.1)
    }

    open spec fn flat_refusal(v: (T::V, C::V), e: MatioError) -> bool {
        if !T::encodable(v.0) {
            T::refusal(v.0, e)
        } else {
            C::flat_refusal(v.1, e)
        }
    }

    open spec fn flat_decode(c: Seq<Mat>) -> Result<(T::V, C::V), MatioError> {
        match T::decode_spec(c[c.len() - Self::index_spec() - 1]) {
            Err(e) => Err(e),
            Ok(x) => match C::flat_decode(c) {
                Err(e) => Err(e),
                Ok(y) => Ok((x, y)),
            },
        }
    }

    fn to_mat(self) -> (r: Result<Vec<Mat>, MatioError>) {
        let unnamed = String::new();
        let m = match self.item.encode(unnamed.as_str()) {
            Ok(m) => m,
            Err(e) => {
                return Err(e);
            },
        };
        let mut rest = match self.next_cell.to_mat() {
            Ok(c) => c,
            Err(e) => {
                return Err(e);
            },
        };
        let ghost tail = rest@;
        rest.insert(0, m);
        proof {
            assert(payloads(rest@) =~= seq![(m@.dims, m@.data)] + payloads(tail));
            C::lemma_prepend((m@.dims, m@.data), payloads(tail), self.next_spec().value());
        }
        Ok(rest)
    }

    fn from_flat(c: &Vec<Mat>) -> (r: Result<Cell<T, C>, MatioError>) {
        let i = match Self::index_below(c.len()) {
            Some(i) => i,
            None => {
                return Err(MatioError::Arity(String::new(), c.len()));
            },
        };
        let item = match T::decode(&c[c.len() - i - 1]) {
            Ok(x) => x,
            Err(e) => {
                return Err(e);
            },
        };
        let next_cell = match C::from_flat(c) {
            Ok(y) => y,
            Err(e) => {
                return Err(e);
            },
        };
        Ok(Cell { item, next_cell })
    }

    proof fn lemma_flat_round_trip(c: Seq<Mat>, v: (T::V, C::V)) {
        let at = c.len() - Self::index_spec() - 1;
        T::lemma_round_trip(c[at], v.0);
        C::lemma_flat_round_trip(c, v.1);
    }

    proof fn lemma_prepend(
        x: (Seq<usize>, DataView),
        p: Seq<(Seq<usize>, DataView)>,
        v: (T::V, C::V),
    ) {
        let at = p.len() - Self::index_spec() - 1;
        assert((seq![x] + p)[at + 1] == p[at]);
        C::lemma_prepend(x, p, v.1);
    }
}

/// The cell form of the items of `v`: a `1 x n` cell array of `n` unnamed
/// variables, the node of index `i` at position `n - i - 1`.
pub open spec fn holds_cell<K: ToMat>(dims: Seq<usize>, data: DataView, v: K::V) -> bool {
    &&& dims == seq![1usize, (K::index_spec() + 1) as usize]
    &&& data is Cell
    &&& data.children().len() == K::index_spec() + 1
    &&& K::flat_holds(payloads(data.children()), v)
}

/// What reading a cell array of the items of `K` from `m` gives.
pub open spec fn decode_cell<K: ToMat>(m: Mat) -> Result<K::V, MatioError> {
    match m@.data {
        DataView::Cell(c) => if c.len() == K::index_spec() + 1 {
            K::flat_decode(c)
        } else {
            Err(MatioError::Arity(m.label(), c.len() as usize))
        },
        _ => Err(MatioError::TypeMismatch(m.label(), MatType::CELL, m@.data.mat_type())),
    }
}

/// Writes the items of `k` as a cell array named `name`.
fn encode_cell<K: ToMat>(name: &str, k: K) -> (r: Result<Mat, MatioError>)
    ensures
        r is Ok <==> valid_name(name@) && K::flat_encodable(k.value()),
        r matches Ok(m) ==> {
            &&& m@.name == name@
            &&& m@.owner == Ownership::Owned
            &&& holds_cell::<K>(m@.dims, m@.data, k.value())
        },
        !valid_name(name@) ==> (r matches Err(MatioError::MatName(n)) && n@ == name@),
        valid_name(name@) && !K::flat_encodable(k.value()) ==> (r matches Err(e)
            && K::flat_refusal(k.value(), e)),
{
    let name = match checked_name(name) {
        Ok(n) => n,
        Err(e) => {
            return Err(e);
        },
    };
    let items = match k.to_mat() {
        Ok(c) => c,
        Err(e) => {
            return Err(e);
        },
    };
    let m = Mat::cell_of(name, items);
    proof {
        assert(payloads(m@.data.children()) =~= payloads(items@));
    }
    Ok(m)
}

/// Reads the items of `K` from the cell array `m`.
fn decode_cell_items<K: ToMat>(m: &Mat) -> (r: Result<K, MatioError>)
    ensures
        match r {
            Ok(x) => decode_cell::<K>(*m) == Ok::<K::V, MatioError>(x.value()),
            Err(e) => decode_cell::<K>(*m) == Err::<K::V, MatioError>(e),
        },
{
    match m.data() {
        Data::Cell(c) => {
            let n = c.len();
            match K::index_below(n) {
                Some(i) => if i + 1 == n {
                    K::from_flat(c)
                } else {
                    Err(MatioError::Arity(m.label_clone(), n))
                },
                None => Err(MatioError::Arity(m.label_clone(), n)),
            }
        },
        _ => Err(m.type_mismatch(MatType::CELL)),
    }
}

impl<T: Codec> Encode for LastCell<T> {
    open spec fn holds(dims: Seq<usize>, data: DataView, v: T::V) -> bool {
        holds_cell::<LastCell<T>>(dims, data, v)
    }

    open spec fn encodable(v: T::V) -> bool {
        T::encodable(v)
    }

    open spec fn refusal(v: T::V, e: MatioError) -> bool {
        T::refusal(v, e)
    }

    fn encode(self, name: &str) -> (r: Result<Mat, MatioError>) {
        encode_cell(name, self)
    }
}

impl<T: Codec> Decode for LastCell<T> {
    open spec fn decode_spec(m: Mat) -> Result<T::V, MatioError> {
        decode_cell::<LastCell<T>>(m)
    }

    fn decode(m: &Mat) -> (r: Result<LastCell<T>, MatioError>) {
        decode_cell_items(m)
    }
}

impl<T: Codec> Codec for LastCell<T> {
    proof fn lemma_round_trip(m: Mat, v: T::V) {
        Self::lemma_flat_round_trip(m@.data.children(), v);
    }
}

impl<T: Codec, C: ToMat> Encode for Cell<T, C> {
    open spec fn holds(dims: Seq<usize>, data: DataView, v: (T::V, C::V)) -> bool {
        holds_cell::<Cell<T, C>>(dims, data, v)
    }

    open spec fn encodable(v: (T::V, C::V)) -> bool {
        Self::flat_encodable(v)
    }

    open spec fn refusal(v: (T::V, C::V), e: MatioError) -> bool {
        Self::flat_refusal(v, e)
    }

    fn encode(self, name: &str) -> (r: Result<Mat, MatioError>) {
        encode_cell(name, self)
    }
}

impl<T: Codec, C: ToMat> Decode for Cell<T, C> {
    open spec fn decode_spec(m: Mat) -> Result<(T::V, C::V), MatioError> {
        decode_cell::<Cell<T, C>>(m)
    }

    fn decode(m: &Mat) -> (r: Result<Cell<T, C>, MatioError>) {
        decode_cell_items(m)
    }
}

impl<T: Codec, C: ToMat> Codec for Cell<T, C> {
    proof fn lemma_round_trip(m: Mat, v: (T::V, C::V)) {
        Self::lemma_flat_round_trip(m@.data.children(), v);
    }
}


impl<T1: Codec> MatValue for (T1,) {
    type V = (T1::V,);

    open spec fn value(&self) -> (T1::V,) {
        (self.0.value(),)
    }
}

impl<T1: Codec> Encode for (T1,) {
    open spec fn holds(dims: Seq<usize>, data: DataView, v: (T1::V,)) -> bool {
        holds_cell::<LastCell<T1>>(dims, data, v.0)
    }

    open spec fn encodable(v: (T1::V,)) -> bool {
        <LastCell<T1>>::flat_encodable(v.0)
    }

    open spec fn refusal(v: (T1::V,), e: MatioError) -> bool {
        <LastCell<T1>>::flat_refusal(v.0, e)
    }

    fn encode(self, name: &str) -> (r: Result<Mat, MatioError>) {
        let c = LastCell { item: self.0 };
        encode_cell(name, c)
    }
}

impl<T1: Codec> Decode for (T1,) {
    open spec fn decode_spec(m: Mat) -> Result<(T1::V,), MatioError> {
        match decode_cell::<LastCell<T1>>(m) {
            Ok(x) => Ok((x,)),
            Err(e) => Err(e),
        }
    }

    fn decode(m: &Mat) -> (r: Result<(T1,), MatioError>) {
        match decode_cell_items::<LastCell<T1>>(m) {
            Ok(c) => {
                let LastCell { item: x0 } = c;
                Ok((x0,))
            },
            Err(e) => Err(e),
        }
    }
}

impl<T1: Codec> Codec for (T1,) {
    proof fn lemma_round_trip(m: Mat, v: (T1::V,)) {
        <LastCell<T1>>::lemma_round_trip(m, v.0);
    }
}

impl<T1: Codec, T2: Codec> MatValue for (T1, T2) {
    type V = (T1::V, T2::V);

    open spec fn value(&self) -> (T1::V, T2::V) {
        (self.0.value(), self.1.value())
    }
}

impl<T1: Codec, T2: Codec> Encode for (T1, T2) {
    open spec fn holds(dims: Seq<usize>, data: DataView, v: (T1::V, T2::V)) -> bool {
        holds_cell::<Cell<T1, LastCell<T2>>>(dims, data, (v.0, v.1))
    }

    open spec fn encodable(v: (T1::V, T2::V)) -> bool {
        <Cell<T1, LastCell<T2>>>::flat_encodable((v.0, v.1))
    }

    open spec fn refusal(v: (T1::V, T2::V), e: MatioError) -> bool {
        <Cell<T1, LastCell<T2>>>::flat_refusal((v.0, v.1), e)
    }

    fn encode(self, name: &str) -> (r: Result<Mat, MatioError>) {
        let c = Cell { item: self.0, next_cell: LastCell { item: self.1 } };
        encode_cell(name, c)
    }
}

impl<T1: Codec, T2: Codec> Decode for (T1, T2) {
    open spec fn decode_spec(m: Mat) -> Result<(T1::V, T2::V), MatioError> {
        match decode_cell::<Cell<T1, LastCell<T2>>>(m) {
            Ok(x) => Ok((x.0, x.1)),
            Err(e) => Err(e),
        }
    }

    fn decode(m: &Mat) -> (r: Result<(T1, T2), MatioError>) {
        match decode_cell_items::<Cell<T1, LastCell<T2>>>(m) {
            Ok(c) => {
                let Cell { item: x0, next_cell: LastCell { item: x1 } } = c;
                Ok((x0, x1))
            },
            Err(e) => Err(e),
        }
    }
}

impl<T1: Codec, T2: Codec> Codec for (T1, T2) {
    proof fn lemma_round_trip(m: Mat, v: (T1::V, T2::V)) {
        <Cell<T1, LastCell<T2>>>::lemma_round_trip(m, (v.0, v.1));
    }
}

impl<T1: Codec, T2: Codec, T3: Codec> MatValue for (T1, T2, T3) {
    type V = (T1::V, T2::V, T3::V);

    open spec fn value(&self) -> (T1::V, T2::V, T3::V) {
        (self.0.value(), self.1.value(), self.2.value())
    }
}

impl<T1: Codec, T2: Codec, T3: Codec> Encode for (T1, T2, T3) {
    open spec fn holds(dims: Seq<usize>, data: DataView, v: (T1::V, T2::V, T3::V)) -> bool {
        holds_cell::<Cell<T1, Cell<T2, LastCell<T3>>>>(dims, data, (v.0, (v.1, v.2)))
    }

    open spec fn encodable(v: (T1::V, T2::V, T3::V)) -> bool {
        <Cell<T1, Cell<T2, LastCell<T3>>>>::flat_encodable((v.0, (v.1, v.2)))
    }

    open spec fn refusal(v: (T1::V, T2::V, T3::V), e: MatioError) -> bool {
        <Cell<T1, Cell<T2, LastCell<T3>>>>::flat_refusal((v.0, (v.1, v.2)), e)
    }

    fn encode(self, name: &str) -> (r: Result<Mat, MatioError>) {
        let c = Cell { item: self.0, next_cell: Cell { item: self.1, next_cell: LastCell { item: self.2 } } };
        encode_cell(name, c)
    }
}

impl<T1: Codec, T2: Codec, T3: Codec> Decode for (T1, T2, T3) {
    open spec fn decode_spec(m: Mat) -> Result<(T1::V, T2::V, T3::V), MatioError> {
        match decode_cell::<Cell<T1, Cell<T2, LastCell<T3>>>>(m) {
            Ok(x) => Ok((x.0, x.1.0, x.1.1)),
            Err(e) => Err(e),
        }
    }

    fn decode(m: &Mat) -> (r: Result<(T1, T2, T3), MatioError>) {
        match decode_cell_items::<Cell<T1, Cell<T2, LastCell<T3>>>>(m) {
            Ok(c) => {
                let Cell { item: x0, next_cell: Cell { item: x1, next_cell: LastCell { item: x2 } } } = c;
                Ok((x0, x1, x2))
            },
            Err(e) => Err(e),
        }
    }
}

impl<T1: Codec, T2: Codec, T3: Codec> Codec for (T1, T2, T3) {
    proof fn lemma_round_trip(m: Mat, v: (T1::V, T2::V, T3::V)) {
        <Cell<T1, Cell<T2, LastCell<T3>>>>::lemma_round_trip(m, (v.0, (v.1, v.2)));
    }
}

impl<T1: Codec, T2: Codec, T3: Codec, T4: Codec> MatValue for (T1, T2, T3, T4) {
    type V = (T1::V, T2::V, T3::V, T4::V);

    open spec fn value(&self) -> (T1::V, T2::V, T3::V, T4::V) {
        (self.0.value(), self.1.value(), self.2.value(), self.3.value())
    }
}

impl<T1: Codec, T2: Codec, T3: Codec, T4: Codec> Encode for (T1, T2, T3, T4) {
    open spec fn holds(dims: Seq<usize>, data: DataView, v: (T1::V, T2::V, T3::V, T4::V)) -> bool {
        holds_cell::<Cell<T1, Cell<T2, Cell<T3, LastCell<T4>>>>>(dims, data, (v.0, (v.1, (v.2, v.3))))
    }

    open spec fn encodable(v: (T1::V, T2::V, T3::V, T4::V)) -> bool {
        <Cell<T1, Cell<T2, Cell<T3, LastCell<T4>>>>>::flat_encodable((v.0, (v.1, (v.2, v.3))))
    }

    open spec fn refusal(v: (T1::V, T2::V, T3::V, T4::V), e: MatioError) -> bool {
        <Cell<T1, Cell<T2, Cell<T3, LastCell<T4>>>>>::flat_refusal((v.0, (v.1, (v.2, v.3))), e)
    }

    fn encode(self, name: &str) -> (r: Result<Mat, MatioError>) {
        let c = Cell { item: self.0, next_cell: Cell { item: self.1, next_cell: Cell { item: self.2, next_cell: LastCell { item: self.3 } } } };
        encode_cell(name, c)
    }
}

impl<T1: Codec, T2: Codec, T3: Codec, T4: Codec> Decode for (T1, T2, T3, T4) {
    open spec fn decode_spec(m: Mat) -> Result<(T1::V, T2::V, T3::V, T4::V), MatioError> {
        match decode_cell::<Cell<T1, Cell<T2, Cell<T3, LastCell<T4>>>>>(m) {
            Ok(x) => Ok((x.0, x.1.0, x.1.1.0, x.1.1.1)),
            Err(e) => Err(e),
        }
    }

    fn decode(m: &Mat) -> (r: Result<(T1, T2, T3, T4), MatioError>) {
        match decode_cell_items::<Cell<T1, Cell<T2, Cell<T3, LastCell<T4>>>>>(m) {
            Ok(c) => {
                let Cell { item: x0, next_cell: Cell { item: x1, next_cell: Cell { item: x2, next_cell: LastCell { item: x3 } } } } = c;
                Ok((x0, x1, x2, x3))
            },
            Err(e) => Err(e),
        }
    }
}

impl<T1: Codec, T2: Codec, T3: Codec, T4: Codec> Codec for (T1, T2, T3, T4) {
    proof fn lemma_round_trip(m: Mat, v: (T1::V, T2::V, T3::V, T4::V)) {
        <Cell<T1, Cell<T2, Cell<T3, LastCell<T4>>>>>::lemma_round_trip(m, (v.0, (v.1, (v.2, v.3))));
    }
}

impl<T1: Codec, T2: Codec, T3: Codec, T4: Codec, T5: Codec> MatValue for (T1, T2, T3, T4, T5) {
    type V = (T1::V, T2::V, T3::V, T4::V, T5::V);

    open spec fn value(&self) -> (T1::V, T2::V, T3::V, T4::V, T5::V) {
        (self.0.value(), self.1.value(), self.2.value(), self.3.value(), self.4.value())
    }
}

impl<T1: Codec, T2: Codec, T3: Codec, T4: Codec, T5: Codec> Encode for (T1, T2, T3, T4, T5) {
    open spec fn holds(dims: Seq<usize>, data: DataView, v: (T1::V, T2::V, T3::V, T4::V, T5::V)) -> bool {
        holds_cell::<Cell<T1, Cell<T2, Cell<T3, Cell<T4, LastCell<T5>>>>>>(dims, data, (v.0, (v.1, (v.2, (v.3, v.4)))))
    }

    open spec fn encodable(v: (T1::V, T2::V, T3::V, T4::V, T5::V)) -> bool {
        <Cell<T1, Cell<T2, Cell<T3, Cell<T4, LastCell<T5>>>>>>::flat_encodable((v.0, (v.1, (v.2, (v.3, v.4)))))
    }

    open spec fn refusal(v: (T1::V, T2::V, T3::V, T4::V, T5::V), e: MatioError) -> bool {
        <Cell<T1, Cell<T2, Cell<T3, Cell<T4, LastCell<T5>>>>>>::flat_refusal((v.0, (v.1, (v.2, (v.3, v.4)))), e)
    }

    fn encode(self, name: &str) -> (r: Result<Mat, MatioError>) {
        let c = Cell { item: self.0, next_cell: Cell { item: self.1, next_cell: Cell { item: self.2, next_cell: Cell { item: self.3, next_cell: LastCell { item: self.4 } } } } };
        encode_cell(name, c)
    }
}

impl<T1: Codec, T2: Codec, T3: Codec, T4: Codec, T5: Codec> Decode for (T1, T2, T3, T4, T5) {
    open spec fn decode_spec(m: Mat) -> Result<(T1::V, T2::V, T3::V, T4::V, T5::V), MatioError> {
        match decode_cell::<Cell<T1, Cell<T2, Cell<T3, Cell<T4, LastCell<T5>>>>>>(m) {
            Ok(x) => Ok((x.0, x.1.0, x.1.1.0, x.1.1.1.0, x.1.1.1.1)),
            Err(e) => Err(e),
        }
    }

    fn decode(m: &Mat) -> (r: Result<(T1, T2, T3, T4, T5), MatioError>) {
        match decode_cell_items::<Cell<T1, Cell<T2, Cell<T3, Cell<T4, LastCell<T5>>>>>>(m) {
            Ok(c) => {
                let Cell { item: x0, next_cell: Cell { item: x1, next_cell: Cell { item: x2, next_cell: Cell { item: x3, next_cell: LastCell { item: x4 } } } } } = c;
                Ok((x0, x1, x2, x3, x4))
            },
            Err(e) => Err(e),
        }
    }
}

impl<T1: Codec, T2: Codec, T3: Codec, T4: Codec, T5: Codec> Codec for (T1, T2, T3, T4, T5) {
    proof fn lemma_round_trip(m: Mat, v: (T1::V, T2::V, T3::V, T4::V, T5::V)) {
        <Cell<T1, Cell<T2, Cell<T3, Cell<T4, LastCell<T5>>>>>>::lemma_round_trip(m, (v.0, (v.1, (v.2, (v.3, v.4)))));
    }
}

} // verus!
