use vstd::prelude::*;

use crate::convert::{Encode, MatValue};
use crate::error::MatioError;
use crate::mat::{
    checked_name, count_named, names, struct_layout, valid_name, DataView, Mat, MatView, Ownership,
};

verus! {

broadcast use vstd::seq_lib::group_seq_properties;

/// The distinct names of `s`, in order of first occurrence.
pub open spec fn distinct(s: Seq<Seq<char>>) -> Seq<Seq<char>>
    decreases s.len(),
{
    if s.len() == 0 {
        Seq::empty()
    } else {
        let d = distinct(s.drop_last());
        if d.contains(s.last()) {
            d
        } else {
            d.push(s.last())
        }
    }
}

/// For each field name, in order of first occurrence, how many of the fields carry it.
pub open spec fn field_counts(f: Seq<Mat>) -> Seq<usize> {
    distinct(names(f)).map_values(|n: Seq<char>| count_named(f, n) as usize)
}

/// Whether the fields make a structure array: at least one field, and every
/// field name occurring as often as every other.
pub open spec fn uniform(f: Seq<Mat>) -> bool {
    f.len() > 0 && struct_layout(f, count_named(f, f[0]@.name))
}

/// The structure form of the fields `f`: a `1 x k` structure array whose
/// children are the fields, in order, now owned by the structure.
pub open spec fn holds_struct(dims: Seq<usize>, data: DataView, f: Seq<Mat>) -> bool {
    &&& uniform(f)
    &&& dims == seq![1usize, count_named(f, f[0]@.name) as usize]
    &&& data is Struct
    &&& data.children().len() == f.len()
    &&& forall|i: int|
        0 <= i < f.len() ==> (#[trigger] data.children()[i])@ == (MatView {
            owner: Ownership::BorrowedByParent,
            ..f[i]@
        })
}

/// The error reported for fields that do not make a structure array.
pub open spec fn struct_refusal(f: Seq<Mat>, e: MatioError) -> bool {
    if f.len() == 0 {
        e is NoFields
    } else {
        e matches MatioError::FieldSize(c) && c@ == field_counts(f)
    }
}

/// A name is among the distinct names exactly when it occurs.
pub proof fn lemma_distinct_contains(s: Seq<Seq<char>>, x: Seq<char>)
    ensures
        distinct(s).contains(x) <==> s.contains(x),
    decreases s.len(),
{
    if s.len() > 0 {
        let p = s.drop_last();
        lemma_distinct_contains(p, x);
        if s.contains(x) && x != s.last() {
            let i = choose|i: int| 0 <= i < s.len() && s[i] == x;
            assert(p[i] == x);
        }
        if p.contains(x) {
            let i = choose|i: int| 0 <= i < p.len() && p[i] == x;
            assert(s[i] == x);
        }
        if distinct(s).contains(x) && !distinct(p).contains(x) {
            assert(x == s.last());
            assert(s[s.len() - 1] == x);
        }
    }
}

/// Counts the variables of `f` named `name`.
fn count_name(f: &Vec<Mat>, name: &String) -> (r: usize)
    ensures
        r as nat == count_named(f@, name@),
{
    let ghost pred = |n: Seq<char>| n == name@;
    let mut c: usize = 0;
    let mut i: usize = 0;
    while i < f.len()
        invariant
            i <= f@.len(),
            pred == (|n: Seq<char>| n == name@),
            c as nat == names(f@.take(i as int)).filter(pred).len(),
            c <= i,
        decreases f@.len() - i,
    {
        proof {
            assert(names(f@.take(i + 1)) =~= names(f@.take(i as int)).push(f@[i as int]@.name));
            names(f@.take(i as int)).lemma_filter_push(f@[i as int]@.name, pred);
        }
        if f[i].label_clone() == *name {
            c += 1;
        }
        i += 1;
    }
    proof {
        assert(f@.take(f@.len() as int) =~= f@);
    }
    c
}

/// Returns the distinct names of the fields, in order of first occurrence.
fn distinct_names(fields: &Vec<Mat>) -> (r: Vec<String>)
    ensures
        r@.map_values(|s: String| s@) == distinct(names(fields@)),
{
    let mut seen: Vec<String> = Vec::new();
    let mut i: usize = 0;
    while i < fields.len()
        invariant
            i <= fields@.len(),
            seen@.map_values(|s: String| s@) == distinct(names(fields@.take(i as int))),
        decreases fields@.len() - i,
    {
        let x = fields[i].label_clone();
        let ghost prev = names(fields@.take(i as int));
        proof {
            assert(names(fields@.take(i + 1)) =~= prev.push(x@));
            assert(names(fields@.take(i + 1)).drop_last() =~= prev);
        }
        let mut found = false;
        let mut j: usize = 0;
        while j < seen.len()
            invariant
                j <= seen@.len(),
                found <==> exists|l: int| 0 <= l < j && seen@[l]@ == x@,
            decreases seen@.len() - j,
        {
            if seen[j] == x {
                found = true;
            }
            j += 1;
        }
        let ghost d = seen@.map_values(|s: String| s@);
        proof {
            if found {
                let l = choose|l: int| 0 <= l < seen@.len() && seen@[l]@ == x@;
                assert(d[l] == x@);
            } else {
                assert forall|l: int| 0 <= l < d.len() implies d[l] != x@ by {
                    assert(d[l] == seen@[l]@);
                }
            }
        }
        if !found {
            seen.push(x);
            proof {
                assert(seen@.map_values(|s: String| s@) =~= d.push(x@));
            }
        }
        i += 1;
    }
    proof {
        assert(fields@.take(fields@.len() as int) =~= fields@);
    }
    seen
}

/// Returns how many fields carry each of the names `seen`.
fn counts_of(fields: &Vec<Mat>, seen: &Vec<String>) -> (r: Vec<usize>)
    ensures
        r@ == seen@.map_values(|s: String| count_named(fields@, s@) as usize),
{
    let mut counts: Vec<usize> = Vec::new();
    let mut j: usize = 0;
    while j < seen.len()
        invariant
            j <= seen@.len(),
            counts@ == seen@.take(j as int).map_values(
                |s: String| count_named(fields@, s@) as usize,
            ),
        decreases seen@.len() - j,
    {
        let c = count_name(fields, &seen[j]);
        proof {
            assert(seen@.take(j + 1) =~= seen@.take(j as int).push(seen@[j as int]));
        }
        counts.push(c);
        proof {
            assert(counts@ =~= seen@.take(j + 1).map_values(
                |s: String| count_named(fields@, s@) as usize,
            ));
        }
        j += 1;
    }
    proof {
        assert(seen@.take(seen@.len() as int) =~= seen@);
    }
    counts
}

/// Makes the structure named `name` out of the fields `fields`, in order:
/// refused without fields, and when some field name occurs a different
/// number of times than another.
pub(crate) fn compose(name: String, fields: Vec<Mat>) -> (r: Result<Mat, MatioError>)
    ensures
        r is Ok <==> uniform(fields@),
        r matches Ok(m) ==> {
            &&& m@.name == name@
            &&& m@.owner == Ownership::Owned
            &&& holds_struct(m@.dims, m@.data, fields@)
        },
        r matches Err(e) ==> struct_refusal(fields@, e),
{
    if fields.len() == 0 {
        return Err(MatioError::NoFields);
    }
    let seen = distinct_names(&fields);
    let counts = counts_of(&fields, &seen);
    let ghost d = seen@.map_values(|s: String| s@);
    proof {
        assert(counts@ =~= field_counts(fields@)) by {
            assert forall|l: int| 0 <= l < counts@.len() implies counts@[l] == field_counts(
                fields@,
            )[l] by {
                assert(d[l] == seen@[l]@);
            }
        }
    }
    let k = count_name(&fields, &fields[0].label_clone());
    let mut l: usize = 0;
    while l < counts.len()
        invariant
            l <= counts@.len(),
            counts@ == field_counts(fields@),
            fields@.len() > 0,
            k as nat == count_named(fields@, fields@[0]@.name),
            forall|m: int| 0 <= m < l ==> counts@[m] == k,
        decreases counts@.len() - l,
    {
        if counts[l] != k {
            proof {
                // the name counted at `l` occurs in the fields, as often as counted
                let ds = distinct(names(fields@));
                let n = ds[l as int];
                assert(ds.contains(n));
                lemma_distinct_contains(names(fields@), n);
                let i = choose|i: int| 0 <= i < names(fields@).len() && names(fields@)[i] == n;
                assert(count_named(fields@, fields@[i]@.name) != k as nat);
            }
            return Err(MatioError::FieldSize(counts));
        }
        l += 1;
    }
    proof {
        assert forall|i: int| 0 <= i < fields@.len() implies #[trigger] count_named(
            fields@,
            fields@[i]@.name,
        ) == k as nat by {
            let n = fields@[i]@.name;
            let ds = distinct(names(fields@));
            assert(names(fields@)[i] == n);
            lemma_distinct_contains(names(fields@), n);
            let m = choose|m: int| 0 <= m < ds.len() && ds[m] == n;
            assert(counts@[m] == k);
        }
    }
    Ok(Mat::struct_of(name, fields, k))
}

impl MatValue for Vec<Mat> {
    type V = Seq<Mat>;

    open spec fn value(&self) -> Seq<Mat> {
        self@
    }
}

impl Encode for Vec<Mat> {
    open spec fn holds(dims: Seq<usize>, data: DataView, v: Seq<Mat>) -> bool {
        holds_struct(dims, data, v)
    }

    open spec fn encodable(v: Seq<Mat>) -> bool {
        uniform(v)
    }

    open spec fn refusal(v: Seq<Mat>, e: MatioError) -> bool {
        struct_refusal(v, e)
    }

    fn encode(self, name: &str) -> (r: Result<Mat, MatioError>) {
        let name = match checked_name(name) {
            Ok(n) => n,
            Err(e) => {
                return Err(e);
            },
        };
        compose(name, self)
    }
}

/// The fields of a structure array given field by field: each inner
/// sequence holds the elements of one field, in order.
pub open spec fn flat_fields(v: Seq<Seq<Mat>>) -> Seq<Mat> {
    v.flatten()
}

impl MatValue for Vec<Vec<Mat>> {
    type V = Seq<Seq<Mat>>;

    open spec fn value(&self) -> Seq<Seq<Mat>> {
        self@.map_values(|f: Vec<Mat>| f@)
    }
}

impl Encode for Vec<Vec<Mat>> {
    open spec fn holds(dims: Seq<usize>, data: DataView, v: Seq<Seq<Mat>>) -> bool {
        holds_struct(dims, data, flat_fields(v))
    }

    open spec fn encodable(v: Seq<Seq<Mat>>) -> bool {
        uniform(flat_fields(v))
    }

    open spec fn refusal(v: Seq<Seq<Mat>>, e: MatioError) -> bool {
        struct_refusal(flat_fields(v), e)
    }

    fn encode(self, name: &str) -> (r: Result<Mat, MatioError>) {
        let name = match checked_name(name) {
            Ok(n) => n,
            Err(e) => {
                return Err(e);
            },
        };
        let ghost whole = self.value();
        let mut rest = self;
        let mut fields: Vec<Mat> = Vec::new();
        proof {
            assert(fields@ + whole.flatten() =~= whole.flatten());
        }
        while rest.len() > 0
            invariant
                fields@ + rest@.map_values(|f: Vec<Mat>| f@).flatten() == whole.flatten(),
            decreases rest@.len(),
        {
            let ghost before = rest@.map_values(|f: Vec<Mat>| f@);
            let mut first = rest.remove(0);
            proof {
                assert(before.drop_first() =~= rest@.map_values(|f: Vec<Mat>| f@));
                assert(before.first() == first@);
            }
            let ghost acc = fields@;
            fields.append(&mut first);
            proof {
                assert(acc + before.flatten() =~= fields@ + rest@.map_values(
                    |f: Vec<Mat>| f@,
                ).flatten());
            }
        }
        proof {
            assert(rest@.map_values(|f: Vec<Mat>| f@) =~= Seq::<Seq<Mat>>::empty());
            assert(fields@ =~= whole.flatten());
        }
        compose(name, fields)
    }
}

/// Accumulates the fields of a structure, then builds it.
pub struct MatStructBuilder {
    name: String,
    fields: Vec<Mat>,
}

impl MatStructBuilder {
    /// The name of the structure to build.
    pub closed spec fn name_spec(&self) -> Seq<char> {
        self.name@
    }

    /// The fields added so far, in order, each named after its field.
    pub closed spec fn fields_spec(&self) -> Seq<Mat> {
        self.fields@
    }

    /// Starts a structure named `name`, without fields.
    pub fn new(name: &str) -> (r: MatStructBuilder)
        ensures
            r.name_spec() == name@,
            r.fields_spec().len() == 0,
    {
        MatStructBuilder { name: name.to_owned(), fields: Vec::new() }
    }

    /// Adds the field `name` holding `value`; added again under the same name,
    /// it makes one more element of a structure array.
    pub fn field<T: Encode>(self, name: &str, value: T) -> (r: Result<MatStructBuilder, MatioError>)
        ensures
            r is Ok <==> valid_name(name@) && T::encodable(value.value()),
            r matches Ok(b) ==> {
                &&& b.name_spec() == self.name_spec()
                &&& b.fields_spec().len() == self.fields_spec().len() + 1
                &&& b.fields_spec().drop_last() == self.fields_spec()
                &&& b.fields_spec().last()@.name == name@
                &&& T::holds(b.fields_spec().last()@.dims, b.fields_spec().last()@.data, value.value())
            },
            !valid_name(name@) ==> (r matches Err(MatioError::MatName(n)) && n@ == name@),
            valid_name(name@) && !T::encodable(value.value()) ==> (r matches Err(e)
                && T::refusal(value.value(), e)),
    {
        let m = match value.encode(name) {
            Ok(m) => m,
            Err(e) => {
                return Err(e);
            },
        };
        let mut b = self;
        b.fields.push(m);
        proof {
            assert(b.fields@.drop_last() =~= self.fields@);
        }
        Ok(b)
    }

    /// Builds the structure out of the fields added, in order: refused without
    /// fields, when some field name occurs a different number of times than
    /// another, and when the structure's own name holds a NUL character.
    pub fn build(self) -> (r: Result<Mat, MatioError>)
        ensures
            r is Ok <==> valid_name(self.name_spec()) && uniform(self.fields_spec()),
            r matches Ok(m) ==> {
                &&& m@.name == self.name_spec()
                &&& m@.owner == Ownership::Owned
                &&& holds_struct(m@.dims, m@.data, self.fields_spec())
            },
            !valid_name(self.name_spec()) ==> (r matches Err(MatioError::MatName(n)) && n@
                == self.name_spec()),
            valid_name(self.name_spec()) && !uniform(self.fields_spec()) ==> (r matches Err(e)
                && struct_refusal(self.fields_spec(), e)),
    {
        let name = match checked_name(self.name.as_str()) {
            Ok(n) => n,
            Err(e) => {
                return Err(e);
            },
        };
        compose(name, self.fields)
    }
}

} // verus!
