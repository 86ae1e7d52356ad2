use matio_rs::cell::{Cell, CellBounds, CellVec, LastCell, PushBack};
use matio_rs::{Double, Mat, MatType, MatioError, MayBeFrom, MayBeInto};

#[test]
fn cell() {
    let c = Cell::new(1u32)
        .push(Double::from_bits(1.23456f64.to_bits()))
        .push("qwerty".to_string());
    let _q = c.i();
    let q = c.n().map(|c| c.i());
    assert!(q.is_some());
    let q = c.n().and_then(|c| c.n().map(|c| c.i()));
    assert!(q.is_some());
    let q = c.n().and_then(|c| c.n().and_then(|c| c.n().map(|c| c.i())));
    assert!(q.is_none());

    let mat = Mat::maybe_from("cell", c.clone()).unwrap();
    let c1: Cell<u32, Cell<Double, LastCell<String>>> = mat.maybe_into().unwrap();
    assert_eq!(c, c1);
}

#[test]
fn into_vec() {
    let c = Cell::new(0i32).push(1i32).push(2i32).push(3i32).push(4i32);
    let v: Vec<i32> = c.into_vec();
    assert_eq!(v, vec![0i32, 1, 2, 3, 4]);
}

#[test]
fn cell_elements_in_push_order() {
    let c = Cell::new(1u32).push(2i8).push("ab".to_string());
    let mat = Mat::maybe_from("c", c).unwrap();
    assert_eq!(mat.mat_type(), MatType::CELL);
    assert_eq!(mat.dims(), vec![1, 3]);
    let first: (u32, i8, String) = mat.maybe_into().unwrap();
    assert_eq!(first, (1u32, 2i8, "ab".to_string()));
}

#[test]
fn tuple_round_trip() {
    let t = (1u32, Double::from_bits(1.23f64.to_bits()), "qwerty".to_string());
    let mat = Mat::maybe_from("t", t.clone()).unwrap();
    let back: (u32, Double, String) = mat.maybe_into().unwrap();
    assert_eq!(back, t);
    assert_eq!(f64::from_bits(back.1.to_bits()), 1.23f64);
}

#[test]
fn cell_of_wrong_arity_is_refused() {
    let mat = Mat::maybe_from("t", (1u32, 2u32, 3u32)).unwrap();
    let r: Result<(u32, u32), MatioError> = mat.maybe_into();
    assert!(matches!(r, Err(MatioError::Arity(ref n, 3)) if n == "t"));
}

#[test]
fn cell_item_of_wrong_type_is_refused() {
    let mat = Mat::maybe_from("t", (1u32, 2u32)).unwrap();
    let r: Result<(u32, i64), MatioError> = mat.maybe_into();
    assert!(matches!(r, Err(MatioError::TypeMismatch(_, MatType::INT64, MatType::UINT32))));
}

#[test]
fn cell_get_counts_from_the_last_node() {
    let c = Cell::new(10i32).push(11i32).push(12i32);
    assert_eq!(c.get(0), Some(&12));
    assert_eq!(c.get(2), Some(&10));
    assert_eq!(c.get(3), None);
}

#[test]
fn cell_from_vec_takes_from_the_back() {
    let mut v = vec![1i32, 2, 3, 4];
    let c: Option<Cell<i32, Cell<i32, LastCell<i32>>>> = CellVec::from_vec(&mut v);
    let c = c.unwrap();
    assert_eq!(v, vec![1]);
    assert_eq!(c.get(0), Some(&2));
    assert_eq!(c.into_vec(), vec![4, 3, 2]);
    let mut short = vec![1i32];
    let d: Option<Cell<i32, LastCell<i32>>> = CellVec::from_vec(&mut short);
    assert!(d.is_none());
    assert!(short.is_empty());
}

#[test]
fn split_and_item() {
    let c = Cell::new(5u8).push(6u16);
    let (a, rest) = c.split();
    assert_eq!(a, 5u8);
    assert_eq!(rest.item(), 6u16);
}

#[test]
fn cell_of_variables_keeps_order_and_takes_them_over() {
    let a = Mat::maybe_from("", 1u8).unwrap();
    let b = Mat::maybe_from("", "two").unwrap();
    let c = Mat::cell("c", vec![a, b]).unwrap();
    assert_eq!(c.mat_type(), MatType::CELL);
    assert_eq!(c.dims(), vec![1, 2]);
    let items = c.children();
    assert_eq!(items.len(), 2);
    let first: u8 = (&items[0]).maybe_into().unwrap();
    let second: String = (&items[1]).maybe_into().unwrap();
    assert_eq!((first, second.as_str()), (1u8, "two"));
    assert!(items.iter().all(|m| m.owner() == matio_rs::Ownership::BorrowedByParent));
    assert!(matches!(Mat::cell("c\0", vec![]), Err(MatioError::MatName(_))));
    assert!(Mat::maybe_from("x", 3i16).unwrap().children().is_empty());
}
