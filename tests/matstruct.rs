use matio_rs::{Double, Mat, MatStructBuilder, MatType, MatioError, MayBeFrom, MayBeInto, Ownership};

#[test]
fn test_create() {
    let v = vec![0i32, 1, 2, 3, 4];
    let mat = MatStructBuilder::new("s")
        .field("fa", Double::from_bits(123f64.to_bits()))
        .unwrap()
        .field("fb", &v)
        .unwrap()
        .build()
        .unwrap();
    assert_eq!(mat.mat_type(), MatType::STRUCT);
    let fa: Double = mat.field("fa").unwrap()[0].maybe_into().unwrap();
    assert_eq!(f64::from_bits(fa.to_bits()), 123f64);
    let fb: Vec<i32> = mat.field("fb").unwrap()[0].maybe_into().unwrap();
    assert_eq!(fb, v);
}

#[test]
fn missing_field_is_reported() {
    let mat_a = Mat::maybe_from("fa", Double::from_bits(123f64.to_bits())).unwrap();
    let mat_b = Mat::maybe_from("fb", vec![0i32, 1, 2, 3, 4]).unwrap();
    let s = Mat::maybe_from("s", vec![mat_a, mat_b]).unwrap();
    assert!(matches!(s.field("fz"), Err(MatioError::FieldNotFound(ref n)) if n == "fz"));
}

#[test]
fn field_of_a_non_structure_is_a_type_mismatch() {
    let m = Mat::maybe_from("x", 1u8).unwrap();
    assert!(matches!(
        m.field("a"),
        Err(MatioError::TypeMismatch(ref n, MatType::STRUCT, MatType::UINT8)) if n == "x"
    ));
}

#[test]
fn uneven_struct_array_is_refused() {
    let fa: Vec<Mat> = (1..=5).map(|i| Mat::maybe_from("fa", i).unwrap()).collect();
    let fb: Vec<Mat> =
        (0..4).map(|_| Mat::maybe_from("fb", vec![0i32, 1, 2, 3, 4]).unwrap()).collect();
    let r = Mat::maybe_from("s", vec![fa, fb]);
    match r {
        Err(MatioError::FieldSize(counts)) => assert_eq!(counts, vec![5, 4]),
        _ => panic!("expected a field size mismatch"),
    }
}

#[test]
fn structure_without_fields_is_refused() {
    let r = Mat::maybe_from("s", Vec::<Mat>::new());
    assert!(matches!(r, Err(MatioError::NoFields)));
    let b = MatStructBuilder::new("s").build();
    assert!(matches!(b, Err(MatioError::NoFields)));
}

#[test]
fn struct_array_dims_and_order() {
    let fa: Vec<Mat> = (1..=3).map(|i| Mat::maybe_from("fa", i as u8).unwrap()).collect();
    let s = Mat::maybe_from("s", vec![fa]).unwrap();
    assert_eq!(s.dims(), vec![1, 3]);
    assert_eq!(s.len(), 3);
    let a: Vec<u8> = s.field("fa").unwrap().iter().map(|m| m.maybe_into().unwrap()).collect();
    assert_eq!(a, vec![1, 2, 3]);
}

#[test]
fn composed_children_belong_to_the_parent() {
    let a = Mat::maybe_from("a", 1u8).unwrap();
    let b = Mat::maybe_from("b", 2u8).unwrap();
    assert_eq!(a.owner(), Ownership::Owned);
    assert_eq!(b.owner(), Ownership::Owned);
    let s = Mat::maybe_from("s", vec![a, b]).unwrap();
    assert_eq!(s.owner(), Ownership::Owned);
    for f in ["a", "b"] {
        assert_eq!(s.field(f).unwrap()[0].owner(), Ownership::BorrowedByParent);
    }
    let outer = Mat::maybe_from("o", vec![s]).unwrap();
    let inner = outer.field("s").unwrap()[0];
    assert_eq!(inner.owner(), Ownership::BorrowedByParent);
    assert_eq!(inner.field("a").unwrap()[0].owner(), Ownership::BorrowedByParent);
}

#[test]
fn builder_field_name_with_nul_is_refused() {
    let r = MatStructBuilder::new("s").field("f\0", 1u8);
    assert!(matches!(r, Err(MatioError::MatName(ref n)) if n == "f\0"));
    let b = MatStructBuilder::new("s\0").field("f", 1u8).unwrap().build();
    assert!(matches!(b, Err(MatioError::MatName(ref n)) if n == "s\0"));
}
