use matio_rs::{
    AccessMode, Builder, ColumnMajor, Double, Mat, MatArray, MatType, MatioError, MayBeFrom,
    MayBeInto, Single,
};

#[test]
fn every_numeric_kind_round_trips() {
    let m = Mat::maybe_from("a", -5i8).unwrap();
    assert_eq!(MayBeInto::<i8>::maybe_into(&m).unwrap(), -5);
    let m = Mat::maybe_from("a", -500i16).unwrap();
    assert_eq!(MayBeInto::<i16>::maybe_into(&m).unwrap(), -500);
    let m = Mat::maybe_from("a", i32::MIN).unwrap();
    assert_eq!(MayBeInto::<i32>::maybe_into(&m).unwrap(), i32::MIN);
    let m = Mat::maybe_from("a", i64::MAX).unwrap();
    assert_eq!(MayBeInto::<i64>::maybe_into(&m).unwrap(), i64::MAX);
    let m = Mat::maybe_from("a", 255u8).unwrap();
    assert_eq!(MayBeInto::<u8>::maybe_into(&m).unwrap(), 255);
    let m = Mat::maybe_from("a", 65535u16).unwrap();
    assert_eq!(MayBeInto::<u16>::maybe_into(&m).unwrap(), 65535);
    let m = Mat::maybe_from("a", 7u32).unwrap();
    assert_eq!(MayBeInto::<u32>::maybe_into(&m).unwrap(), 7);
    let m = Mat::maybe_from("a", u64::MAX).unwrap();
    assert_eq!(MayBeInto::<u64>::maybe_into(&m).unwrap(), u64::MAX);
    let m = Mat::maybe_from("a", Double::from_bits((-0.5f64).to_bits())).unwrap();
    let d: Double = (&m).maybe_into().unwrap();
    assert_eq!(f64::from_bits(d.to_bits()), -0.5);
    let m = Mat::maybe_from("a", Single::from_bits(0.25f32.to_bits())).unwrap();
    let s: Single = (&m).maybe_into().unwrap();
    assert_eq!(f32::from_bits(s.to_bits()), 0.25);
    assert_eq!(m.dims(), vec![1, 1]);
    assert_eq!(m.mat_type(), MatType::SINGLE);
}

#[test]
fn arrays_of_length_zero_one_and_more_round_trip() {
    for v in [vec![], vec![9i64], vec![3i64, -1, 4, 1, -5]] {
        let m = Mat::maybe_from("v", &v).unwrap();
        assert_eq!(m.dims(), vec![1, v.len()]);
        assert_eq!(m.len(), v.len());
        let back: Vec<i64> = m.maybe_into().unwrap();
        assert_eq!(back, v);
    }
    let slice: &[u16] = &[1, 2, 3];
    let m = Mat::maybe_from("s", slice).unwrap();
    let back: Vec<u16> = m.maybe_into().unwrap();
    assert_eq!(back, vec![1, 2, 3]);
}

#[test]
fn text_round_trips_byte_for_byte() {
    for s in ["ascii", "héllo wörld ✓ 😀", ""] {
        let m = Mat::maybe_from("t", s).unwrap();
        assert_eq!(m.mat_type(), MatType::CHAR);
        assert_eq!(m.len(), s.len());
        let back: String = m.maybe_into().unwrap();
        assert_eq!(back.as_bytes(), s.as_bytes());
    }
}

#[test]
fn float64_read_as_int32_is_a_type_mismatch() {
    let m = Mat::maybe_from("x", Double::from_bits(1.5f64.to_bits())).unwrap();
    let r: Result<i32, MatioError> = (&m).maybe_into();
    assert!(matches!(
        r,
        Err(MatioError::TypeMismatch(ref n, MatType::INT32, MatType::DOUBLE)) if n == "x"
    ));
    let r: Result<Vec<i32>, MatioError> = (&m).maybe_into();
    assert!(matches!(r, Err(MatioError::TypeMismatch(_, MatType::INT32, MatType::DOUBLE))));
}

#[test]
fn every_kind_pair_mismatch_is_reported() {
    let vars = vec![
        Mat::maybe_from("a", Double::from_bits(0)).unwrap(),
        Mat::maybe_from("a", Single::from_bits(0)).unwrap(),
        Mat::maybe_from("a", 0i8).unwrap(),
        Mat::maybe_from("a", 0i16).unwrap(),
        Mat::maybe_from("a", 0i32).unwrap(),
        Mat::maybe_from("a", 0i64).unwrap(),
        Mat::maybe_from("a", 0u8).unwrap(),
        Mat::maybe_from("a", 0u16).unwrap(),
        Mat::maybe_from("a", 0u32).unwrap(),
        Mat::maybe_from("a", 0u64).unwrap(),
        Mat::maybe_from("a", "x").unwrap(),
    ];
    let mut mismatches = 0;
    for m in &vars {
        let checks = [
            MayBeInto::<Double>::maybe_into(m).is_ok(),
            MayBeInto::<Single>::maybe_into(m).is_ok(),
            MayBeInto::<i8>::maybe_into(m).is_ok(),
            MayBeInto::<i16>::maybe_into(m).is_ok(),
            MayBeInto::<i32>::maybe_into(m).is_ok(),
            MayBeInto::<i64>::maybe_into(m).is_ok(),
            MayBeInto::<u8>::maybe_into(m).is_ok(),
            MayBeInto::<u16>::maybe_into(m).is_ok(),
            MayBeInto::<u32>::maybe_into(m).is_ok(),
            MayBeInto::<u64>::maybe_into(m).is_ok(),
        ];
        assert!(checks.iter().filter(|ok| **ok).count() <= 1);
        mismatches += checks.iter().filter(|ok| !**ok).count();
    }
    assert_eq!(mismatches, 10 * 11 - 10);
}

#[test]
fn array_read_as_scalar_is_refused() {
    let m = Mat::maybe_from("v", vec![1u8, 2, 3]).unwrap();
    let r: Result<u8, MatioError> = (&m).maybe_into();
    assert!(matches!(r, Err(MatioError::Scalar(ref n, 3)) if n == "v"));
}

#[test]
fn text_and_bytes_are_distinct_types() {
    let m = Mat::maybe_from("b", vec![0xffu8, 0xfe]).unwrap();
    let r: Result<String, MatioError> = (&m).maybe_into();
    assert!(matches!(r, Err(MatioError::TypeMismatch(_, MatType::CHAR, MatType::UINT8))));
    let t = Mat::maybe_from("t", "ok").unwrap();
    let r: Result<Vec<u8>, MatioError> = (&t).maybe_into();
    assert!(matches!(r, Err(MatioError::TypeMismatch(_, MatType::UINT8, MatType::CHAR))));
}

#[test]
fn name_with_nul_is_refused() {
    let r = Mat::maybe_from("a\0b", 1u8);
    assert!(matches!(r, Err(MatioError::MatName(ref n)) if n == "a\0b"));
    let ok = Mat::maybe_from("", 1u8).unwrap();
    assert_eq!(ok.name(), "");
}

#[test]
fn matrix_of_rank_two() {
    let data = [1u32, 2, 3, 4, 5, 6];
    let m = Mat::maybe_from("m", MatArray::new(&data, vec![2, 3])).unwrap();
    assert_eq!(m.rank(), 2);
    let c: ColumnMajor<u32> = m.maybe_into().unwrap();
    assert_eq!((c.nrows, c.ncols), (2, 3));
    assert_eq!(c.data, vec![1, 2, 3, 4, 5, 6]);
}

#[test]
fn matrix_of_higher_rank_is_refused() {
    let data = [0i16; 8];
    let m = Mat::maybe_from("m", MatArray::new(&data, vec![2, 2, 2])).unwrap();
    assert_eq!(m.len(), 8);
    let r: Result<ColumnMajor<i16>, MatioError> = (&m).maybe_into();
    assert!(matches!(r, Err(MatioError::Rank(3))));
    let v: Vec<i16> = m.maybe_into().unwrap();
    assert_eq!(v.len(), 8);
}

#[test]
fn type_tags_are_recognized() {
    let all = [
        MatType::DOUBLE,
        MatType::SINGLE,
        MatType::INT8,
        MatType::INT16,
        MatType::INT32,
        MatType::INT64,
        MatType::UINT8,
        MatType::UINT16,
        MatType::UINT32,
        MatType::UINT64,
        MatType::CHAR,
        MatType::CELL,
        MatType::STRUCT,
    ];
    for t in all {
        let (c, d) = t.tags();
        assert_eq!(MatType::from_tags(c, d), Some(t));
    }
    assert_eq!(MatType::DOUBLE.tags(), (6, 9));
    assert_eq!(MatType::from_tags(0, 0), None);
    assert_eq!(MatType::INT32.to_string(), "INT32");
}

#[test]
fn file_settings() {
    let b = Builder::new("data.mat");
    assert_eq!(b.path(), "data.mat");
    assert_eq!(b.access_mode(), AccessMode::ReadOnly);
    let b = b.read_write();
    assert_eq!(b.access_mode(), AccessMode::ReadWrite);
    assert_eq!(b.access_mode().code(), 1);
    let b = b.read_only();
    assert_eq!(b.access_mode().code(), 0);
    assert_eq!(b.path(), "data.mat");
}
