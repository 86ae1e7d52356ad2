use matio_rs::{ColumnMajor, Data, Double, Mat, MatArray, MatType, MayBeFrom, MayBeInto, Single};

fn double(x: f64) -> Double {
    Double::from_bits(x.to_bits())
}

fn to_f64(x: Double) -> f64 {
    f64::from_bits(x.to_bits())
}

fn to_f64s(v: Vec<Double>) -> Vec<f64> {
    v.into_iter().map(to_f64).collect()
}

fn doubles(v: &[f64]) -> Vec<Double> {
    v.iter().map(|x| double(*x)).collect()
}

#[test]
fn test_string() {
    let a_mat = Mat::maybe_from("a", "qwe").unwrap();
    let b_mat = Mat::maybe_from("b", String::from("asd")).unwrap();
    let c_mat = Mat::maybe_from("c", &String::from("zxc")).unwrap();
    let a: String = a_mat.maybe_into().unwrap();
    assert_eq!(a, "qwe");
    let b: String = b_mat.maybe_into().unwrap();
    assert_eq!(b, "asd");
    let c: String = c_mat.maybe_into().unwrap();
    assert_eq!(c, "zxc");
}

#[test]
fn test_cell_string() {
    let a = vec!["qwe", "asd", "zxc"];
    let mat = Mat::maybe_from("a", a).unwrap();
    assert_eq!(mat.mat_type(), MatType::CELL);
    assert_eq!(mat.dims(), vec![1, 3]);
    let back: Vec<String> = mat.maybe_into().unwrap();
    assert_eq!(back, vec!["qwe".to_string(), "asd".to_string(), "zxc".to_string()]);
}

#[test]
fn test_read_write_scalar() {
    let mat = Mat::maybe_from("a", double(std::f64::consts::PI)).unwrap();
    let a: Double = mat.maybe_into().unwrap();
    assert_eq!(to_f64(a), std::f64::consts::PI);
}

#[test]
fn test_read_1d() {
    let mat = Mat::maybe_from("b", doubles(&[3f64, 1., 4., 1., 6.])).unwrap();
    let b: Vec<Double> = mat.maybe_into().unwrap();
    assert_eq!(to_f64s(b), vec![3f64, 1., 4., 1., 6.])
}

#[test]
fn test_get_2d() {
    let mat = Mat::maybe_from("c", doubles(&[4f64, 3., 2., 7.])).unwrap();
    let c: Vec<Double> = mat.maybe_into().unwrap();
    assert_eq!(to_f64s(c), vec![4f64, 3., 2., 7.])
}

#[test]
fn test_readwrite() {
    let b = (0..5).map(|x| (x as f64).cosh()).collect::<Vec<f64>>();
    let a_mat = Mat::maybe_from("a", double(2f64.sqrt())).unwrap();
    let b_mat = Mat::maybe_from("b", &doubles(&b)).unwrap();
    let a: Double = a_mat.maybe_into().unwrap();
    assert_eq!(to_f64(a), 2f64.sqrt());
    let bb: Vec<Double> = b_mat.maybe_into().unwrap();
    assert_eq!(b, to_f64s(bb));
}

#[test]
fn test_polytype() {
    let a_mat = Mat::maybe_from("a", 1i8).unwrap();
    let b_mat = Mat::maybe_from("b", Single::from_bits(2f32.to_bits())).unwrap();
    let c_mat = Mat::maybe_from("c", &vec![3u16; 3]).unwrap();
    let a: i8 = a_mat.maybe_into().unwrap();
    assert_eq!(a, 1i8);
    let b: Single = b_mat.maybe_into().unwrap();
    assert_eq!(f32::from_bits(b.to_bits()), 2f32);
    let c: Vec<u16> = c_mat.maybe_into().unwrap();
    assert_eq!(c, vec![3u16; 3]);
}

fn save_struct() -> Mat {
    let mat_a = Mat::maybe_from("fa", double(123f64)).unwrap();
    let v = vec![0i32, 1, 2, 3, 4];
    let mat_v = Mat::maybe_from("fb", &v).unwrap();
    let data = vec![mat_a, mat_v];
    Mat::maybe_from("s", data).unwrap()
}

#[test]
fn test_struct() {
    let mat = save_struct();
    let a: Double = mat.field("fa").unwrap().get(0).unwrap().maybe_into().unwrap();
    assert_eq!(to_f64(a), 123f64);
    let b: Vec<i32> = mat.field("fb").unwrap().get(0).unwrap().maybe_into().unwrap();
    assert_eq!(b, vec![0i32, 1, 2, 3, 4,]);
}

fn save_struct_nested() -> Mat {
    let mat_a = Mat::maybe_from("fa", double(123f64)).unwrap();
    let v = vec![0i32, 1, 2, 3, 4];
    let mat_v = Mat::maybe_from("fb", &v).unwrap();
    let data = vec![mat_a, mat_v];
    let nested = Mat::maybe_from("s", data).unwrap();

    let mat_a = Mat::maybe_from("fa", double(1234f64)).unwrap();
    let v = vec![0i32, 1, 2, 3, 4, 5];
    let mat_v = Mat::maybe_from("fb", &v).unwrap();
    let data = vec![mat_a, mat_v, nested];
    Mat::maybe_from("s", data).unwrap()
}

#[test]
fn test_struct_nested() {
    let mat = save_struct_nested();
    let a: Double = mat.field("fa").unwrap().get(0).unwrap().maybe_into().unwrap();
    assert_eq!(to_f64(a), 1234f64);
    let b: Vec<i32> = mat.field("fb").unwrap().get(0).unwrap().maybe_into().unwrap();
    assert_eq!(b, vec![0i32, 1, 2, 3, 4, 5]);
    let v = mat.field("s").unwrap();
    let s = v.get(0).unwrap();
    let a: Double = s.field("fa").unwrap().get(0).unwrap().maybe_into().unwrap();
    assert_eq!(to_f64(a), 123f64);
    let b: Vec<i32> = s.field("fb").unwrap().get(0).unwrap().maybe_into().unwrap();
    assert_eq!(b, vec![0i32, 1, 2, 3, 4]);
}

fn save_struct_array() -> Mat {
    let n = 5;
    let mat_a: Vec<Mat> = (1..=n).map(|i| Mat::maybe_from("fa", i).unwrap()).collect();
    let mat_v: Vec<Mat> =
        (0..n).map(|_| Mat::maybe_from("fb", vec![0i32, 1, 2, 3, 4]).unwrap()).collect();
    let data = vec![mat_a, mat_v];
    Mat::maybe_from("s", data).unwrap()
}

#[test]
fn test_struct_array() {
    let mat = save_struct_array();
    let mat_a = mat.field("fa").unwrap();
    let a = mat_a.iter().map(|a| a.maybe_into().unwrap()).collect::<Vec<i32>>();
    assert_eq!(a, vec![1, 2, 3, 4, 5]);
    let mat_b = mat.field("fb").unwrap();
    let b = mat_b.iter().map(|a| a.maybe_into().unwrap()).collect::<Vec<Vec<i32>>>();
    assert_eq!(b, vec![vec![0, 1, 2, 3, 4]; 5]);
}

fn dmatrix_of(m: ColumnMajor<i32>) -> nalgebra::DMatrix<i32> {
    nalgebra::DMatrix::from_column_slice(m.nrows, m.ncols, m.data.as_slice())
}

#[test]
fn test_nalgebra_vector() {
    let na_v = nalgebra::DVector::from_iterator(5, 0..5);
    let mat = Mat::maybe_from("na_v", MatArray::new(na_v.as_slice(), vec![na_v.len(), 1])).unwrap();
    let v: nalgebra::DMatrix<i32> = dmatrix_of(mat.maybe_into().unwrap());
    assert_eq!(na_v, v);
}

#[test]
fn test_nalgebra_matrix() {
    let na_m = nalgebra::DMatrix::from_iterator(3, 2, 0..6);
    let mat = Mat::maybe_from("na_m", MatArray::new(na_m.as_slice(), vec![na_m.nrows(), na_m.ncols()]))
        .unwrap();
    let m: nalgebra::DMatrix<i32> = dmatrix_of(mat.maybe_into().unwrap());
    assert_eq!(na_m, m);
}

fn faer_columns(m: &faer::Mat<i32>) -> Vec<i32> {
    m.col_iter().flat_map(|c| c.iter().cloned().collect::<Vec<i32>>()).collect()
}

fn faer_of(m: ColumnMajor<i32>) -> faer::Mat<i32> {
    faer::mat::MatRef::from_column_major_slice(m.data.as_slice(), m.nrows, m.ncols).cloned()
}

#[test]
fn test_faer_vector() {
    let data: Vec<_> = (0..5).collect();
    let na_v = faer::mat::MatRef::from_column_major_slice(data.as_slice(), 5, 1).cloned();
    println!("{na_v:?}");
    let columns = faer_columns(&na_v);
    let mat = Mat::maybe_from("na_v", MatArray::new(&columns, vec![na_v.nrows(), na_v.ncols()]))
        .unwrap();
    let v: faer::Mat<i32> = faer_of(mat.maybe_into().unwrap());
    println!("{v:?}");
    assert!(na_v
        .col_iter()
        .zip(v.col_iter())
        .all(|(x, y)| x.iter().zip(y.iter()).all(|(x, y)| x == y)));
}

#[test]
fn test_faer_matrix() {
    let data: Vec<_> = (0..6).collect();
    let na_m = faer::mat::MatRef::from_column_major_slice(data.as_slice(), 3, 2).cloned();
    println!("{na_m:?}");
    let columns = faer_columns(&na_m);
    let mat = Mat::maybe_from("na_m", MatArray::new(&columns, vec![na_m.nrows(), na_m.ncols()]))
        .unwrap();
    let m: faer::Mat<i32> = faer_of(mat.maybe_into().unwrap());
    println!("{m:?}");
    assert!(na_m
        .col_iter()
        .zip(m.col_iter())
        .all(|(x, y)| x.iter().zip(y.iter()).all(|(x, y)| x == y)));
    assert_eq!(m.nrows(), 3);
    assert_eq!(m.ncols(), 2);
}

#[test]
fn char_payload_holds_utf8_bytes() {
    let mat = Mat::maybe_from("t", "héllo").unwrap();
    match mat.data() {
        Data::Char(bytes) => assert_eq!(bytes.as_slice(), "héllo".as_bytes()),
        _ => panic!("not a character array"),
    }
    assert_eq!(mat.dims(), vec![1, 6]);
}
