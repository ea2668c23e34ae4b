use ndarray::Array2;
use xladd::value::Variant;

#[test]
fn ndarray_conv() {
    let arr = Array2::from_shape_vec([2, 2], vec![1.0f64, 2.0, 3.0, 4.0]).unwrap();
    let bits: Vec<u64> = arr.iter().map(|v| v.to_bits()).collect();
    let v = Variant::grid_from_numbers(&bits, arr.ncols());
    let (cols, rows) = v.dim();
    assert_eq!((cols, rows), (2, 2));
    let back: Vec<f64> = v.to_numbers().iter().map(|b| f64::from_bits(*b)).collect();
    let conv = Array2::from_shape_vec([rows, cols], back).unwrap();
    assert_eq!(arr, conv);
}
