use rum::array2::Array2;

#[test]
fn normal_access() {
    let array2 = Array2::from_row_major(vec![1, 2, 3, 4, 5, 6], 3);
    assert_eq!(array2.get(0, 1), Some(&2_i32));
}

#[test]
fn out_of_bounds_access() {
    let array2 = Array2::from_row_major(vec![1, 2, 3, 4, 5, 6], 3);
    assert_eq!(array2.get(2, 0), None);
}

#[test]
fn row_major_iter() {
    let array2 = Array2::from_row_major(vec![1, 2, 3, 4, 5, 6], 3);
    let mut iter = array2.iter_row_major();
    let mut collect: Vec<i32> = Vec::new();
    while let Some(value) = iter.next() {
        collect.push(value);
    }
    assert_eq!(collect, vec![1, 2, 3, 4, 5, 6]);
}

#[test]
fn col_major_iter() {
    let array2 = Array2::from_row_major(vec![1, 2, 3, 4, 5, 6], 3);
    let mut iter = array2.iter_col_major();
    let mut collect: Vec<i32> = Vec::new();
    while let Some(value) = iter.next() {
        collect.push(value);
    }
    assert_eq!(collect, vec![1, 4, 2, 5, 3, 6]);
}

#[test]
fn from_single_value() {
    let array2 = Array2::from_single_value(0, 3, 3);
    assert_eq!(array2.array, vec![vec![0, 0, 0], vec![0, 0, 0], vec![0, 0, 0],])
}
