use rum::array2::Array2;
use rum::codec::{blockify, deblockify, trim_image};

fn to_row_major_vec(array: &Array2<i32>) -> Vec<i32> {
    let mut iter = array.iter_row_major();
    let mut collect: Vec<i32> = Vec::new();
    while let Some(value) = iter.next() {
        collect.push(value);
    }
    collect
}

#[test]
fn trim_array2() {
    let array = Array2::from_row_major(vec![1, 2, 3, 4, 5, 6, 7, 8, 9], 3);
    let array_trimmed = trim_image(array);
    assert_eq!(to_row_major_vec(&array_trimmed), vec![1, 2, 4, 5]);
}

#[test]
fn dont_trim_array2() {
    let array = Array2::from_row_major(vec![1, 2, 3, 4, 5, 6, 7, 8], 4);
    let array_trimmed = trim_image(array);
    assert_eq!(to_row_major_vec(&array_trimmed), vec![1, 2, 3, 4, 5, 6, 7, 8]);
}

#[test]
fn blockify_then_deblockify() {
    let array = Array2::from_row_major(vec![1, 2, 3, 4, 5, 6, 7, 8, 9, 10, 11, 12, 13, 14, 15, 16], 4);
    let blocks = blockify(array, 0);
    assert_eq!(blocks.width, 2);
    assert_eq!(blocks.height, 2);
    let first = blocks.get(0, 0).unwrap();
    assert_eq!(to_row_major_vec(first), vec![1, 2, 5, 6]);
    let flattened = deblockify(blocks, 0);
    assert_eq!(
        to_row_major_vec(&flattened),
        vec![1, 2, 3, 4, 5, 6, 7, 8, 9, 10, 11, 12, 13, 14, 15, 16]
    );
}
