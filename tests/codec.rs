use dice::matrix::{coo_to_flat, flat_horizontal_flip, flat_to_coo, CodecError};
use dice::pipeline::{finish_output, prepare_input, GRID_COLS, GRID_ROWS};

fn ones(buf: &[usize]) -> Vec<usize> {
    buf.iter().enumerate().filter(|(_, &v)| v == 1).map(|(i, _)| i).collect()
}

#[test]
fn scenario_corners_of_sixteen_grid() {
    let dense = coo_to_flat(vec![1, 1, 16, 16], 16, 16).unwrap();
    assert_eq!(dense.len(), 256);
    assert_eq!(ones(&dense), vec![0, 255]);
    let flipped = flat_horizontal_flip(dense, 16, 16).unwrap();
    assert_eq!(ones(&flipped), vec![15, 240]);
    let coords = flat_to_coo(flipped, 16, 16).unwrap();
    assert_eq!(coords, vec![1, 16, 16, 1]);
}

#[test]
fn decode_sets_named_cells() {
    let dense = coo_to_flat(vec![1, 2, 2, 3, 1, 2], 2, 3).unwrap();
    assert_eq!(dense, vec![0, 1, 0, 0, 0, 1]);
}

#[test]
fn decode_empty_list_gives_zero_grid() {
    assert_eq!(coo_to_flat(vec![], 2, 2).unwrap(), vec![0, 0, 0, 0]);
}

#[test]
fn decode_rejects_odd_length() {
    assert_eq!(coo_to_flat(vec![1, 1, 2], 4, 4), Err(CodecError::InvalidEncoding));
}

#[test]
fn decode_rejects_out_of_range_coordinates() {
    assert_eq!(coo_to_flat(vec![0, 1], 4, 4), Err(CodecError::InvalidEncoding));
    assert_eq!(coo_to_flat(vec![1, 0], 4, 4), Err(CodecError::InvalidEncoding));
    assert_eq!(coo_to_flat(vec![5, 1], 4, 4), Err(CodecError::InvalidEncoding));
    assert_eq!(coo_to_flat(vec![1, 1, 1, 5], 4, 4), Err(CodecError::InvalidEncoding));
}

#[test]
fn decode_accepts_non_square_grid() {
    assert_eq!(coo_to_flat(vec![2, 2], 2, 3).unwrap(), vec![0, 0, 0, 0, 1, 0]);
}

#[test]
fn encode_scans_row_major() {
    let coords = flat_to_coo(vec![0, 1, 0, 1, 0, 1], 2, 3).unwrap();
    assert_eq!(coords, vec![1, 2, 2, 1, 2, 3]);
}

#[test]
fn encode_ignores_values_other_than_one() {
    assert_eq!(flat_to_coo(vec![2, 0, 0, 1], 2, 2).unwrap(), vec![2, 2]);
}

#[test]
fn encode_rejects_wrong_length() {
    assert_eq!(flat_to_coo(vec![0, 1, 0], 2, 2), Err(CodecError::ShapeMismatch));
    assert_eq!(flat_to_coo(vec![0; 4], usize::MAX, 2), Err(CodecError::ShapeMismatch));
}

#[test]
fn flip_reverses_each_row() {
    let f = flat_horizontal_flip(vec![1, 2, 3, 4, 5, 6], 2, 3).unwrap();
    assert_eq!(f, vec![3, 2, 1, 6, 5, 4]);
}

#[test]
fn flip_works_on_floats() {
    let f = flat_horizontal_flip(vec![0.5f32, -1.0, 2.25, 3.0], 2, 2).unwrap();
    assert_eq!(f, vec![-1.0f32, 0.5, 3.0, 2.25]);
}

#[test]
fn flip_rejects_wrong_length() {
    assert_eq!(flat_horizontal_flip(vec![1, 2, 3], 2, 2), Err(CodecError::ShapeMismatch));
    assert_eq!(flat_horizontal_flip(Vec::<usize>::new(), 1, 1), Err(CodecError::ShapeMismatch));
}

#[test]
fn flip_of_empty_grid_is_empty() {
    assert_eq!(flat_horizontal_flip(Vec::<usize>::new(), 0, 5).unwrap(), Vec::<usize>::new());
}

#[test]
fn flip_twice_gives_buffer_back() {
    let d: Vec<usize> = (0..12).collect();
    let once = flat_horizontal_flip(d.clone(), 3, 4).unwrap();
    assert_ne!(once, d);
    assert_eq!(flat_horizontal_flip(once, 3, 4).unwrap(), d);
}

#[test]
fn encode_then_decode_gives_buffer_back() {
    let d = vec![1, 0, 0, 1, 1, 0, 0, 0, 1, 0, 1, 1];
    let coords = flat_to_coo(d.clone(), 3, 4).unwrap();
    assert_eq!(coo_to_flat(coords, 3, 4).unwrap(), d);
}

#[test]
fn prepare_input_decodes_and_flips() {
    let p = prepare_input(vec![1, 1], GRID_ROWS, GRID_COLS).unwrap();
    assert_eq!(ones(&p), vec![15]);
    assert_eq!(prepare_input(vec![1], GRID_ROWS, GRID_COLS), Err(CodecError::InvalidEncoding));
}

#[test]
fn finish_output_flips_and_encodes() {
    let mut g = vec![0usize; GRID_ROWS * GRID_COLS];
    g[15] = 1;
    assert_eq!(finish_output(g, GRID_ROWS, GRID_COLS).unwrap(), vec![1, 1]);
    assert_eq!(finish_output(vec![0; 3], GRID_ROWS, GRID_COLS), Err(CodecError::ShapeMismatch));
}
