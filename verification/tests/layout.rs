use ganshot::data::commons::{
    chunk_rows, flatten_outlines, grid_figure_size, subplot_axis_number, GRID_COLS, GRID_ROWS,
};
use ganshot::gan::data::to_xy;
use ganshot::gan::training::split_xy;

#[test]
fn flatten_lays_out_rows_of_coordinates() {
    let outlines = vec![
        vec![(1.0, 2.0), (3.0, 4.0)],
        vec![(5.0, 6.0), (7.0, 8.0)],
        vec![(9.0, 10.0), (11.0, 12.0)],
    ];
    let flat = flatten_outlines(&outlines);
    assert_eq!(
        flat,
        vec![1.0, 2.0, 3.0, 4.0, 5.0, 6.0, 7.0, 8.0, 9.0, 10.0, 11.0, 12.0]
    );
}

#[test]
fn flatten_of_no_outlines_is_empty() {
    let outlines: Vec<Vec<(f64, f64)>> = vec![];
    assert!(flatten_outlines(&outlines).is_empty());
}

#[test]
fn chunk_rows_drops_incomplete_tail() {
    let flat = vec![1, 2, 3, 4, 5, 6, 7];
    assert_eq!(chunk_rows(&flat, 3), vec![vec![1, 2, 3], vec![4, 5, 6]]);
    assert_eq!(chunk_rows(&flat, 8), Vec::<Vec<i32>>::new());
}

#[test]
fn chunk_rows_inverts_flatten() {
    let outlines = vec![vec![(1u8, 2u8), (3, 4)], vec![(5, 6), (7, 8)]];
    let rows = chunk_rows(&flatten_outlines(&outlines), 4);
    assert_eq!(rows, vec![vec![1, 2, 3, 4], vec![5, 6, 7, 8]]);
}

#[test]
fn split_xy_reads_even_and_odd_positions() {
    let (x, y) = split_xy(&vec![0.5f32, 1.5, 2.5, 3.5, 4.5]);
    assert_eq!(x, vec![0.5, 2.5, 4.5]);
    assert_eq!(y, vec![1.5, 3.5]);
}

#[test]
fn split_xy_inverts_flatten_of_points() {
    let points = vec![(0.0, -1.0), (-0.707, 0.707), (0.707, 0.707)];
    let flat = flatten_outlines(&vec![points.clone()]);
    assert_eq!(split_xy(&flat), to_xy(&points));
}

#[test]
fn to_xy_splits_columns() {
    let (x, y) = to_xy(&vec![(1, 10), (2, 20), (3, 30)]);
    assert_eq!(x, vec![1, 2, 3]);
    assert_eq!(y, vec![10, 20, 30]);
}

#[test]
fn grid_of_six_subplots() {
    assert_eq!(GRID_ROWS * GRID_COLS, 6);
    assert_eq!(grid_figure_size(), (1200, 800));
    assert_eq!(subplot_axis_number(0), None);
    assert_eq!(subplot_axis_number(1), Some(2));
    assert_eq!(subplot_axis_number(5), Some(6));
}
