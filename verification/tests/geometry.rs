use pvz::board::{Board, RowType};
use pvz::units::{FRAME_H, FRAME_W};

fn grass_rows(n: usize) -> Vec<RowType> {
    let mut v = Vec::new();
    for _ in 0..n {
        v.push(RowType::Grass);
    }
    v
}

#[test]
fn board_new_accepts_a_full_frame_grid() {
    let b = Board::new(0, 0, FRAME_W, FRAME_H, grass_rows(5), 9);
    assert!(b.is_some());
    let b = b.unwrap();
    assert_eq!(b.cols, 9);
    assert_eq!(b.rows.len(), 5);
}

#[test]
fn board_new_rejects_bad_shapes() {
    assert!(Board::new(-1, 0, FRAME_W, FRAME_H, grass_rows(5), 9).is_none());
    assert!(Board::new(0, -1, FRAME_W, FRAME_H, grass_rows(5), 9).is_none());
    assert!(Board::new(0, 0, FRAME_W + 1, FRAME_H, grass_rows(5), 9).is_none());
    assert!(Board::new(0, 0, FRAME_W, FRAME_H + 1, grass_rows(5), 9).is_none());
    assert!(Board::new(0, 0, FRAME_W, FRAME_H, grass_rows(0), 9).is_none());
    assert!(Board::new(0, 0, FRAME_W, FRAME_H, grass_rows(5), 0).is_none());
    assert!(Board::new(0, 0, 4, FRAME_H, grass_rows(5), 9).is_none());
}

#[test]
fn cell_corner_maps_back_to_its_cell() {
    // An awkward width that does not divide evenly by the column count.
    let b = Board::new(60_000, 70_000, 999_983, 600_000, grass_rows(7), 9).unwrap();
    for col in 0..9usize {
        let x = b.pos_to_coord_x(col);
        assert_eq!(b.coord_to_pos_x(x), Some(col));
    }
    for row in 0..7usize {
        let y = b.pos_to_coord_y(row);
        assert_eq!(b.coord_to_pos_y(y), Some(row));
    }
}

#[test]
fn coords_outside_the_playfield_map_to_no_cell() {
    let b = Board::new(60_000, 70_000, 900_000, 600_000, grass_rows(5), 9).unwrap();
    assert_eq!(b.coord_to_pos_x(69_999), None);
    assert_eq!(b.coord_to_pos_x(70_000 + 900_000), None);
    assert!(b.coord_to_pos_x(70_000).is_some());
    assert_eq!(b.coord_to_pos_y(59_999), None);
    assert_eq!(b.coord_to_pos_y(60_000 + 600_000), None);
    assert!(b.coord_to_pos_y(60_000).is_some());
}

#[test]
fn row_and_column_sizes_divide_the_playfield() {
    let b = Board::new(0, 0, 900_000, 600_000, grass_rows(5), 9).unwrap();
    assert_eq!(b.col_width(), 100_000);
    assert_eq!(b.row_heigth(), 120_000);
}
