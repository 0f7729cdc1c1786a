use pvz::board::RowType;
use pvz::config::{parse_board_record, parse_level_record, LoadError};
use pvz::save::{lang_from_byte, lang_to_byte, Lang, SaveFile};

fn board_bytes() -> Vec<u8> {
    let mut b = Vec::new();
    b.extend_from_slice(&[1, 0, 0, 0]); // top bits
    b.extend_from_slice(&[2, 0, 0, 1]); // left bits
    b.extend_from_slice(&[0, 0, 0, 64]); // width bits
    b.extend_from_slice(&[0, 0, 0, 63]); // height bits
    b.push(2); // row count
    b.push(9); // column count
    b.push(0); // grass
    b.push(1); // water
    b
}

#[test]
fn a_well_formed_board_record_parses() {
    let rec = parse_board_record(&board_bytes()).unwrap();
    assert_eq!(rec.top_bits, 1);
    assert_eq!(rec.left_bits, 2 + (1 << 24));
    assert_eq!(rec.width_bits, 64 << 24);
    assert_eq!(rec.height_bits, 63 << 24);
    assert_eq!(rec.cols, 9);
    assert_eq!(rec.rows.len(), 2);
    assert_eq!(rec.rows[0], RowType::Grass);
    assert_eq!(rec.rows[1], RowType::Water);
}

#[test]
fn a_short_board_record_is_truncated() {
    let mut b = board_bytes();
    b.pop();
    assert_eq!(parse_board_record(&b).unwrap_err(), LoadError::Truncated);
    assert_eq!(parse_board_record(&Vec::new()).unwrap_err(), LoadError::Truncated);
    assert_eq!(parse_board_record(&vec![0u8; 17]).unwrap_err(), LoadError::Truncated);
}

#[test]
fn leftover_board_bytes_are_rejected() {
    let mut b = board_bytes();
    b.push(0);
    assert_eq!(parse_board_record(&b).unwrap_err(), LoadError::Trailing);
}

#[test]
fn an_unknown_terrain_byte_is_rejected() {
    let mut b = board_bytes();
    let last = b.len() - 1;
    b[last] = 7;
    assert_eq!(parse_board_record(&b).unwrap_err(), LoadError::BadRowType);
}

fn level_bytes() -> Vec<u8> {
    let mut b = Vec::new();
    b.push(3); // playfield id
    b.extend_from_slice(&[244, 1, 0, 0]); // money = 500, little-endian
    b.push(2); // wave count
    b.push(5); // first wait, in seconds
    b.push(0); // second wait
    b.push(1); // wave 1: one type
    b.extend_from_slice(&[0, 2]); // two basic zombies
    b.push(2); // wave 2: two types
    b.extend_from_slice(&[0, 1, 1, 4]); // one basic, four cone
    b
}

#[test]
fn a_well_formed_level_record_parses() {
    let rec = parse_level_record(&level_bytes()).unwrap();
    assert_eq!(rec.map_id, 3);
    assert_eq!(rec.money, 500);
    assert_eq!(rec.waits, vec![5_000u64, 0u64]);
    assert_eq!(rec.batches.len(), 2);
    assert_eq!(rec.batches[0], vec![(0u8, 2u8)]);
    assert_eq!(rec.batches[1], vec![(0u8, 1u8), (1u8, 4u8)]);
}

#[test]
fn a_short_level_record_is_truncated() {
    let mut b = level_bytes();
    b.pop();
    assert_eq!(parse_level_record(&b).unwrap_err(), LoadError::Truncated);
    assert_eq!(parse_level_record(&vec![3u8, 0, 0]).unwrap_err(), LoadError::Truncated);
    // A wave count with no wait bytes behind it.
    assert_eq!(
        parse_level_record(&vec![3u8, 0, 0, 0, 0, 9]).unwrap_err(),
        LoadError::Truncated
    );
}

#[test]
fn leftover_level_bytes_are_rejected() {
    let mut b = level_bytes();
    b.push(0);
    assert_eq!(parse_level_record(&b).unwrap_err(), LoadError::Trailing);
}

#[test]
fn an_unknown_zombie_type_is_rejected() {
    let mut b = level_bytes();
    b[9] = 7; // the first wave's zombie type
    assert_eq!(parse_level_record(&b).unwrap_err(), LoadError::BadZombieId);
}

#[test]
fn a_level_with_no_waves_parses() {
    let b = vec![1u8, 10, 0, 0, 0, 0];
    let rec = parse_level_record(&b).unwrap();
    assert_eq!(rec.money, 10);
    assert_eq!(rec.waits.len(), 0);
    assert_eq!(rec.batches.len(), 0);
}

#[test]
fn language_bytes_round_trip() {
    assert_eq!(lang_to_byte(Lang::EN), 0);
    assert_eq!(lang_to_byte(Lang::FR), 1);
    assert_eq!(lang_from_byte(0), Some(Lang::EN));
    assert_eq!(lang_from_byte(1), Some(Lang::FR));
    assert_eq!(lang_from_byte(2), None);
}

#[test]
fn the_languages_alternate() {
    let mut save = SaveFile::new();
    assert_eq!(save.langage(), Lang::EN);
    save.next_lang();
    assert_eq!(save.langage(), Lang::FR);
    save.next_lang();
    assert_eq!(save.langage(), Lang::EN);
    save.set_langage(Lang::FR);
    assert_eq!(save.langage(), Lang::FR);
}
