//! Loading of persisted playfield and level records (binary, little-endian).
//!
//! A playfield record is four 32-bit fields (top, left, width, height), a row
//! count, a column count, and one terrain byte per row. A level record is a
//! playfield identifier, a money counter, a wave count, one wait byte (in
//! seconds) per wave, and then for each wave a type count followed by that
//! many (zombie type, amount) pairs.
//!
//! A malformed record — bytes missing before all fields are read, bytes left
//! over after them, or a field value the simulation does not know — is a load
//! error, and nothing is constructed from it.

use vstd::prelude::*;

use crate::board::RowType;

verus! {

/// Why a persisted record was rejected.
#[derive(Clone, Copy, PartialEq, Eq, Debug)]
pub enum LoadError {
    /// The record ended before all of its fields were read.
    Truncated,
    /// Bytes were left over after all fields were read.
    Trailing,
    /// A terrain byte was neither grass nor water.
    BadRowType,
    /// A zombie type identifier was not one the simulation knows.
    BadZombieId,
}

/// The 32-bit little-endian field starting at `off`.
pub open spec fn spec_le_u32(s: Seq<u8>, off: int) -> int {
    s[off] + 256 * s[off + 1] + 65536 * s[off + 2] + 16777216 * s[off + 3]
}

/// A parsed playfield record. The four rectangle fields are kept as the raw
/// bit patterns of the stored 32-bit values; whoever builds a board decides
/// their scale.
#[derive(Debug)]
pub struct BoardRecord {
    pub top_bits: u32,
    pub left_bits: u32,
    pub width_bits: u32,
    pub height_bits: u32,
    pub rows: Vec<RowType>,
    pub cols: u8,
}

/// Length a playfield record with the given row count must have.
pub open spec fn spec_board_record_len(row_count: int) -> int {
    18 + row_count
}

/// Whether every terrain byte of the record is valid.
pub open spec fn spec_rows_valid(s: Seq<u8>) -> bool {
    forall|i: int| 18 <= i < s.len() ==> (#[trigger] s[i]) == 0 || s[i] == 1
}

/// Read the 32-bit little-endian field starting at `off`.
fn read_le_u32(bytes: &Vec<u8>, off: usize) -> (r: u32)
    requires
        off + 4 <= bytes@.len(),
    ensures
        r as int == spec_le_u32(bytes@, off as int),
{
    let _len = bytes.len();
    let b0 = bytes[off] as u32;
    let b1 = bytes[off + 1] as u32;
    let b2 = bytes[off + 2] as u32;
    let b3 = bytes[off + 3] as u32;
    b0 + 256 * b1 + 65536 * b2 + 16777216 * b3
}

/// Parse a playfield record. Succeeds exactly on a record of the exact length
/// its row count demands whose terrain bytes are all valid; the error says
/// what went wrong first: missing bytes, then leftover bytes, then a bad
/// terrain byte.
pub fn parse_board_record(bytes: &Vec<u8>) -> (r: Result<BoardRecord, LoadError>)
    ensures
        r is Ok <==> {
            &&& bytes@.len() >= 18
            &&& bytes@.len() == spec_board_record_len(bytes@[16] as int)
            &&& spec_rows_valid(bytes@)
        },
        r matches Ok(rec) ==> {
            &&& rec.top_bits as int == spec_le_u32(bytes@, 0)
            &&& rec.left_bits as int == spec_le_u32(bytes@, 4)
            &&& rec.width_bits as int == spec_le_u32(bytes@, 8)
            &&& rec.height_bits as int == spec_le_u32(bytes@, 12)
            &&& rec.rows@.len() == bytes@[16]
            &&& rec.cols == bytes@[17]
            &&& forall|i: int|
                0 <= i < rec.rows@.len() ==> (#[trigger] rec.rows@[i]) == (if bytes@[18 + i] == 0 {
                    RowType::Grass
                } else {
                    RowType::Water
                })
        },
        r == Err::<BoardRecord, LoadError>(LoadError::Truncated) <==> (bytes@.len() < 18 || bytes@.len()
            < spec_board_record_len(bytes@[16] as int)),
        r == Err::<BoardRecord, LoadError>(LoadError::Trailing) <==> (bytes@.len() >= 18
            && bytes@.len() > spec_board_record_len(bytes@[16] as int)),
        r == Err::<BoardRecord, LoadError>(LoadError::BadRowType) <==> (bytes@.len() >= 18
            && bytes@.len() == spec_board_record_len(bytes@[16] as int) && !spec_rows_valid(
            bytes@,
        )),
{
    if bytes.len() < 18 {
        return Err(LoadError::Truncated);
    }
    let row_count = bytes[16] as usize;
    if bytes.len() < 18 + row_count {
        return Err(LoadError::Truncated);
    }
    if bytes.len() > 18 + row_count {
        return Err(LoadError::Trailing);
    }
    let mut rows: Vec<RowType> = Vec::new();
    let mut i: usize = 0;
    while i < row_count
        invariant
            bytes@.len() == 18 + row_count,
            row_count == bytes@[16] as int,
            i <= row_count,
            rows@.len() == i,
            forall|j: int|
                0 <= j < i ==> (#[trigger] rows@[j]) == (if bytes@[18 + j] == 0 {
                    RowType::Grass
                } else {
                    RowType::Water
                }),
            forall|j: int| 18 <= j < 18 + i ==> (#[trigger] bytes@[j]) == 0 || bytes@[j] == 1,
        decreases row_count - i,
    {
        let b = bytes[18 + i];
        if b == 0 {
            rows.push(RowType::Grass);
        } else if b == 1 {
            rows.push(RowType::Water);
        } else {
            proof {
                assert(bytes@[18 + i as int] != 0 && bytes@[18 + i as int] != 1);
                assert(!spec_rows_valid(bytes@));
            }
            return Err(LoadError::BadRowType);
        }
        i = i + 1;
    }
    Ok(
        BoardRecord {
            top_bits: read_le_u32(bytes, 0),
            left_bits: read_le_u32(bytes, 4),
            width_bits: read_le_u32(bytes, 8),
            height_bits: read_le_u32(bytes, 12),
            rows,
            cols: bytes[17],
        },
    )
}

/// A parsed level record: which playfield it uses, the starting money, and
/// the wave queue (waits in milliseconds, batches of (zombie type, count)
/// pairs).
#[derive(Debug)]
pub struct LevelRecord {
    pub map_id: u8,
    pub money: u32,
    pub waits: Vec<u64>,
    pub batches: Vec<Vec<(u8, u8)>>,
}

/// One wave section of a level record, starting at `pos`: a type count `tc`,
/// then `tc` (zombie type, amount) pairs.
pub open spec fn spec_wave_section_ok(s: Seq<u8>, pos: int) -> bool {
    &&& pos + 1 <= s.len()
    &&& pos + 1 + 2 * s[pos] <= s.len()
    &&& forall|i: int|
        0 <= i < s[pos] ==> (#[trigger] s[pos + 1 + 2 * i]) == 0 || s[pos + 1 + 2 * i] == 1
}

/// The batch a valid wave section at `pos` holds.
pub open spec fn spec_wave_batch(s: Seq<u8>, pos: int) -> Seq<(u8, u8)> {
    Seq::new(s[pos] as nat, |i: int| (s[pos + 1 + 2 * i], s[pos + 2 + 2 * i]))
}

/// Parse `count` wave sections starting at `pos`: all their batches and the
/// position right after them, or the first error. A section that runs past
/// the end of the record is a truncation; a bad zombie type inside an intact
/// section is its own error.
pub open spec fn spec_parse_waves(s: Seq<u8>, pos: int, count: nat) -> Result<
    (Seq<Seq<(u8, u8)>>, int),
    LoadError,
>
    decreases count,
{
    if count == 0 {
        Ok((Seq::empty(), pos))
    } else if pos + 1 > s.len() || pos + 1 + 2 * s[pos] > s.len() {
        Err(LoadError::Truncated)
    } else if !spec_wave_section_ok(s, pos) {
        Err(LoadError::BadZombieId)
    } else {
        match spec_parse_waves(s, pos + 1 + 2 * s[pos], (count - 1) as nat) {
            Ok((rest, end)) => Ok((seq![spec_wave_batch(s, pos)] + rest, end)),
            Err(e) => Err(e),
        }
    }
}

/// What parsing a whole level record yields.
pub open spec fn spec_parse_level(s: Seq<u8>) -> Result<(u8, int, Seq<u64>, Seq<Seq<(u8, u8)>>), LoadError> {
    if s.len() < 6 {
        Err(LoadError::Truncated)
    } else if s.len() < 6 + s[5] {
        Err(LoadError::Truncated)
    } else {
        let wave_count = s[5] as nat;
        match spec_parse_waves(s, 6 + s[5], wave_count) {
            Ok((batches, end)) => if end == s.len() {
                Ok(
                    (
                        s[0],
                        spec_le_u32(s, 1),
                        Seq::new(wave_count, |i: int| (s[6 + i] * 1000) as u64),
                        batches,
                    ),
                )
            } else {
                Err(LoadError::Trailing)
            },
            Err(e) => Err(e),
        }
    }
}

/// Parse a level record. Succeeds exactly when every field is present, every
/// zombie type is known, and no byte is left over; on success the waits are
/// returned in milliseconds and the batches in record order.
pub fn parse_level_record(bytes: &Vec<u8>) -> (r: Result<LevelRecord, LoadError>)
    ensures
        r is Ok <==> spec_parse_level(bytes@) is Ok,
        r matches Ok(rec) ==> {
            &&& spec_parse_level(bytes@) matches Ok(v)
            &&& rec.map_id == v.0
            &&& rec.money as int == v.1
            &&& rec.waits@ == v.2
            &&& rec.batches@.map_values(|b: Vec<(u8, u8)>| b@) =~= v.3
            &&& rec.waits@.len() == rec.batches@.len()
            &&& forall|i: int|
                0 <= i < rec.batches@.len() ==> (#[trigger] rec.batches@[i])@.len() <= 255
                    && crate::wave::spec_batch_ids_valid(rec.batches@[i]@)
        },
        r matches Err(e) ==> spec_parse_level(bytes@) == Err::<
            (u8, int, Seq<u64>, Seq<Seq<(u8, u8)>>),
            LoadError,
        >(e),
{
    if bytes.len() < 6 {
        return Err(LoadError::Truncated);
    }
    let wave_count = bytes[5] as usize;
    if bytes.len() < 6 + wave_count {
        return Err(LoadError::Truncated);
    }
    let map_id = bytes[0];
    let money = read_le_u32(bytes, 1);
    let mut waits: Vec<u64> = Vec::new();
    let mut i: usize = 0;
    while i < wave_count
        invariant
            bytes@.len() >= 6 + wave_count,
            wave_count == bytes@[5] as int,
            i <= wave_count,
            waits@.len() == i,
            forall|j: int| 0 <= j < i ==> #[trigger] waits@[j] == bytes@[6 + j] * 1000,
        decreases wave_count - i,
    {
        waits.push((bytes[6 + i] as u64) * 1000);
        i = i + 1;
    }
    let mut batches: Vec<Vec<(u8, u8)>> = Vec::new();
    let mut pos: usize = 6 + wave_count;
    let mut w: usize = 0;
    let ghost s = bytes@;
    let ghost pos0 = pos as int;
    while w < wave_count
        invariant
            s == bytes@,
            s.len() >= 6 + wave_count,
            s.len() <= usize::MAX,
            wave_count == s[5] as int,
            pos0 == 6 + wave_count,
            w <= wave_count,
            batches@.len() == w,
            pos <= s.len(),
            forall|j: int|
                0 <= j < w ==> (#[trigger] batches@[j])@.len() <= 255
                    && crate::wave::spec_batch_ids_valid(batches@[j]@),
            spec_parse_waves(s, pos0, wave_count as nat) == (match spec_parse_waves(
                s,
                pos as int,
                (wave_count - w) as nat,
            ) {
                Ok((rest, end)) => Ok::<_, LoadError>(
                    (batches@.map_values(|b: Vec<(u8, u8)>| b@) + rest, end),
                ),
                Err(e) => Err(e),
            }),
        decreases wave_count - w,
    {
        if pos >= bytes.len() {
            proof {
                assert(spec_parse_waves(s, pos as int, (wave_count - w) as nat) == Err::<
                    (Seq<Seq<(u8, u8)>>, int),
                    LoadError,
                >(LoadError::Truncated));
            }
            return Err(LoadError::Truncated);
        }
        let tc = bytes[pos] as usize;
        if tc * 2 > bytes.len() - pos - 1 {
            proof {
                assert(pos + 1 + 2 * s[pos as int] > s.len());
                assert(spec_parse_waves(s, pos as int, (wave_count - w) as nat) == Err::<
                    (Seq<Seq<(u8, u8)>>, int),
                    LoadError,
                >(LoadError::Truncated));
            }
            return Err(LoadError::Truncated);
        }
        let mut batch: Vec<(u8, u8)> = Vec::new();
        let mut t: usize = 0;
        while t < tc
            invariant
                s == bytes@,
                s.len() >= 6 + wave_count,
                s.len() <= usize::MAX,
                wave_count == s[5] as int,
                pos0 == 6 + wave_count,
                0 <= w < wave_count,
                batches@.len() == w,
                pos + 1 + 2 * tc <= s.len(),
                tc == s[pos as int] as int,
                t <= tc,
                spec_parse_waves(s, pos0, wave_count as nat) == (match spec_parse_waves(
                    s,
                    pos as int,
                    (wave_count - w) as nat,
                ) {
                    Ok((rest, end)) => Ok::<_, LoadError>(
                        (batches@.map_values(|b: Vec<(u8, u8)>| b@) + rest, end),
                    ),
                    Err(e) => Err(e),
                }),
                batch@.len() == t,
                forall|j: int|
                    0 <= j < t ==> #[trigger] batch@[j] == (
                        s[pos + 1 + 2 * j],
                        s[pos + 2 + 2 * j],
                    ),
                forall|j: int|
                    0 <= j < t ==> ((#[trigger] s[pos + 1 + 2 * j]) == 0 || s[pos + 1 + 2 * j]
                        == 1),
            decreases tc - t,
        {
            let id = bytes[pos + 1 + 2 * t];
            if id > 1 {
                proof {
                    assert(s[pos + 1 + 2 * t as int] != 0 && s[pos + 1 + 2 * t as int] != 1);
                    assert(!spec_wave_section_ok(s, pos as int));
                    assert(spec_parse_waves(s, pos as int, (wave_count - w) as nat) == Err::<
                        (Seq<Seq<(u8, u8)>>, int),
                        LoadError,
                    >(LoadError::BadZombieId));
                }
                return Err(LoadError::BadZombieId);
            }
            let amount = bytes[pos + 2 + 2 * t];
            batch.push((id, amount));
            t = t + 1;
        }
        proof {
            assert(spec_wave_section_ok(s, pos as int));
            assert(batch@ =~= spec_wave_batch(s, pos as int));
            assert(crate::wave::spec_batch_ids_valid(batch@)) by {
                assert(forall|j: int|
                    0 <= j < batch@.len() ==> ((#[trigger] batch@[j]).0 == s[pos + 1 + 2 * j]));
            }
        }
        let ghost batches_prev = batches@;
        batches.push(batch);
        pos = pos + 1 + 2 * tc;
        proof {
            assert(batches@.map_values(|b: Vec<(u8, u8)>| b@) =~= batches_prev.map_values(
                |b: Vec<(u8, u8)>| b@,
            ) + seq![spec_wave_batch(s, (pos - 1 - 2 * tc) as int)]);
            assert(batches_prev.map_values(|b: Vec<(u8, u8)>| b@) + (seq![
                spec_wave_batch(s, (pos - 1 - 2 * tc) as int),
            ] + (match spec_parse_waves(s, pos as int, (wave_count - w - 1) as nat) {
                Ok((rest, _)) => rest,
                Err(_) => Seq::empty(),
            })) =~= (batches_prev.map_values(|b: Vec<(u8, u8)>| b@) + seq![
                spec_wave_batch(s, (pos - 1 - 2 * tc) as int),
            ]) + (match spec_parse_waves(s, pos as int, (wave_count - w - 1) as nat) {
                Ok((rest, _)) => rest,
                Err(_) => Seq::empty(),
            }));
        }
        w = w + 1;
    }
    if pos != bytes.len() {
        proof {
            assert(spec_parse_waves(s, pos0, wave_count as nat) matches Ok((b, end)) && end == pos);
        }
        return Err(LoadError::Trailing);
    }
    proof {
        assert(spec_parse_waves(s, pos0, wave_count as nat) matches Ok((b, end)) && end == pos
            && b == batches@.map_values(|b2: Vec<(u8, u8)>| b2@));
        assert(waits@ =~= Seq::new(wave_count as nat, |i: int| (s[6 + i] * 1000) as u64));
    }
    Ok(LevelRecord { map_id, money, waits, batches })
}

} // verus!
