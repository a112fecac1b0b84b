//! Piece-square tables: a fixed 64-entry table of integer scores per piece
//! kind, one set for the middle game and one for the end game, each built
//! once by combining a base material value with a positional bonus. The
//! table for the opposing color is derived by vertically mirroring square
//! indices (square XOR 0b111000), never by duplicating data by hand.

use vstd::prelude::*;

verus! {

/// Rank-mirrored square index: the same file, on the vertically opposite
/// rank. Equals `s ^ 0b111000` for `0 <= s < 64`.
pub open spec fn mirror_sq(s: int) -> int {
    8 * (7 - s / 8) + s % 8
}

pub proof fn lemma_mirror_sq_range(s: int)
    requires
        0 <= s < 64,
    ensures
        0 <= mirror_sq(s) < 64,
        mirror_sq(mirror_sq(s)) == s,
{
    assert(0 <= s / 8 <= 7);
    assert(0 <= s % 8 < 8);
    let m = mirror_sq(s);
    assert(m / 8 == 7 - s / 8 && m % 8 == s % 8) by (nonlinear_arith)
        requires
            m == 8 * (7 - s / 8) + s % 8,
            0 <= s / 8 <= 7,
            0 <= s % 8 < 8,
    ;
    assert(s == 8 * (s / 8) + s % 8);
}

/// The combined evaluation table: twelve rows of sixty-four entries, one row
/// per piece code. Row `2k + 1` holds base value plus positional bonus for
/// piece kind `k`; row `2k` holds the same data for the opposing color, read
/// through the mirrored square index.
pub open spec fn combined_tables(
    t: Vec<Vec<i32>>,
    piece_vals: [i16; 6],
    pesto: [[i16; 64]; 6],
) -> bool {
    &&& t@.len() == 12
    &&& forall|i: int| 0 <= i < 12 ==> #[trigger] t@[i]@.len() == 64
    &&& forall|k: int, s: int|
        0 <= k < 6 && 0 <= s < 64 ==> #[trigger] t@[2 * k + 1]@[s]
            == piece_vals@[k] + pesto@[k]@[s]
    &&& forall|k: int, s: int|
        0 <= k < 6 && 0 <= s < 64 ==> #[trigger] t@[2 * k]@[s]
            == piece_vals@[k] + pesto@[k]@[mirror_sq(s)]
}

/// Rows `2k` and `2k + 1` score the same piece kind for the two colors and
/// agree up to a vertical mirror of the square.
pub open spec fn mirrored_pair(t: Vec<Vec<i32>>) -> bool {
    forall|k: int, s: int|
        0 <= k < 6 && 0 <= s < 64 ==> #[trigger] t@[2 * k]@[s] == t@[2 * k + 1]@[mirror_sq(s)]
}

/// Table symmetry law: in any table built from base values and positional
/// bonuses, the opposite-color value at square `s` equals the same-color
/// value at `s` with the rank mirrored.
pub proof fn lemma_table_symmetry(t: Vec<Vec<i32>>, piece_vals: [i16; 6], pesto: [[i16; 64]; 6])
    requires
        combined_tables(t, piece_vals, pesto),
    ensures
        mirrored_pair(t),
{
    assert forall|k: int, s: int|
        0 <= k < 6 && 0 <= s < 64 implies #[trigger] t@[2 * k]@[s]
        == t@[2 * k + 1]@[mirror_sq(s)] by {
        lemma_mirror_sq_range(s);
        assert(t@[2 * k]@[s] == piece_vals@[k] + pesto@[k]@[mirror_sq(s)]);
        assert(t@[2 * k + 1]@[mirror_sq(s)] == piece_vals@[k] + pesto@[k]@[mirror_sq(s)]);
    }
}

/// Every entry combines two 16-bit values, so its magnitude stays well
/// under the checkmate sentinel.
pub open spec fn entries_bounded(t: Vec<Vec<i32>>) -> bool {
    forall|i: int, s: int|
        0 <= i < 12 && 0 <= s < 64 ==> -65536 <= #[trigger] t@[i]@[s] <= 65534
}

pub proof fn lemma_combined_entries_bounded(
    t: Vec<Vec<i32>>,
    piece_vals: [i16; 6],
    pesto: [[i16; 64]; 6],
)
    requires
        combined_tables(t, piece_vals, pesto),
    ensures
        entries_bounded(t),
{
    assert forall|i: int, s: int|
        0 <= i < 12 && 0 <= s < 64 implies -65536 <= #[trigger] t@[i]@[s] <= 65534 by {
        let k = i / 2;
        if i % 2 == 1 {
            assert(i == 2 * k + 1);
            assert(t@[2 * k + 1]@[s] == piece_vals@[k] + pesto@[k]@[s]);
        } else {
            assert(i == 2 * k);
            lemma_mirror_sq_range(s);
            assert(t@[2 * k]@[s] == piece_vals@[k] + pesto@[k]@[mirror_sq(s)]);
        }
    }
}

/// The PeSTO base material values and positional bonus tables, as
/// mathematical sequences: the data the one table set of the process is
/// built from.
pub open spec fn mg_base_values() -> Seq<int> {
    seq![82, 337, 365, 477, 1025, 0]
}

pub open spec fn eg_base_values() -> Seq<int> {
    seq![94, 281, 297, 512, 936, 0]
}

pub open spec fn mg_pawn_bonus() -> Seq<int> {
    seq![
        0, 0, 0, 0, 0, 0, 0, 0,
        98, 134, 61, 95, 68, 126, 34, -11,
        -6, 7, 26, 31, 65, 56, 25, -20,
        -14, 13, 6, 21, 23, 12, 17, -23,
        -27, -2, -5, 12, 17, 6, 10, -25,
        -26, -4, -4, -10, 3, 3, 33, -12,
        -35, -1, -20, -23, -15, 24, 38, -22,
        0, 0, 0, 0, 0, 0, 0, 0
    ]
}

pub open spec fn eg_pawn_bonus() -> Seq<int> {
    seq![
        0, 0, 0, 0, 0, 0, 0, 0,
        178, 173, 158, 134, 147, 132, 165, 187,
        94, 100, 85, 67, 56, 53, 82, 84,
        32, 24, 13, 5, -2, 4, 17, 17,
        13, 9, -3, -7, -7, -8, 3, -1,
        4, 7, -6, 1, 0, -5, -1, -8,
        13, 8, 8, 10, 13, 0, 2, -7,
        0, 0, 0, 0, 0, 0, 0, 0
    ]
}

pub open spec fn mg_knight_bonus() -> Seq<int> {
    seq![
        0, 0, 0, 0, 0, 0, 0, 0,
        178, 173, 158, 134, 147, 132, 165, 187,
        94, 100, 85, 67, 56, 53, 82, 84,
        32, 24, 13, 5, -2, 4, 17, 17,
        13, 9, -3, -7, -7, -8, 3, -1,
        4, 7, -6, 1, 0, -5, -1, -8,
        13, 8, 8, 10, 13, 0, 2, -7,
        0, 0, 0, 0, 0, 0, 0, 0
    ]
}

pub open spec fn eg_knight_bonus() -> Seq<int> {
    seq![
        -58, -38, -13, -28, -31, -27, -63, -99,
        -25, -8, -25, -2, -9, -25, -24, -52,
        -24, -20, 10, 9, -1, -9, -19, -41,
        -17, 3, 22, 22, 22, 11, 8, -18,
        -18, -6, 16, 25, 16, 17, 4, -18,
        -23, -3, -1, 15, 10, -3, -20, -22,
        -42, -20, -10, -5, -2, -20, -23, -44,
        -29, -51, -23, -15, -22, -18, -50, -64
    ]
}

pub open spec fn mg_bishop_bonus() -> Seq<int> {
    seq![
        -29, 4, -82, -37, -25, -42, 7, -8,
        -26, 16, -18, -13, 30, 59, 18, -47,
        -16, 37, 43, 40, 35, 50, 37, -2,
        -4, 5, 19, 50, 37, 37, 7, -2,
        -6, 13, 13, 26, 34, 12, 10, 4,
        0, 15, 15, 15, 14, 27, 18, 10,
        4, 15, 16, 0, 7, 21, 33, 1,
        -33, -3, -14, -21, -13, -12, -39, -21
    ]
}

pub open spec fn eg_bishop_bonus() -> Seq<int> {
    seq![
        -14, -21, -11, -8, -7, -9, -17, -24,
        -8, -4, 7, -12, -3, -13, -4, -14,
        2, -8, 0, -1, -2, 6, 0, 4,
        -3, 9, 12, 9, 14, 10, 3, 2,
        -6, 3, 13, 19, 7, 10, -3, -9,
        -12, -3, 8, 10, 13, 3, -7, -15,
        -14, -18, -7, -1, 4, -9, -15, -27,
        -23, -9, -23, -5, -9, -16, -5, -17
    ]
}

pub open spec fn mg_rook_bonus() -> Seq<int> {
    seq![
        32, 42, 32, 51, 63, 9, 31, 43,
        27, 32, 58, 62, 80, 67, 26, 44,
        -5, 19, 26, 36, 17, 45, 61, 16,
        -24, -11, 7, 26, 24, 35, -8, -20,
        -36, -26, -12, -1, 9, -7, 6, -23,
        -45, -25, -16, -17, 3, 0, -5, -33,
        -44, -16, -20, -9, -1, 11, -6, -71,
        -19, -13, 1, 17, 16, 7, -37, -26
    ]
}

pub open spec fn eg_rook_bonus() -> Seq<int> {
    seq![
        13, 10, 18, 15, 12, 12, 8, 5,
        11, 13, 13, 11, -3, 3, 8, 3,
        7, 7, 7, 5, 4, -3, -5, -3,
        4, 3, 13, 1, 2, 1, -1, 2,
        3, 5, 8, 4, -5, -6, -8, -11,
        -4, 0, -5, -1, -7, -12, -8, -16,
        -6, -6, 0, 2, -9, -9, -11, -3,
        -9, 2, 3, -1, -5, -13, 4, -20
    ]
}

pub open spec fn mg_queen_bonus() -> Seq<int> {
    seq![
        -28, 0, 29, 12, 59, 44, 43, 45,
        -24, -39, -5, 1, -16, 57, 28, 54,
        -13, -17, 7, 8, 29, 56, 47, 57,
        -27, -27, -16, -16, -1, 17, -2, 1,
        -9, -26, -9, -10, -2, -4, 3, -3,
        -14, 2, -11, -2, -5, 2, 14, 5,
        -35, -8, 11, 2, 8, 15, -3, 1,
        -1, -18, -9, 10, -15, -25, -31, -50
    ]
}

pub open spec fn eg_queen_bonus() -> Seq<int> {
    seq![
        -9, 22, 22, 27, 27, 19, 10, 20,
        -17, 20, 32, 41, 58, 25, 30, 0,
        -20, 6, 9, 49, 47, 35, 19, 9,
        3, 22, 24, 45, 57, 40, 57, 36,
        -18, 28, 19, 47, 31, 34, 39, 23,
        -16, -27, 15, 6, 9, 17, 10, 5,
        -22, -23, -30, -16, -16, -23, -36, -32,
        -33, -28, -22, -43, -5, -32, -20, -41
    ]
}

pub open spec fn mg_king_bonus() -> Seq<int> {
    seq![
        -65, 23, 16, -15, -56, -34, 2, 13,
        29, -1, -20, -7, -8, -4, -38, -29,
        -9, 24, 2, -16, -20, 6, 22, -22,
        -17, -20, -12, -27, -30, -25, -14, -36,
        -49, -1, -27, -39, -46, -44, -33, -51,
        -14, -14, -22, -46, -44, -30, -15, -27,
        1, 7, -8, -64, -43, -16, 9, 8,
        -15, 36, 12, -54, 8, -28, 24, 14
    ]
}

pub open spec fn eg_king_bonus() -> Seq<int> {
    seq![
        -74, -35, -18, -18, -11, 15, 4, -17,
        -12, 17, 14, 17, 17, 38, 23, 11,
        10, 17, 23, 15, 20, 45, 44, 13,
        -8, 22, 24, 27, 26, 33, 26, 3,
        -18, -4, 21, 24, 27, 23, 9, -11,
        -19, -3, 11, 21, 23, 16, 7, -9,
        -27, -11, 4, 13, 14, 4, -5, -17,
        -53, -34, -21, -11, -28, -14, -24, -43
    ]
}

pub open spec fn mg_bonus_tables() -> Seq<Seq<int>> {
    seq![
        mg_pawn_bonus(),
        mg_knight_bonus(),
        mg_bishop_bonus(),
        mg_rook_bonus(),
        mg_queen_bonus(),
        mg_king_bonus(),
    ]
}

pub open spec fn eg_bonus_tables() -> Seq<Seq<int>> {
    seq![
        eg_pawn_bonus(),
        eg_knight_bonus(),
        eg_bishop_bonus(),
        eg_rook_bonus(),
        eg_queen_bonus(),
        eg_king_bonus(),
    ]
}

/// The combined table holds exactly these base values and bonuses: entry
/// by entry, row `2k + 1` is `vals[k] + bonus[k][s]` and row `2k` the same
/// through the mirrored square index.
pub open spec fn built_from(t: Vec<Vec<i32>>, vals: Seq<int>, bonus: Seq<Seq<int>>) -> bool {
    &&& t@.len() == 12
    &&& forall|i: int| 0 <= i < 12 ==> #[trigger] t@[i]@.len() == 64
    &&& forall|k: int, s: int|
        0 <= k < 6 && 0 <= s < 64 ==> #[trigger] t@[2 * k + 1]@[s] == vals[k] + bonus[k][s]
    &&& forall|k: int, s: int|
        0 <= k < 6 && 0 <= s < 64 ==> #[trigger] t@[2 * k]@[s] == vals[k] + bonus[k][mirror_sq(s)]
}

/// One set of middle-game and end-game evaluation tables, immutable once
/// built and shared by every search.
pub struct EvalTables {
    pub mg: Vec<Vec<i32>>,
    pub eg: Vec<Vec<i32>>,
}

impl EvalTables {
    pub open spec fn wf(self) -> bool {
        &&& self.mg@.len() == 12
        &&& self.eg@.len() == 12
        &&& forall|i: int| 0 <= i < 12 ==> #[trigger] self.mg@[i]@.len() == 64
        &&& forall|i: int| 0 <= i < 12 ==> #[trigger] self.eg@[i]@.len() == 64
    }
}

/// Builds the twelve-row combined table from base material values and raw
/// positional bonus tables: one row per piece code, the row for the opposing
/// color read through the mirrored square index.
pub fn initialize_tables(piece_vals: &[i16; 6], pesto: &[[i16; 64]; 6]) -> (r: Vec<Vec<i32>>)
    ensures
        combined_tables(r, *piece_vals, *pesto),
{
    let mut table: Vec<Vec<i32>> = Vec::new();
    let mut ptype: usize = 0;
    while ptype < 6
        invariant
            ptype <= 6,
            table@.len() == 2 * ptype,
            forall|i: int| 0 <= i < 2 * ptype ==> #[trigger] table@[i]@.len() == 64,
            forall|k: int, s: int|
                0 <= k < ptype && 0 <= s < 64 ==> #[trigger] table@[2 * k + 1]@[s]
                    == piece_vals@[k] + pesto@[k]@[s],
            forall|k: int, s: int|
                0 <= k < ptype && 0 <= s < 64 ==> #[trigger] table@[2 * k]@[s]
                    == piece_vals@[k] + pesto@[k]@[mirror_sq(s)],
        decreases 6 - ptype,
    {
        let mut row_mirror: Vec<i32> = Vec::new();
        let mut row_direct: Vec<i32> = Vec::new();
        let mut sq: usize = 0;
        while sq < 64
            invariant
                ptype < 6,
                sq <= 64,
                row_direct@.len() == sq,
                row_mirror@.len() == sq,
                forall|s: int|
                    0 <= s < sq ==> #[trigger] row_direct@[s]
                        == piece_vals@[ptype as int] + pesto@[ptype as int]@[s],
                forall|s: int|
                    0 <= s < sq ==> #[trigger] row_mirror@[s]
                        == piece_vals@[ptype as int] + pesto@[ptype as int]@[mirror_sq(s)],
            decreases 64 - sq,
        {
            let m: usize = sq ^ 0b111000;
            proof {
                assert(sq < 64 ==> sq ^ 0b111000 == 8 * (7 - sq / 8) + sq % 8 && sq ^ 0b111000
                    < 64) by (bit_vector);
                assert(m == mirror_sq(sq as int));
            }
            row_direct.push(piece_vals[ptype] as i32 + pesto[ptype][sq] as i32);
            row_mirror.push(piece_vals[ptype] as i32 + pesto[ptype][m] as i32);
            sq += 1;
        }
        table.push(row_mirror);
        table.push(row_direct);
        ptype += 1;
    }
    table
}

/// Builds the process-wide evaluation table set from the PeSTO base values
/// and positional bonus tables.
pub fn pesto_tables() -> (r: EvalTables)
    ensures
        r.wf(),
        mirrored_pair(r.mg),
        mirrored_pair(r.eg),
        entries_bounded(r.mg),
        entries_bounded(r.eg),
        built_from(r.mg, mg_base_values(), mg_bonus_tables()),
        built_from(r.eg, eg_base_values(), eg_bonus_tables()),
{
    let mg_pawn: [i16; 64] = [
        0, 0, 0, 0, 0, 0, 0, 0,
        98, 134, 61, 95, 68, 126, 34, -11,
        -6, 7, 26, 31, 65, 56, 25, -20,
        -14, 13, 6, 21, 23, 12, 17, -23,
        -27, -2, -5, 12, 17, 6, 10, -25,
        -26, -4, -4, -10, 3, 3, 33, -12,
        -35, -1, -20, -23, -15, 24, 38, -22,
        0, 0, 0, 0, 0, 0, 0, 0,
    ];
    let eg_pawn: [i16; 64] = [
        0, 0, 0, 0, 0, 0, 0, 0,
        178, 173, 158, 134, 147, 132, 165, 187,
        94, 100, 85, 67, 56, 53, 82, 84,
        32, 24, 13, 5, -2, 4, 17, 17,
        13, 9, -3, -7, -7, -8, 3, -1,
        4, 7, -6, 1, 0, -5, -1, -8,
        13, 8, 8, 10, 13, 0, 2, -7,
        0, 0, 0, 0, 0, 0, 0, 0,
    ];
    let mg_knight: [i16; 64] = [
        0, 0, 0, 0, 0, 0, 0, 0,
        178, 173, 158, 134, 147, 132, 165, 187,
        94, 100, 85, 67, 56, 53, 82, 84,
        32, 24, 13, 5, -2, 4, 17, 17,
        13, 9, -3, -7, -7, -8, 3, -1,
        4, 7, -6, 1, 0, -5, -1, -8,
        13, 8, 8, 10, 13, 0, 2, -7,
        0, 0, 0, 0, 0, 0, 0, 0,
    ];
    let eg_knight: [i16; 64] = [
        -58, -38, -13, -28, -31, -27, -63, -99,
        -25, -8, -25, -2, -9, -25, -24, -52,
        -24, -20, 10, 9, -1, -9, -19, -41,
        -17, 3, 22, 22, 22, 11, 8, -18,
        -18, -6, 16, 25, 16, 17, 4, -18,
        -23, -3, -1, 15, 10, -3, -20, -22,
        -42, -20, -10, -5, -2, -20, -23, -44,
        -29, -51, -23, -15, -22, -18, -50, -64,
    ];
    let mg_bishop: [i16; 64] = [
        -29, 4, -82, -37, -25, -42, 7, -8,
        -26, 16, -18, -13, 30, 59, 18, -47,
        -16, 37, 43, 40, 35, 50, 37, -2,
        -4, 5, 19, 50, 37, 37, 7, -2,
        -6, 13, 13, 26, 34, 12, 10, 4,
        0, 15, 15, 15, 14, 27, 18, 10,
        4, 15, 16, 0, 7, 21, 33, 1,
        -33, -3, -14, -21, -13, -12, -39, -21,
    ];
    let eg_bishop: [i16; 64] = [
        -14, -21, -11, -8, -7, -9, -17, -24,
        -8, -4, 7, -12, -3, -13, -4, -14,
        2, -8, 0, -1, -2, 6, 0, 4,
        -3, 9, 12, 9, 14, 10, 3, 2,
        -6, 3, 13, 19, 7, 10, -3, -9,
        -12, -3, 8, 10, 13, 3, -7, -15,
        -14, -18, -7, -1, 4, -9, -15, -27,
        -23, -9, -23, -5, -9, -16, -5, -17,
    ];
    let mg_rook: [i16; 64] = [
        32, 42, 32, 51, 63, 9, 31, 43,
        27, 32, 58, 62, 80, 67, 26, 44,
        -5, 19, 26, 36, 17, 45, 61, 16,
        -24, -11, 7, 26, 24, 35, -8, -20,
        -36, -26, -12, -1, 9, -7, 6, -23,
        -45, -25, -16, -17, 3, 0, -5, -33,
        -44, -16, -20, -9, -1, 11, -6, -71,
        -19, -13, 1, 17, 16, 7, -37, -26,
    ];
    let eg_rook: [i16; 64] = [
        13, 10, 18, 15, 12, 12, 8, 5,
        11, 13, 13, 11, -3, 3, 8, 3,
        7, 7, 7, 5, 4, -3, -5, -3,
        4, 3, 13, 1, 2, 1, -1, 2,
        3, 5, 8, 4, -5, -6, -8, -11,
        -4, 0, -5, -1, -7, -12, -8, -16,
        -6, -6, 0, 2, -9, -9, -11, -3,
        -9, 2, 3, -1, -5, -13, 4, -20,
    ];
    let mg_queen: [i16; 64] = [
        -28, 0, 29, 12, 59, 44, 43, 45,
        -24, -39, -5, 1, -16, 57, 28, 54,
        -13, -17, 7, 8, 29, 56, 47, 57,
        -27, -27, -16, -16, -1, 17, -2, 1,
        -9, -26, -9, -10, -2, -4, 3, -3,
        -14, 2, -11, -2, -5, 2, 14, 5,
        -35, -8, 11, 2, 8, 15, -3, 1,
        -1, -18, -9, 10, -15, -25, -31, -50,
    ];
    let eg_queen: [i16; 64] = [
        -9, 22, 22, 27, 27, 19, 10, 20,
        -17, 20, 32, 41, 58, 25, 30, 0,
        -20, 6, 9, 49, 47, 35, 19, 9,
        3, 22, 24, 45, 57, 40, 57, 36,
        -18, 28, 19, 47, 31, 34, 39, 23,
        -16, -27, 15, 6, 9, 17, 10, 5,
        -22, -23, -30, -16, -16, -23, -36, -32,
        -33, -28, -22, -43, -5, -32, -20, -41,
    ];
    let mg_king: [i16; 64] = [
        -65, 23, 16, -15, -56, -34, 2, 13,
        29, -1, -20, -7, -8, -4, -38, -29,
        -9, 24, 2, -16, -20, 6, 22, -22,
        -17, -20, -12, -27, -30, -25, -14, -36,
        -49, -1, -27, -39, -46, -44, -33, -51,
        -14, -14, -22, -46, -44, -30, -15, -27,
        1, 7, -8, -64, -43, -16, 9, 8,
        -15, 36, 12, -54, 8, -28, 24, 14,
    ];
    let eg_king: [i16; 64] = [
        -74, -35, -18, -18, -11, 15, 4, -17,
        -12, 17, 14, 17, 17, 38, 23, 11,
        10, 17, 23, 15, 20, 45, 44, 13,
        -8, 22, 24, 27, 26, 33, 26, 3,
        -18, -4, 21, 24, 27, 23, 9, -11,
        -19, -3, 11, 21, 23, 16, 7, -9,
        -27, -11, 4, 13, 14, 4, -5, -17,
        -53, -34, -21, -11, -28, -14, -24, -43,
    ];
    let mg_piece_values: [i16; 6] = [82, 337, 365, 477, 1025, 0];
    let eg_piece_values: [i16; 6] = [94, 281, 297, 512, 936, 0];
    let mg_pesto: [[i16; 64]; 6] = [mg_pawn, mg_knight, mg_bishop, mg_rook, mg_queen, mg_king];
    let eg_pesto: [[i16; 64]; 6] = [eg_pawn, eg_knight, eg_bishop, eg_rook, eg_queen, eg_king];
    let mg = initialize_tables(&mg_piece_values, &mg_pesto);
    let eg = initialize_tables(&eg_piece_values, &eg_pesto);
    proof {
        lemma_table_symmetry(mg, mg_piece_values, mg_pesto);
        lemma_table_symmetry(eg, eg_piece_values, eg_pesto);
        lemma_combined_entries_bounded(mg, mg_piece_values, mg_pesto);
        lemma_combined_entries_bounded(eg, eg_piece_values, eg_pesto);
        assert(forall|k: int| 0 <= k < 6 ==> mg_piece_values@[k] == mg_base_values()[k]);
        assert(forall|k: int| 0 <= k < 6 ==> eg_piece_values@[k] == eg_base_values()[k]);
        assert(forall|s: int| 0 <= s < 64 ==> mg_pawn@[s] == mg_pawn_bonus()[s]);
        assert(forall|s: int| 0 <= s < 64 ==> eg_pawn@[s] == eg_pawn_bonus()[s]);
        assert(forall|s: int| 0 <= s < 64 ==> mg_knight@[s] == mg_knight_bonus()[s]);
        assert(forall|s: int| 0 <= s < 64 ==> eg_knight@[s] == eg_knight_bonus()[s]);
        assert(forall|s: int| 0 <= s < 64 ==> mg_bishop@[s] == mg_bishop_bonus()[s]);
        assert(forall|s: int| 0 <= s < 64 ==> eg_bishop@[s] == eg_bishop_bonus()[s]);
        assert(forall|s: int| 0 <= s < 64 ==> mg_rook@[s] == mg_rook_bonus()[s]);
        assert(forall|s: int| 0 <= s < 64 ==> eg_rook@[s] == eg_rook_bonus()[s]);
        assert(forall|s: int| 0 <= s < 64 ==> mg_queen@[s] == mg_queen_bonus()[s]);
        assert(forall|s: int| 0 <= s < 64 ==> eg_queen@[s] == eg_queen_bonus()[s]);
        assert(forall|s: int| 0 <= s < 64 ==> mg_king@[s] == mg_king_bonus()[s]);
        assert(forall|s: int| 0 <= s < 64 ==> eg_king@[s] == eg_king_bonus()[s]);
        assert forall|k: int, s: int|
            0 <= k < 6 && 0 <= s < 64 implies mg_pesto@[k]@[s] == mg_bonus_tables()[k][s] by {
            if k == 0 {
                assert(mg_pesto@[0] == mg_pawn);
                assert(mg_bonus_tables()[0] == mg_pawn_bonus());
            }
            if k == 1 {
                assert(mg_pesto@[1] == mg_knight);
                assert(mg_bonus_tables()[1] == mg_knight_bonus());
            }
            if k == 2 {
                assert(mg_pesto@[2] == mg_bishop);
                assert(mg_bonus_tables()[2] == mg_bishop_bonus());
            }
            if k == 3 {
                assert(mg_pesto@[3] == mg_rook);
                assert(mg_bonus_tables()[3] == mg_rook_bonus());
            }
            if k == 4 {
                assert(mg_pesto@[4] == mg_queen);
                assert(mg_bonus_tables()[4] == mg_queen_bonus());
            }
            if k == 5 {
                assert(mg_pesto@[5] == mg_king);
                assert(mg_bonus_tables()[5] == mg_king_bonus());
            }
        }
        assert forall|k: int, s: int|
            0 <= k < 6 && 0 <= s < 64 implies eg_pesto@[k]@[s] == eg_bonus_tables()[k][s] by {
            if k == 0 {
                assert(eg_pesto@[0] == eg_pawn);
                assert(eg_bonus_tables()[0] == eg_pawn_bonus());
            }
            if k == 1 {
                assert(eg_pesto@[1] == eg_knight);
                assert(eg_bonus_tables()[1] == eg_knight_bonus());
            }
            if k == 2 {
                assert(eg_pesto@[2] == eg_bishop);
                assert(eg_bonus_tables()[2] == eg_bishop_bonus());
            }
            if k == 3 {
                assert(eg_pesto@[3] == eg_rook);
                assert(eg_bonus_tables()[3] == eg_rook_bonus());
            }
            if k == 4 {
                assert(eg_pesto@[4] == eg_queen);
                assert(eg_bonus_tables()[4] == eg_queen_bonus());
            }
            if k == 5 {
                assert(eg_pesto@[5] == eg_king);
                assert(eg_bonus_tables()[5] == eg_king_bonus());
            }
        }
        assert forall|k: int, s: int|
            0 <= k < 6 && 0 <= s < 64 implies #[trigger] mg@[2 * k]@[s] == mg_base_values()[k]
            + mg_bonus_tables()[k][mirror_sq(s)] && #[trigger] eg@[2 * k]@[s]
            == eg_base_values()[k] + eg_bonus_tables()[k][mirror_sq(s)] by {
            lemma_mirror_sq_range(s);
        }
    }
    EvalTables { mg, eg }
}

} // verus!
