//! The static position evaluator: scores a position with material plus
//! positional tables and a game-phase taper, from the perspective of the
//! side to move.
//!
//! A board is a snapshot produced by the external board collaborator: a
//! piece code per square, the side to move, and whether that side is in
//! check. Piece codes: `0` marks an empty square; code `2 + 2 * kind + 1`
//! is a white piece and `2 + 2 * kind` a black one, with kinds numbered
//! pawn, knight, bishop, rook, queen, king.

use vstd::prelude::*;

use crate::tables::{entries_bounded, lemma_mirror_sq_range, mirror_sq, mirrored_pair, EvalTables};

verus! {

/// One immutable position snapshot, as the board collaborator encodes it.
pub struct Board {
    /// Piece code per square, rank by rank, 64 entries.
    pub squares: Vec<u8>,
    /// True when white is the side to move.
    pub white_move: bool,
    /// True when the side to move is in check.
    pub in_check: bool,
}

pub open spec fn valid_piece(p: u8) -> bool {
    p == 0 || (2 <= p <= 13)
}

pub open spec fn is_white_piece(p: u8) -> bool {
    p % 2 == 1
}

impl Board {
    pub open spec fn wf(self) -> bool {
        &&& self.squares@.len() == 64
        &&& forall|i: int| 0 <= i < 64 ==> valid_piece(#[trigger] self.squares@[i])
    }

    /// Piece code on one square; `0` means empty.
    pub fn get_piece(&self, sq: usize) -> (r: u8)
        requires
            self.wf(),
            sq < 64,
        ensures
            r == self.squares@[sq as int],
    {
        self.squares[sq]
    }

    pub fn white_to_move(&self) -> (r: bool)
        ensures
            r == self.white_move,
    {
        self.white_move
    }

    pub fn is_king_checked(&self) -> (r: bool)
        ensures
            r == self.in_check,
    {
        self.in_check
    }
}

/// Game-phase weight of one piece row: pawns and kings contribute nothing,
/// knights and bishops one, rooks two, queens four.
pub open spec fn phase_inc(pf: int) -> int {
    if 2 <= pf <= 5 {
        1
    } else if 6 <= pf <= 7 {
        2
    } else if 8 <= pf <= 9 {
        4
    } else {
        0
    }
}

/// Per-piece-kind phase increment, indexed by piece row (piece code minus
/// two).
pub fn phase_increment(pf: usize) -> (r: i64)
    requires
        pf < 12,
    ensures
        r == phase_inc(pf as int),
{
    if pf < 2 {
        0
    } else if pf <= 5 {
        1
    } else if pf <= 7 {
        2
    } else if pf <= 9 {
        4
    } else {
        0
    }
}

/// Running totals of the per-square scan: white and black middle-game and
/// end-game sums, and the accumulated game-phase weight.
pub ghost struct Accum {
    pub w_mg: int,
    pub b_mg: int,
    pub w_eg: int,
    pub b_eg: int,
    pub phase: int,
}

pub open spec fn acc_zero() -> Accum {
    Accum { w_mg: 0, b_mg: 0, w_eg: 0, b_eg: 0, phase: 0 }
}

pub open spec fn acc_add(a: Accum, b: Accum) -> Accum {
    Accum {
        w_mg: a.w_mg + b.w_mg,
        b_mg: a.b_mg + b.b_mg,
        w_eg: a.w_eg + b.w_eg,
        b_eg: a.b_eg + b.b_eg,
        phase: a.phase + b.phase,
    }
}

/// Contribution of one square: the occupying piece's table values on the
/// side of its color, and its phase weight.
pub open spec fn square_acc(t: EvalTables, b: Board, sq: int) -> Accum {
    let p = b.squares@[sq];
    if p == 0 {
        acc_zero()
    } else {
        let pf = p - 2;
        if is_white_piece(p) {
            Accum {
                w_mg: t.mg@[pf]@[sq] as int,
                b_mg: 0,
                w_eg: t.eg@[pf]@[sq] as int,
                b_eg: 0,
                phase: phase_inc(pf),
            }
        } else {
            Accum {
                w_mg: 0,
                b_mg: t.mg@[pf]@[sq] as int,
                w_eg: 0,
                b_eg: t.eg@[pf]@[sq] as int,
                phase: phase_inc(pf),
            }
        }
    }
}

/// Sum of the first `f` squares of rank `r`.
pub open spec fn rank_acc(t: EvalTables, b: Board, r: int, f: nat) -> Accum
    decreases f,
{
    if f == 0 {
        acc_zero()
    } else {
        acc_add(rank_acc(t, b, r, (f - 1) as nat), square_acc(t, b, 8 * r + f - 1))
    }
}

/// Sum of the first `r` full ranks.
pub open spec fn board_acc(t: EvalTables, b: Board, r: nat) -> Accum
    decreases r,
{
    if r == 0 {
        acc_zero()
    } else {
        acc_add(board_acc(t, b, (r - 1) as nat), rank_acc(t, b, r - 1, 8))
    }
}

pub open spec fn total_acc(t: EvalTables, b: Board) -> Accum {
    board_acc(t, b, 8)
}

/// Middle-game phase: the accumulated phase weight, clamped to 24.
pub open spec fn spec_mg_phase(t: EvalTables, b: Board) -> int {
    if total_acc(t, b).phase >= 24 {
        24
    } else {
        total_acc(t, b).phase
    }
}

pub open spec fn spec_eg_phase(t: EvalTables, b: Board) -> int {
    24 - spec_mg_phase(t, b)
}

/// Quotient of `n / 24` with truncation toward zero, as the executable
/// division computes it.
pub open spec fn tdiv24(n: int) -> int {
    if n >= 0 {
        n / 24
    } else {
        -((-n) / 24)
    }
}

/// The static score of `b` from the side to move's perspective: the tapered
/// blend of the middle-game and end-game differentials.
pub open spec fn spec_eval(t: EvalTables, b: Board) -> int {
    let a = total_acc(t, b);
    let mg_score = if b.white_move {
        a.w_mg - a.b_mg
    } else {
        a.b_mg - a.w_mg
    };
    let eg_score = if b.white_move {
        a.w_eg - a.b_eg
    } else {
        a.b_eg - a.w_eg
    };
    tdiv24(spec_mg_phase(t, b) * mg_score + spec_eg_phase(t, b) * eg_score)
}

proof fn lemma_rank_acc_bounds(t: EvalTables, b: Board, r: int, f: nat)
    requires
        f <= 8,
    ensures
        -f * 0x8000_0000 <= rank_acc(t, b, r, f).w_mg <= f * 0x8000_0000,
        -f * 0x8000_0000 <= rank_acc(t, b, r, f).b_mg <= f * 0x8000_0000,
        -f * 0x8000_0000 <= rank_acc(t, b, r, f).w_eg <= f * 0x8000_0000,
        -f * 0x8000_0000 <= rank_acc(t, b, r, f).b_eg <= f * 0x8000_0000,
        0 <= rank_acc(t, b, r, f).phase <= 4 * f,
    decreases f,
{
    if f > 0 {
        lemma_rank_acc_bounds(t, b, r, (f - 1) as nat);
    }
}

proof fn lemma_board_acc_bounds(t: EvalTables, b: Board, r: nat)
    requires
        r <= 8,
    ensures
        -r * 8 * 0x8000_0000 <= board_acc(t, b, r).w_mg <= r * 8 * 0x8000_0000,
        -r * 8 * 0x8000_0000 <= board_acc(t, b, r).b_mg <= r * 8 * 0x8000_0000,
        -r * 8 * 0x8000_0000 <= board_acc(t, b, r).w_eg <= r * 8 * 0x8000_0000,
        -r * 8 * 0x8000_0000 <= board_acc(t, b, r).b_eg <= r * 8 * 0x8000_0000,
        0 <= board_acc(t, b, r).phase <= 32 * r,
    decreases r,
{
    if r > 0 {
        lemma_board_acc_bounds(t, b, (r - 1) as nat);
        lemma_rank_acc_bounds(t, b, r - 1, 8);
    }
}

/// The static score can never approach the checkmate sentinel: the taper is
/// a convex combination of two differentials, each bounded by the table
/// entries' type.
pub proof fn lemma_eval_bounded(t: EvalTables, b: Board)
    ensures
        -EVAL_LIMIT < spec_eval(t, b) < EVAL_LIMIT,
{
    lemma_board_acc_bounds(t, b, 8);
    let a = total_acc(t, b);
    let mg_score = if b.white_move {
        a.w_mg - a.b_mg
    } else {
        a.b_mg - a.w_mg
    };
    let eg_score = if b.white_move {
        a.w_eg - a.b_eg
    } else {
        a.b_eg - a.w_eg
    };
    let mgp = spec_mg_phase(t, b);
    let egp = spec_eg_phase(t, b);
    assert(-0x80_0000_0000 <= mg_score <= 0x80_0000_0000);
    assert(0 <= mgp <= 24 && 0 <= egp <= 24 && mgp + egp == 24);
    assert(-24 * 0x80_0000_0000 <= mgp * mg_score <= 24 * 0x80_0000_0000) by (nonlinear_arith)
        requires
            0 <= mgp <= 24,
            -0x80_0000_0000 <= mg_score <= 0x80_0000_0000,
    ;
    assert(-24 * 0x80_0000_0000 <= egp * eg_score <= 24 * 0x80_0000_0000) by (nonlinear_arith)
        requires
            0 <= egp <= 24,
            -0x80_0000_0000 <= eg_score <= 0x80_0000_0000,
    ;
    let n = mgp * mg_score + egp * eg_score;
    assert(n >= 0 ==> n / 24 <= n);
    assert(n < 0 ==> (-n) / 24 <= -n);
}

/// Coarse bound on the magnitude of any static evaluation, from the table
/// entries' type alone; for tables whose entries combine two 16-bit
/// values, [`lemma_eval_below_checkmate`] sharpens it to below the
/// checkmate sentinel.
pub const EVAL_LIMIT: i64 = 0x10_0000_0000_0000;

proof fn lemma_rank_acc_sharp(t: EvalTables, b: Board, r: int, f: nat)
    requires
        b.wf(),
        entries_bounded(t.mg),
        entries_bounded(t.eg),
        0 <= r < 8,
        f <= 8,
    ensures
        -(f * 65536) <= rank_acc(t, b, r, f).w_mg <= f * 65536,
        -(f * 65536) <= rank_acc(t, b, r, f).b_mg <= f * 65536,
        -(f * 65536) <= rank_acc(t, b, r, f).w_eg <= f * 65536,
        -(f * 65536) <= rank_acc(t, b, r, f).b_eg <= f * 65536,
    decreases f,
{
    if f > 0 {
        lemma_rank_acc_sharp(t, b, r, (f - 1) as nat);
        let s = 8 * r + f - 1;
        assert(0 <= s < 64);
        assert(valid_piece(b.squares@[s]));
    }
}

proof fn lemma_board_acc_sharp(t: EvalTables, b: Board, r: nat)
    requires
        b.wf(),
        entries_bounded(t.mg),
        entries_bounded(t.eg),
        r <= 8,
    ensures
        -(r * 8 * 65536) <= board_acc(t, b, r).w_mg <= r * 8 * 65536,
        -(r * 8 * 65536) <= board_acc(t, b, r).b_mg <= r * 8 * 65536,
        -(r * 8 * 65536) <= board_acc(t, b, r).w_eg <= r * 8 * 65536,
        -(r * 8 * 65536) <= board_acc(t, b, r).b_eg <= r * 8 * 65536,
    decreases r,
{
    if r > 0 {
        lemma_board_acc_sharp(t, b, (r - 1) as nat);
        lemma_rank_acc_sharp(t, b, r - 1, 8);
    }
}

/// For tables whose entries combine two 16-bit values, no static score
/// reaches a magnitude of `0x80_0000`: the differentials are bounded by
/// the 64 entries scanned, and the taper is a convex combination.
pub proof fn lemma_eval_sharp(t: EvalTables, b: Board)
    requires
        b.wf(),
        entries_bounded(t.mg),
        entries_bounded(t.eg),
    ensures
        -0x80_0000 <= spec_eval(t, b) <= 0x80_0000,
{
    lemma_board_acc_sharp(t, b, 8);
    lemma_board_acc_bounds(t, b, 8);
    let a = total_acc(t, b);
    let mg_score = if b.white_move {
        a.w_mg - a.b_mg
    } else {
        a.b_mg - a.w_mg
    };
    let eg_score = if b.white_move {
        a.w_eg - a.b_eg
    } else {
        a.b_eg - a.w_eg
    };
    let mgp = spec_mg_phase(t, b);
    let egp = spec_eg_phase(t, b);
    assert(-0x80_0000 <= mg_score <= 0x80_0000);
    assert(-0x80_0000 <= eg_score <= 0x80_0000);
    let n = mgp * mg_score + egp * eg_score;
    assert(0 <= mgp && 0 <= egp && mgp + egp == 24);
    assert(-24 * 0x80_0000 <= n <= 24 * 0x80_0000) by (nonlinear_arith)
        requires
            0 <= mgp,
            0 <= egp,
            mgp + egp == 24,
            -0x80_0000 <= mg_score <= 0x80_0000,
            -0x80_0000 <= eg_score <= 0x80_0000,
            n == mgp * mg_score + egp * eg_score,
    ;
    assert(n >= 0 ==> n / 24 <= 0x80_0000) by (nonlinear_arith)
        requires
            n <= 24 * 0x80_0000,
    ;
    assert(n < 0 ==> (-n) / 24 <= 0x80_0000) by (nonlinear_arith)
        requires
            -n <= 24 * 0x80_0000,
    ;
}

/// Phase clamping law: for any position the middle-game and end-game phase
/// weights are complementary and the middle-game weight never exceeds 24.
pub proof fn lemma_phase_clamp(t: EvalTables, b: Board)
    ensures
        spec_mg_phase(t, b) <= 24,
        0 <= spec_mg_phase(t, b),
        spec_mg_phase(t, b) + spec_eg_phase(t, b) == 24,
{
    lemma_board_acc_bounds(t, b, 8);
}

/// Static evaluation: walks the occupied squares, accumulates table values
/// per color and the game-phase weight, then tapers middle-game against
/// end-game by the clamped phase.
pub fn eval(tables: &EvalTables, board: &Board) -> (r: i64)
    requires
        tables.wf(),
        board.wf(),
    ensures
        r == spec_eval(*tables, *board),
{
    let mut game_phase: i64 = 0;
    let mut w_mg: i64 = 0;
    let mut b_mg: i64 = 0;
    let mut w_eg: i64 = 0;
    let mut b_eg: i64 = 0;
    let mut r_idx: usize = 0;
    while r_idx < 8
        invariant
            tables.wf(),
            board.wf(),
            r_idx <= 8,
            w_mg == board_acc(*tables, *board, r_idx as nat).w_mg,
            b_mg == board_acc(*tables, *board, r_idx as nat).b_mg,
            w_eg == board_acc(*tables, *board, r_idx as nat).w_eg,
            b_eg == board_acc(*tables, *board, r_idx as nat).b_eg,
            game_phase == board_acc(*tables, *board, r_idx as nat).phase,
        decreases 8 - r_idx,
    {
        let mut f_idx: usize = 0;
        proof {
            lemma_board_acc_bounds(*tables, *board, r_idx as nat);
        }
        while f_idx < 8
            invariant
                tables.wf(),
                board.wf(),
                r_idx < 8,
                f_idx <= 8,
                w_mg == acc_add(
                    board_acc(*tables, *board, r_idx as nat),
                    rank_acc(*tables, *board, r_idx as int, f_idx as nat),
                ).w_mg,
                b_mg == acc_add(
                    board_acc(*tables, *board, r_idx as nat),
                    rank_acc(*tables, *board, r_idx as int, f_idx as nat),
                ).b_mg,
                w_eg == acc_add(
                    board_acc(*tables, *board, r_idx as nat),
                    rank_acc(*tables, *board, r_idx as int, f_idx as nat),
                ).w_eg,
                b_eg == acc_add(
                    board_acc(*tables, *board, r_idx as nat),
                    rank_acc(*tables, *board, r_idx as int, f_idx as nat),
                ).b_eg,
                game_phase == acc_add(
                    board_acc(*tables, *board, r_idx as nat),
                    rank_acc(*tables, *board, r_idx as int, f_idx as nat),
                ).phase,
            decreases 8 - f_idx,
        {
            proof {
                lemma_board_acc_bounds(*tables, *board, r_idx as nat);
                lemma_rank_acc_bounds(*tables, *board, r_idx as int, f_idx as nat);
            }
            let sq: usize = 8 * r_idx + f_idx;
            let piece = board.get_piece(sq);
            if piece != 0 {
                let pf = (piece - 2) as usize;
                if piece % 2 == 1 {
                    w_mg = w_mg + tables.mg[pf][sq] as i64;
                    w_eg = w_eg + tables.eg[pf][sq] as i64;
                } else {
                    b_mg = b_mg + tables.mg[pf][sq] as i64;
                    b_eg = b_eg + tables.eg[pf][sq] as i64;
                }
                game_phase = game_phase + phase_increment(pf);
            }
            proof {
                assert(rank_acc(*tables, *board, r_idx as int, (f_idx + 1) as nat) == acc_add(
                    rank_acc(*tables, *board, r_idx as int, f_idx as nat),
                    square_acc(*tables, *board, sq as int),
                ));
            }
            f_idx += 1;
        }
        proof {
            assert(board_acc(*tables, *board, (r_idx + 1) as nat) == acc_add(
                board_acc(*tables, *board, r_idx as nat),
                rank_acc(*tables, *board, r_idx as int, 8),
            ));
        }
        r_idx += 1;
    }
    proof {
        lemma_board_acc_bounds(*tables, *board, 8);
    }
    let (mg_score, eg_score) = if board.white_to_move() {
        (w_mg - b_mg, w_eg - b_eg)
    } else {
        (b_mg - w_mg, b_eg - w_eg)
    };
    // Tapered evaluation: as material comes off the board, the end-game
    // differential gains weight against the middle-game one.
    let mg_phase: i64 = if game_phase >= 24 {
        24
    } else {
        game_phase
    };
    let eg_phase: i64 = 24 - mg_phase;
    proof {
        assert(-24 * 0x80_0000_0000 <= mg_phase * mg_score <= 24 * 0x80_0000_0000)
            by (nonlinear_arith)
            requires
                0 <= mg_phase <= 24,
                -0x80_0000_0000 <= mg_score <= 0x80_0000_0000,
        ;
        assert(-24 * 0x80_0000_0000 <= eg_phase * eg_score <= 24 * 0x80_0000_0000)
            by (nonlinear_arith)
            requires
                0 <= eg_phase <= 24,
                -0x80_0000_0000 <= eg_score <= 0x80_0000_0000,
        ;
    }
    let num: i64 = mg_phase * mg_score + eg_phase * eg_score;
    if num >= 0 {
        num / 24
    } else {
        -((-num) / 24)
    }
}

/// Two boards are color-swapped mirrors of one another: the same side to
/// move, and each square of one holds the color-flipped piece of the
/// vertically mirrored square of the other.
pub open spec fn color_swapped(b1: Board, b2: Board) -> bool {
    &&& b1.squares@.len() == 64
    &&& b2.squares@.len() == 64
    &&& b2.white_move == b1.white_move
    &&& forall|s: int|
        0 <= s < 64 ==> #[trigger] b2.squares@[s] == flip_color(b1.squares@[mirror_sq(s)])
}

/// The same piece kind in the opposing color; empty squares stay empty.
pub open spec fn flip_color(p: u8) -> u8 {
    if p == 0 {
        0
    } else if is_white_piece(p) {
        (p - 1) as u8
    } else {
        (p + 1) as u8
    }
}

pub open spec fn acc_swap(a: Accum) -> Accum {
    Accum { w_mg: a.b_mg, b_mg: a.w_mg, w_eg: a.b_eg, b_eg: a.w_eg, phase: a.phase }
}

proof fn lemma_square_swap(t: EvalTables, b1: Board, b2: Board, s: int)
    requires
        t.wf(),
        b1.wf(),
        mirrored_pair(t.mg),
        mirrored_pair(t.eg),
        color_swapped(b1, b2),
        0 <= s < 64,
    ensures
        square_acc(t, b2, s) == acc_swap(square_acc(t, b1, mirror_sq(s))),
{
    lemma_mirror_sq_range(s);
    let ms = mirror_sq(s);
    let p1 = b1.squares@[ms];
    let p2 = b2.squares@[s];
    assert(p2 == flip_color(p1));
    if p1 != 0 {
        let pf1 = p1 - 2;
        if is_white_piece(p1) {
            // p1 = 2k + 3, so its row is 2k + 1 and the flipped row is 2k.
            let k = (pf1 - 1) / 2;
            assert(pf1 == 2 * k + 1 && p2 - 2 == 2 * k);
            assert(t.mg@[2 * k]@[s] == t.mg@[2 * k + 1]@[mirror_sq(s)]);
            assert(t.eg@[2 * k]@[s] == t.eg@[2 * k + 1]@[mirror_sq(s)]);
        } else {
            let k = pf1 / 2;
            assert(pf1 == 2 * k && p2 - 2 == 2 * k + 1);
            assert(t.mg@[2 * k]@[ms] == t.mg@[2 * k + 1]@[mirror_sq(ms)]);
            assert(t.eg@[2 * k]@[ms] == t.eg@[2 * k + 1]@[mirror_sq(ms)]);
            assert(mirror_sq(ms) == s);
        }
    }
}

proof fn lemma_rank_swap(t: EvalTables, b1: Board, b2: Board, r: int, f: nat)
    requires
        t.wf(),
        b1.wf(),
        mirrored_pair(t.mg),
        mirrored_pair(t.eg),
        color_swapped(b1, b2),
        0 <= r < 8,
        f <= 8,
    ensures
        rank_acc(t, b2, r, f) == acc_swap(rank_acc(t, b1, 7 - r, f)),
    decreases f,
{
    if f > 0 {
        lemma_rank_swap(t, b1, b2, r, (f - 1) as nat);
        let s = 8 * r + f - 1;
        lemma_square_swap(t, b1, b2, s);
        assert(mirror_sq(s) == 8 * (7 - r) + f - 1) by (nonlinear_arith)
            requires
                0 <= r < 8,
                1 <= f <= 8,
                s == 8 * r + f - 1,
                mirror_sq(s) == 8 * (7 - s / 8) + s % 8,
        ;
    }
}

/// Ranks of `b1` summed from rank `j` upward.
spec fn board_acc_from(t: EvalTables, b: Board, j: nat) -> Accum
    decreases 8 - j,
{
    if j >= 8 {
        acc_zero()
    } else {
        acc_add(rank_acc(t, b, j as int, 8), board_acc_from(t, b, j + 1))
    }
}

proof fn lemma_board_from_total(t: EvalTables, b: Board, j: nat)
    requires
        j <= 8,
    ensures
        acc_add(board_acc(t, b, j), board_acc_from(t, b, j)) == board_acc(t, b, 8),
    decreases 8 - j,
{
    if j < 8 {
        lemma_board_from_total(t, b, j + 1);
        assert(board_acc(t, b, j + 1) == acc_add(board_acc(t, b, j), rank_acc(t, b, j as int, 8)));
    }
}

proof fn lemma_board_swap(t: EvalTables, b1: Board, b2: Board, r: nat)
    requires
        t.wf(),
        b1.wf(),
        mirrored_pair(t.mg),
        mirrored_pair(t.eg),
        color_swapped(b1, b2),
        r <= 8,
    ensures
        board_acc(t, b2, r) == acc_swap(board_acc_from(t, b1, (8 - r) as nat)),
    decreases r,
{
    if r == 0 {
        assert(board_acc_from(t, b1, 8) == acc_zero());
    } else {
        lemma_board_swap(t, b1, b2, (r - 1) as nat);
        lemma_rank_swap(t, b1, b2, r - 1, 8);
        assert(board_acc_from(t, b1, (8 - r) as nat) == acc_add(
            rank_acc(t, b1, 8 - r as int, 8),
            board_acc_from(t, b1, (8 - r + 1) as nat),
        ));
    }
}

/// Negamax symmetry law: evaluating a position and evaluating its
/// color-swapped vertical mirror, with the same side to move, yields
/// additive inverses.
pub proof fn lemma_eval_mirror(t: EvalTables, b1: Board, b2: Board)
    requires
        t.wf(),
        b1.wf(),
        mirrored_pair(t.mg),
        mirrored_pair(t.eg),
        color_swapped(b1, b2),
    ensures
        spec_eval(t, b2) == -spec_eval(t, b1),
{
    lemma_board_swap(t, b1, b2, 8);
    lemma_board_from_total(t, b1, 0);
    assert(board_acc(t, b1, 0) == acc_zero());
    assert(total_acc(t, b2) == acc_swap(total_acc(t, b1)));
    let a1 = total_acc(t, b1);
    let mg1 = if b1.white_move {
        a1.w_mg - a1.b_mg
    } else {
        a1.b_mg - a1.w_mg
    };
    let eg1 = if b1.white_move {
        a1.w_eg - a1.b_eg
    } else {
        a1.b_eg - a1.w_eg
    };
    let mgp = spec_mg_phase(t, b1);
    let egp = spec_eg_phase(t, b1);
    assert(spec_mg_phase(t, b2) == mgp);
    assert(spec_eval(t, b2) == tdiv24(mgp * (-mg1) + egp * (-eg1)));
    assert(mgp * (-mg1) == -(mgp * mg1) && egp * (-eg1) == -(egp * eg1)) by (nonlinear_arith);
    assert(tdiv24(-(mgp * mg1 + egp * eg1)) == -tdiv24(mgp * mg1 + egp * eg1));
}

} // verus!
