use walrus_engine::board::{eval, Board};
use walrus_engine::perft::{perft, MOVE_CAPTURE, MOVE_CHECK, MOVE_PROMO};
use walrus_engine::report::mate_in_moves;
use walrus_engine::search::{search, Mv, Node, RootEvent, CHECKMATE};
use walrus_engine::tables::{initialize_tables, pesto_tables};

// Piece codes: 0 empty; 2 + 2 * kind + 1 white, 2 + 2 * kind black, with
// kinds pawn, knight, bishop, rook, queen, king.
const WP: u8 = 3;
const WN: u8 = 5;
const WB: u8 = 7;
const WR: u8 = 9;
const WQ: u8 = 11;
const WK: u8 = 13;
const BP: u8 = 2;
const BN: u8 = 4;
const BB: u8 = 6;
const BR: u8 = 8;
const BQ: u8 = 10;
const BK: u8 = 12;

fn board_of(squares: Vec<u8>, white_move: bool, in_check: bool) -> Board {
    assert_eq!(squares.len(), 64);
    Board {
        squares,
        white_move,
        in_check,
    }
}

fn empty_squares() -> Vec<u8> {
    vec![0u8; 64]
}

fn leaf(squares: Vec<u8>, white_move: bool) -> Node {
    Node {
        board: board_of(squares, white_move, false),
        children: Vec::new(),
    }
}

fn mv(text: &str) -> Mv {
    Mv {
        text: text.to_string(),
        meta: 0,
    }
}

/// A leaf whose static evaluation is `94 + eg_pawn[s]`: a single white
/// pawn on square `s`, white to move, zero game phase.
fn pawn_leaf(s: usize) -> Node {
    let mut sq = empty_squares();
    sq[s] = WP;
    leaf(sq, true)
}

fn startpos() -> Vec<u8> {
    let mut sq = empty_squares();
    let back = [BR, BN, BB, BQ, BK, BB, BN, BR];
    for f in 0..8 {
        sq[f] = back[f];
        sq[8 + f] = BP;
        sq[48 + f] = WP;
    }
    let back_w = [WR, WN, WB, WQ, WK, WB, WN, WR];
    for f in 0..8 {
        sq[56 + f] = back_w[f];
    }
    sq
}

fn square_name(s: usize) -> String {
    let file = (b'a' + (s % 8) as u8) as char;
    let rank = 8 - s / 8;
    format!("{}{}", file, rank)
}

fn apply_move(squares: &[u8], from: usize, to: usize) -> Vec<u8> {
    let mut out = squares.to_vec();
    out[to] = out[from];
    out[from] = 0;
    out
}

/// The twenty legal continuations of the starting position, in a fixed
/// order: pawn single and double pushes, then knight moves.
fn startpos_tree() -> Node {
    let sq = startpos();
    let mut children: Vec<(Mv, Node)> = Vec::new();
    for f in 0..8 {
        for dist in 1..3usize {
            let from = 48 + f;
            let to = from - 8 * dist;
            let text = format!("{}{}", square_name(from), square_name(to));
            let child = leaf(apply_move(&sq, from, to), false);
            children.push((mv(&text), child));
        }
    }
    for (from, to) in [(57, 40), (57, 42), (62, 45), (62, 47)] {
        let text = format!("{}{}", square_name(from), square_name(to));
        let child = leaf(apply_move(&sq, from, to), false);
        children.push((mv(&text), child));
    }
    Node {
        board: board_of(sq, true, false),
        children,
    }
}

#[test]
fn table_symmetry_every_square() {
    let t = pesto_tables();
    for k in 0..6 {
        for s in 0..64 {
            assert_eq!(t.mg[2 * k][s], t.mg[2 * k + 1][s ^ 0b111000]);
            assert_eq!(t.eg[2 * k][s], t.eg[2 * k + 1][s ^ 0b111000]);
        }
    }
}

#[test]
fn table_known_entries() {
    let t = pesto_tables();
    // White pawn on a7: base 82 plus bonus 98.
    assert_eq!(t.mg[1][8], 180);
    // The mirrored row holds the same value at a2.
    assert_eq!(t.mg[0][48], 180);
    // End-game pawn on a7: base 94 plus bonus 178.
    assert_eq!(t.eg[1][8], 272);
}

#[test]
fn initialize_tables_combines_value_and_bonus() {
    let vals: [i16; 6] = [10, 20, 30, 40, 50, 60];
    let mut pesto = [[0i16; 64]; 6];
    for k in 0..6 {
        for s in 0..64 {
            pesto[k][s] = (k * 64 + s) as i16;
        }
    }
    let t = initialize_tables(&vals, &pesto);
    assert_eq!(t.len(), 12);
    for k in 0..6 {
        for s in 0..64 {
            assert_eq!(t[2 * k + 1][s], vals[k] as i32 + pesto[k][s] as i32);
            assert_eq!(t[2 * k][s], vals[k] as i32 + pesto[k][s ^ 0b111000] as i32);
        }
    }
}

#[test]
fn eval_single_pawn_endgame_weight() {
    let t = pesto_tables();
    // One white pawn on a7, zero game phase: the end-game table decides
    // alone, (0 * mg + 24 * eg) / 24 = 94 + 178.
    let b = board_of(pawn_leaf(8).board.squares, true, false);
    assert_eq!(eval(&t, &b), 272);
    // Same board from black's perspective: the differential negates.
    let b2 = board_of(pawn_leaf(8).board.squares, false, false);
    assert_eq!(eval(&t, &b2), -272);
}

#[test]
fn eval_phase_clamped_at_24() {
    let t = pesto_tables();
    // Seven white queens: a raw phase of 28 must clamp to 24, so the
    // middle-game differential decides alone.
    let mut sq = empty_squares();
    for s in 0..7 {
        sq[s] = WQ;
    }
    let b = board_of(sq, true, false);
    // 7 * 1025 plus the queen bonuses of a8..g8.
    let bonus = -28 + 0 + 29 + 12 + 59 + 44 + 43;
    assert_eq!(eval(&t, &b), 7 * 1025 + bonus);
}

#[test]
fn eval_mirror_is_additive_inverse() {
    let t = pesto_tables();
    let mut sq = empty_squares();
    sq[8] = WP;
    sq[27] = BN;
    sq[60] = WK;
    sq[4] = BK;
    sq[33] = WR;
    let b1 = board_of(sq.clone(), true, false);
    // Swap the colors and mirror every square vertically.
    let mut sq2 = empty_squares();
    for s in 0..64 {
        let p = sq[s ^ 0b111000];
        sq2[s] = if p == 0 {
            0
        } else if p % 2 == 1 {
            p - 1
        } else {
            p + 1
        };
    }
    let b2 = board_of(sq2, true, false);
    assert_eq!(eval(&t, &b2), -eval(&t, &b1));
}

#[test]
fn terminal_checkmate_score_and_distance() {
    let t = pesto_tables();
    let node = Node {
        board: board_of(empty_squares(), true, true),
        children: Vec::new(),
    };
    let mut log: Vec<RootEvent> = Vec::new();
    let (pv, score, mate, nodes) = search(&t, &node, -2 * CHECKMATE, 2 * CHECKMATE, 0, 1, &mut log);
    assert_eq!(pv, "");
    assert_eq!(score, -CHECKMATE);
    assert_eq!(mate, Some(1));
    assert_eq!(nodes, 1);
}

#[test]
fn terminal_stalemate_scores_zero() {
    let t = pesto_tables();
    let node = Node {
        board: board_of(empty_squares(), true, false),
        children: Vec::new(),
    };
    let mut log: Vec<RootEvent> = Vec::new();
    let (pv, score, mate, nodes) = search(&t, &node, -2 * CHECKMATE, 2 * CHECKMATE, 0, 1, &mut log);
    assert_eq!(pv, "");
    assert_eq!(score, 0);
    assert_eq!(mate, None);
    assert_eq!(nodes, 1);
}

#[test]
fn startpos_depth_one() {
    let t = pesto_tables();
    let tree = startpos_tree();
    let mut log: Vec<RootEvent> = Vec::new();
    let (pv, score, mate, nodes) = search(&t, &tree, -CHECKMATE, CHECKMATE, 0, 1, &mut log);
    assert!(!pv.is_empty());
    assert!(score.abs() < CHECKMATE);
    assert_eq!(mate, None);
    // One node per legal move: every child is a depth-limit leaf.
    assert_eq!(nodes, 20);
    // Every move was announced at the root.
    let currs = log
        .iter()
        .filter(|e| matches!(e, RootEvent::CurrMove { .. }))
        .count();
    assert_eq!(currs, 20);
}

/// A two-ply tree with known leaf values: branch `a` leads to leaves worth
/// 272 and 228 to the leaf mover, branch `b` to 267 and 252. Full-width
/// negamax gives max(min(272, 228), min(267, 252)) = 252 through `b`.
fn known_tree() -> Node {
    let a = Node {
        board: board_of(empty_squares(), false, false),
        children: vec![
            (mv("a1"), pawn_leaf(8)),
            (mv("a2"), pawn_leaf(11)),
        ],
    };
    let b = Node {
        board: board_of(empty_squares(), false, false),
        children: vec![
            (mv("b1"), pawn_leaf(9)),
            (mv("b2"), pawn_leaf(10)),
        ],
    };
    Node {
        board: board_of(empty_squares(), true, false),
        children: vec![(mv("a"), a), (mv("b"), b)],
    }
}

#[test]
fn alpha_beta_matches_full_width_on_known_tree() {
    let t = pesto_tables();
    let tree = known_tree();
    let mut log: Vec<RootEvent> = Vec::new();
    let (pv, score, mate, nodes) = search(&t, &tree, -CHECKMATE, CHECKMATE, 0, 2, &mut log);
    // The pruned score and line equal the unpruned full-width result.
    assert_eq!(score, 252);
    assert_eq!(pv, "b b2 ");
    assert_eq!(mate, None);
    assert_eq!(nodes, 4);
    // The widest expressible window gives the same score and line.
    let (pv2, score2, mate2, _) = search(&t, &tree, -i64::MAX, i64::MAX, 0, 2, &mut log);
    assert_eq!(score2, 252);
    assert_eq!(pv2, "b b2 ");
    assert_eq!(mate2, None);
}

#[test]
fn node_counts_accumulate_at_depth_two() {
    let t = pesto_tables();
    let tree = known_tree();
    let mut log: Vec<RootEvent> = Vec::new();
    // Each branch explores both of its leaves; the root's count is the sum
    // of its children's counts, and each leaf counts one.
    let (_, _, _, nodes) = search(&t, &tree, -CHECKMATE, CHECKMATE, 0, 2, &mut log);
    let (_, _, _, a_nodes) = search(
        &t,
        &tree.children[0].1,
        -CHECKMATE,
        CHECKMATE,
        1,
        2,
        &mut log,
    );
    let (_, _, _, b_nodes) = search(
        &t,
        &tree.children[1].1,
        -CHECKMATE,
        CHECKMATE,
        1,
        2,
        &mut log,
    );
    assert_eq!(a_nodes, 2);
    assert_eq!(b_nodes, 2);
    assert_eq!(nodes, a_nodes + b_nodes);
}

#[test]
fn mate_in_one_reported() {
    let t = pesto_tables();
    // One move mates: its child has no legal replies and leaves the
    // opponent in check. The other move lets the game go on.
    let mate_child = Node {
        board: board_of(empty_squares(), false, true),
        children: Vec::new(),
    };
    let quiet_child = Node {
        board: board_of(pawn_leaf(8).board.squares, false, false),
        children: vec![(mv("h7h6"), pawn_leaf(20))],
    };
    let tree = Node {
        board: board_of(empty_squares(), true, false),
        children: vec![(mv("h5f7"), mate_child), (mv("a2a3"), quiet_child)],
    };
    let mut log: Vec<RootEvent> = Vec::new();
    let (pv, score, mate, _) = search(&t, &tree, -2 * CHECKMATE, 2 * CHECKMATE, 0, 2, &mut log);
    assert_eq!(score, CHECKMATE);
    assert!(pv.starts_with("h5f7"));
    // One ply below the root, bumped once on the way up.
    assert_eq!(mate, Some(2));
    // The root diagnostics report the mate found at distance one, and the
    // conversion to full moves gives mate in one for the mover.
    let info = log
        .iter()
        .find_map(|e| match e {
            RootEvent::Info { score, mate_in, .. } => Some((*score, *mate_in)),
            _ => None,
        })
        .expect("an improvement record");
    assert_eq!(info.0, CHECKMATE);
    assert_eq!(info.1, Some(1));
    assert_eq!(mate_in_moves(info.0, info.1.unwrap()), 1);
}

#[test]
fn beta_cutoff_is_fail_hard() {
    let t = pesto_tables();
    let tree = known_tree();
    let mut log: Vec<RootEvent> = Vec::new();
    // A narrow window around zero: the true value 252 lies above beta, so
    // the search fails hard at exactly beta.
    let (_, score, _, _) = search(&t, &tree, -10, 10, 0, 2, &mut log);
    assert_eq!(score, 10);
}

#[test]
fn mate_in_moves_signs_and_rounding() {
    assert_eq!(mate_in_moves(CHECKMATE, 1), 1);
    assert_eq!(mate_in_moves(-CHECKMATE, 1), -1);
    assert_eq!(mate_in_moves(CHECKMATE, 3), 2);
    assert_eq!(mate_in_moves(CHECKMATE, 4), 2);
    // Below the sentinel magnitude there is no mate to report.
    assert_eq!(mate_in_moves(5, 3), 0);
}

#[test]
fn perft_counts_moves_and_flags() {
    let capture = Mv {
        text: "e4d5".to_string(),
        meta: MOVE_CAPTURE,
    };
    let promo_check = Mv {
        text: "e7e8q".to_string(),
        meta: MOVE_PROMO | MOVE_CHECK,
    };
    let quiet = Mv {
        text: "a2a3".to_string(),
        meta: 0,
    };
    let inner_a = Node {
        board: board_of(empty_squares(), false, false),
        children: vec![(capture, pawn_leaf(8)), (quiet, pawn_leaf(9))],
    };
    let inner_b = Node {
        board: board_of(empty_squares(), false, false),
        children: vec![(promo_check, pawn_leaf(10))],
    };
    let root = Node {
        board: board_of(empty_squares(), true, false),
        children: vec![
            (mv("a"), inner_a),
            (
                Mv {
                    text: "b".to_string(),
                    meta: MOVE_CAPTURE,
                },
                inner_b,
            ),
        ],
    };
    // One ply: the root's own moves are classified.
    assert_eq!(perft(&root, 1, 0), (2, 1, 0, 0, 0));
    // Two plies: the moves of the children are accumulated.
    assert_eq!(perft(&root, 2, 0), (3, 1, 0, 1, 1));
}

#[test]
fn startpos_perft_depth_one() {
    let tree = startpos_tree();
    let (nodes, captures, castles, checks, promos) = perft(&tree, 1, 0);
    assert_eq!(nodes, 20);
    assert_eq!((captures, castles, checks, promos), (0, 0, 0, 0));
}
