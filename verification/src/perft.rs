//! Move-path counting over the tree of legal continuations: at the last
//! ply before the depth limit the moves themselves are counted and
//! classified by their flags; above it the counts of the children are
//! accumulated.

use vstd::prelude::*;

use crate::search::Node;

verus! {

/// Move classification flags, as the board collaborator sets them in a
/// move's `meta` field.
pub const MOVE_CAPTURE: u32 = 0x1;

pub const MOVE_CASTLE: u32 = 0x2;

pub const MOVE_CHECK: u32 = 0x4;

pub const MOVE_PROMO: u32 = 0x8;

/// Totals of one traversal: paths counted, and how many of their last
/// moves carry each classification flag.
pub ghost struct PerftCounts {
    pub nodes: nat,
    pub captures: nat,
    pub castles: nat,
    pub checks: nat,
    pub promos: nat,
}

pub open spec fn pc_zero() -> PerftCounts {
    PerftCounts { nodes: 0, captures: 0, castles: 0, checks: 0, promos: 0 }
}

pub open spec fn pc_add(a: PerftCounts, b: PerftCounts) -> PerftCounts {
    PerftCounts {
        nodes: a.nodes + b.nodes,
        captures: a.captures + b.captures,
        castles: a.castles + b.castles,
        checks: a.checks + b.checks,
        promos: a.promos + b.promos,
    }
}

pub open spec fn flag_count(meta: u32, flag: u32) -> nat {
    if meta & flag > 0 {
        1
    } else {
        0
    }
}

/// Counts of the moves from index `i` on, each counted once and
/// classified by its flags.
pub open spec fn move_counts(ch: Seq<(crate::search::Mv, Node)>, i: int) -> PerftCounts
    decreases ch.len() - i,
{
    if i < 0 || i >= ch.len() {
        pc_zero()
    } else {
        let m = ch[i].0.meta;
        pc_add(
            PerftCounts {
                nodes: 1,
                captures: flag_count(m, MOVE_CAPTURE),
                castles: flag_count(m, MOVE_CASTLE),
                checks: flag_count(m, MOVE_CHECK),
                promos: flag_count(m, MOVE_PROMO),
            },
            move_counts(ch, i + 1),
        )
    }
}

/// The counts a traversal of `rem` remaining plies returns: with one ply
/// left the moves themselves are counted, deeper the children's counts
/// accumulate.
pub open spec fn spec_perft(n: Node, rem: nat) -> PerftCounts
    decreases rem, 1int, 0int,
{
    if rem <= 1 {
        move_counts(n.children@, 0)
    } else {
        perft_sum(n.children@, 0, rem)
    }
}

pub open spec fn perft_sum(ch: Seq<(crate::search::Mv, Node)>, i: int, rem: nat) -> PerftCounts
    decreases rem, 0int, ch.len() - i,
{
    if i < 0 || i >= ch.len() || rem <= 1 {
        pc_zero()
    } else {
        pc_add(spec_perft(ch[i].1, (rem - 1) as nat), perft_sum(ch, i + 1, rem))
    }
}

proof fn lemma_move_counts_le(ch: Seq<(crate::search::Mv, Node)>, i: int)
    ensures
        move_counts(ch, i).captures <= move_counts(ch, i).nodes,
        move_counts(ch, i).castles <= move_counts(ch, i).nodes,
        move_counts(ch, i).checks <= move_counts(ch, i).nodes,
        move_counts(ch, i).promos <= move_counts(ch, i).nodes,
    decreases ch.len() - i,
{
    if 0 <= i < ch.len() {
        lemma_move_counts_le(ch, i + 1);
    }
}

proof fn lemma_perft_counts_le(n: Node, rem: nat)
    ensures
        spec_perft(n, rem).captures <= spec_perft(n, rem).nodes,
        spec_perft(n, rem).castles <= spec_perft(n, rem).nodes,
        spec_perft(n, rem).checks <= spec_perft(n, rem).nodes,
        spec_perft(n, rem).promos <= spec_perft(n, rem).nodes,
    decreases rem, 1int, 0int,
{
    if rem <= 1 {
        lemma_move_counts_le(n.children@, 0);
    } else {
        lemma_perft_sum_le(n.children@, 0, rem);
    }
}

proof fn lemma_perft_sum_le(ch: Seq<(crate::search::Mv, Node)>, i: int, rem: nat)
    ensures
        perft_sum(ch, i, rem).captures <= perft_sum(ch, i, rem).nodes,
        perft_sum(ch, i, rem).castles <= perft_sum(ch, i, rem).nodes,
        perft_sum(ch, i, rem).checks <= perft_sum(ch, i, rem).nodes,
        perft_sum(ch, i, rem).promos <= perft_sum(ch, i, rem).nodes,
    decreases rem, 0int, ch.len() - i,
{
    if 0 <= i < ch.len() && rem > 1 {
        lemma_perft_counts_le(ch[i].1, (rem - 1) as nat);
        lemma_perft_sum_le(ch, i + 1, rem);
    }
}

/// Counts the move paths of exactly `max_depth - depth` plies below this
/// node, classifying each path's last move by its flags: total, captures,
/// castles, checks, and promotions.
pub fn perft(board: &Node, max_depth: u32, depth: u32) -> (r: (u32, u32, u32, u32, u32))
    requires
        depth < max_depth,
        spec_perft(*board, (max_depth - depth) as nat).nodes <= u32::MAX,
    ensures
        ({
            let c = spec_perft(*board, (max_depth - depth) as nat);
            r.0 == c.nodes && r.1 == c.captures && r.2 == c.castles && r.3 == c.checks && r.4
                == c.promos
        }),
    decreases max_depth - depth,
{
    let ghost rem = (max_depth - depth) as nat;
    let ghost total = spec_perft(*board, rem);
    proof {
        lemma_perft_counts_le(*board, rem);
    }
    let mut nodes: u32 = 0;
    let mut captures: u32 = 0;
    let mut castles: u32 = 0;
    let mut checks: u32 = 0;
    let mut promos: u32 = 0;
    let n = board.children.len();
    if depth == max_depth - 1 {
        let mut i: usize = 0;
        while i < n
            invariant
                rem == 1,
                total == spec_perft(*board, rem),
                total.nodes <= u32::MAX,
                total.captures <= total.nodes,
                total.castles <= total.nodes,
                total.checks <= total.nodes,
                total.promos <= total.nodes,
                n == board.children@.len(),
                i <= n,
                pc_add(
                    PerftCounts {
                        nodes: nodes as nat,
                        captures: captures as nat,
                        castles: castles as nat,
                        checks: checks as nat,
                        promos: promos as nat,
                    },
                    move_counts(board.children@, i as int),
                ) == total,
            decreases n - i,
        {
            proof {
                lemma_move_counts_le(board.children@, i as int + 1);
            }
            let mv = &board.children[i].0;
            nodes = nodes + 1;
            if mv.meta & MOVE_CAPTURE > 0 {
                captures = captures + 1;
            }
            if mv.meta & MOVE_CASTLE > 0 {
                castles = castles + 1;
            }
            if mv.meta & MOVE_CHECK > 0 {
                checks = checks + 1;
            }
            if mv.meta & MOVE_PROMO > 0 {
                promos = promos + 1;
            }
            i += 1;
        }
        return (nodes, captures, castles, checks, promos);
    }
    let mut i: usize = 0;
    while i < n
        invariant
            rem >= 2,
            rem == (max_depth - depth) as nat,
            depth < max_depth - 1,
            total == spec_perft(*board, rem),
            total.nodes <= u32::MAX,
            total.captures <= total.nodes,
            total.castles <= total.nodes,
            total.checks <= total.nodes,
            total.promos <= total.nodes,
            n == board.children@.len(),
            i <= n,
            pc_add(
                PerftCounts {
                    nodes: nodes as nat,
                    captures: captures as nat,
                    castles: castles as nat,
                    checks: checks as nat,
                    promos: promos as nat,
                },
                perft_sum(board.children@, i as int, rem),
            ) == total,
        decreases n - i,
    {
        proof {
            lemma_perft_counts_le(board.children@[i as int].1, (rem - 1) as nat);
            lemma_perft_sum_le(board.children@, i as int + 1, rem);
        }
        let sub = perft(&board.children[i].1, max_depth, depth + 1);
        nodes = nodes + sub.0;
        captures = captures + sub.1;
        castles = castles + sub.2;
        checks = checks + sub.3;
        promos = promos + sub.4;
        i += 1;
    }
    (nodes, captures, castles, checks, promos)
}

} // verus!
