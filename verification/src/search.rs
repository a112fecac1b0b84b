//! Fixed-depth negamax search with alpha-beta pruning.
//!
//! The board collaborator hands the engine an explicit tree of legal
//! continuations: each [`Node`] holds one position, and one child per legal
//! move, in generator order. An empty child list means the position has no
//! legal moves. The search walks that tree to the configured depth,
//! evaluating at the depth limit, and returns the principal variation, the
//! score from the side to move's perspective, the mate distance in plies,
//! and the number of nodes visited.

use vstd::prelude::*;
use vstd::math::{max, min};
use vstd::string::StringExecFns;

use crate::board::{eval, lemma_eval_bounded, lemma_eval_sharp, spec_eval, Board, EVAL_LIMIT};
use crate::tables::{entries_bounded, EvalTables};

verus! {

/// Sentinel score of a checkmate: a magnitude no material or positional
/// score can reach.
pub const CHECKMATE: i64 = 100000000;

/// One legal move as the board collaborator describes it: its canonical
/// text and its classification flags.
pub struct Mv {
    pub text: String,
    pub meta: u32,
}

/// One node of the tree of legal continuations: a position and, per legal
/// move from it, the move and the resulting position's subtree.
pub struct Node {
    pub board: Board,
    pub children: Vec<(Mv, Node)>,
}

/// Boards are well-formed down to `rem` plies below this node.
pub open spec fn wf_to(n: Node, rem: nat) -> bool
    decreases rem, 1int, 0int,
{
    &&& n.board.wf()
    &&& rem > 0 ==> children_wf_to(n.children@, 0, rem)
}

pub open spec fn children_wf_to(ch: Seq<(Mv, Node)>, i: int, rem: nat) -> bool
    decreases rem, 0int, ch.len() - i,
{
    if i < 0 || i >= ch.len() || rem == 0 {
        true
    } else {
        wf_to(ch[i].1, (rem - 1) as nat) && children_wf_to(ch, i + 1, rem)
    }
}

proof fn lemma_children_wf_at(ch: Seq<(Mv, Node)>, i: int, k: int, rem: nat)
    requires
        children_wf_to(ch, i, rem),
        rem > 0,
        0 <= i <= k < ch.len(),
    ensures
        wf_to(ch[k].1, (rem - 1) as nat),
    decreases k - i,
{
    if i < k {
        lemma_children_wf_at(ch, i + 1, k, rem);
    }
}

/// Number of nodes a full traversal to `rem` plies would visit: one per
/// depth-limit leaf or terminal position.
pub open spec fn size_to(n: Node, rem: nat) -> nat
    decreases rem, 1int, 0int,
{
    if rem == 0 || n.children@.len() == 0 {
        1
    } else {
        sum_sizes(n.children@, 0, rem)
    }
}

pub open spec fn sum_sizes(ch: Seq<(Mv, Node)>, i: int, rem: nat) -> nat
    decreases rem, 0int, ch.len() - i,
{
    if i < 0 || i >= ch.len() || rem == 0 {
        0
    } else {
        size_to(ch[i].1, (rem - 1) as nat) + sum_sizes(ch, i + 1, rem)
    }
}

/// What one search call returns, as mathematical values: the principal
/// variation text, the score, the mate distance, the node count, and the
/// root diagnostics it emitted.
pub ghost struct Outcome {
    pub pv: Seq<char>,
    pub score: int,
    pub mate: Option<int>,
    pub nodes: nat,
    pub events: Seq<Ev>,
}

/// A root-level diagnostic event, as a mathematical value.
pub ghost enum Ev {
    Curr { number: int, text: Seq<char> },
    Info { score: int, mate: Option<int>, nodes: nat, pv: Seq<char> },
}

/// A root-level diagnostic record: the move currently being explored, or an
/// improvement of the best-known line.
pub enum RootEvent {
    CurrMove { number: u64, text: String },
    Info { score: i64, mate_in: Option<i8>, nodes: u64, pv: String },
}

pub open spec fn mate_view(m: Option<i8>) -> Option<int> {
    match m {
        Option::None => Option::None,
        Option::Some(x) => Option::Some(x as int),
    }
}

pub open spec fn ev_view(e: RootEvent) -> Ev {
    match e {
        RootEvent::CurrMove { number, text } => Ev::Curr { number: number as int, text: text@ },
        RootEvent::Info { score, mate_in, nodes, pv } => Ev::Info {
            score: score as int,
            mate: mate_view(mate_in),
            nodes: nodes as nat,
            pv: pv@,
        },
    }
}

pub open spec fn views_of(s: Seq<RootEvent>) -> Seq<Ev> {
    s.map_values(|e: RootEvent| ev_view(e))
}

proof fn lemma_views_push(s: Seq<RootEvent>, x: RootEvent)
    ensures
        views_of(s.push(x)) == views_of(s).push(ev_view(x)),
{
    assert(views_of(s.push(x)) =~= views_of(s).push(ev_view(x)));
}

/// A mate distance one ply farther from the forced outcome.
pub open spec fn bump_mate(m: Option<int>) -> Option<int> {
    match m {
        Option::None => Option::None,
        Option::Some(x) => Option::Some(x + 1),
    }
}

/// The candidate move's negated score ties the mate sentinel and its
/// forced mate is shorter than the best line's.
pub open spec fn shorter_mate(score: int, best: Option<int>, cand: Option<int>) -> bool {
    match (best, cand) {
        (Option::Some(bm), Option::Some(cm)) => score == -(CHECKMATE as int) && cm < bm,
        _ => false,
    }
}

/// A move's text prefixed to a deeper principal variation.
pub open spec fn joined_pv(text: Seq<char>, rest: Seq<char>) -> Seq<char> {
    text + seq![' '] + rest
}

/// The value the search returns for a node searched with window
/// `(alpha, beta)` and `rem` plies of depth left; `root` records whether
/// this node is the search root, where diagnostics are emitted.
pub open spec fn spec_search(
    t: EvalTables,
    node: Node,
    alpha: int,
    beta: int,
    rem: nat,
    root: bool,
) -> Outcome
    decreases rem, 1int, 0int,
{
    if rem == 0 {
        Outcome {
            pv: Seq::empty(),
            score: spec_eval(t, node.board),
            mate: Option::None,
            nodes: 1,
            events: Seq::empty(),
        }
    } else if node.children@.len() == 0 {
        if node.board.in_check {
            Outcome {
                pv: Seq::empty(),
                score: -(CHECKMATE as int),
                mate: Option::Some(1),
                nodes: 1,
                events: Seq::empty(),
            }
        } else {
            Outcome {
                pv: Seq::empty(),
                score: 0,
                mate: Option::None,
                nodes: 1,
                events: Seq::empty(),
            }
        }
    } else {
        ab_loop(
            t,
            node.children@,
            0,
            alpha,
            beta,
            Option::None,
            Seq::empty(),
            0,
            Seq::empty(),
            rem,
            root,
        )
    }
}

/// One step of the move loop: child `i` is searched with the sign-flipped,
/// swapped window; a negated child score at or above `beta` ends the loop
/// with a fail-hard cutoff; one above `acur` becomes the new best line; a
/// tie at the mate sentinel with a shorter forced mate replaces the best
/// line as well. Node counts accumulate across all explored children and
/// are never discarded.
pub open spec fn ab_loop(
    t: EvalTables,
    ch: Seq<(Mv, Node)>,
    i: int,
    acur: int,
    beta: int,
    best_mate: Option<int>,
    best_pv: Seq<char>,
    nodes: nat,
    events: Seq<Ev>,
    rem: nat,
    root: bool,
) -> Outcome
    decreases rem, 0int, ch.len() - i,
{
    if i < 0 || i >= ch.len() || rem == 0 {
        Outcome { pv: best_pv, score: acur, mate: bump_mate(best_mate), nodes, events }
    } else {
        let mv = ch[i].0;
        let child = ch[i].1;
        let evs0 = if root {
            events.push(Ev::Curr { number: i, text: mv.text@ })
        } else {
            events
        };
        let c = spec_search(t, child, -beta, -acur, (rem - 1) as nat, false);
        let nodes1 = nodes + c.nodes;
        if -c.score >= beta {
            Outcome {
                pv: joined_pv(mv.text@, c.pv),
                score: beta,
                mate: bump_mate(best_mate),
                nodes: nodes1,
                events: evs0,
            }
        } else if -c.score > acur {
            let pv1 = joined_pv(mv.text@, c.pv);
            let evs1 = if root {
                evs0.push(Ev::Info { score: -c.score, mate: c.mate, nodes: nodes1, pv: pv1 })
            } else {
                evs0
            };
            ab_loop(t, ch, i + 1, -c.score, beta, c.mate, pv1, nodes1, evs1, rem, root)
        } else if shorter_mate(c.score, best_mate, c.mate) {
            // The sentinel score ties: prefer the shorter forced mate.
            let pv1 = joined_pv(mv.text@, c.pv);
            let evs1 = if root {
                evs0.push(Ev::Info { score: -c.score, mate: c.mate, nodes: nodes1, pv: pv1 })
            } else {
                evs0
            };
            ab_loop(t, ch, i + 1, -c.score, beta, c.mate, pv1, nodes1, evs1, rem, root)
        } else {
            ab_loop(t, ch, i + 1, acur, beta, best_mate, best_pv, nodes1, evs0, rem, root)
        }
    }
}

proof fn lemma_loop_silent(
    t: EvalTables,
    ch: Seq<(Mv, Node)>,
    i: int,
    acur: int,
    beta: int,
    best_mate: Option<int>,
    best_pv: Seq<char>,
    nodes: nat,
    events: Seq<Ev>,
    rem: nat,
)
    ensures
        ab_loop(t, ch, i, acur, beta, best_mate, best_pv, nodes, events, rem, false).events
            == events,
    decreases rem, 0int, ch.len() - i,
{
    if !(i < 0 || i >= ch.len() || rem == 0) {
        let c = spec_search(t, ch[i].1, -beta, -acur, (rem - 1) as nat, false);
        let nodes1 = nodes + c.nodes;
        if -c.score >= beta {
        } else if -c.score > acur {
            lemma_loop_silent(
                t,
                ch,
                i + 1,
                -c.score,
                beta,
                c.mate,
                joined_pv(ch[i].0.text@, c.pv),
                nodes1,
                events,
                rem,
            );
        } else if shorter_mate(c.score, best_mate, c.mate) {
            lemma_loop_silent(
                t,
                ch,
                i + 1,
                -c.score,
                beta,
                c.mate,
                joined_pv(ch[i].0.text@, c.pv),
                nodes1,
                events,
                rem,
            );
        } else {
            lemma_loop_silent(t, ch, i + 1, acur, beta, best_mate, best_pv, nodes1, events, rem);
        }
    }
}

/// Away from the root the search emits no diagnostics.
proof fn lemma_search_silent(t: EvalTables, node: Node, alpha: int, beta: int, rem: nat)
    ensures
        spec_search(t, node, alpha, beta, rem, false).events == Seq::<Ev>::empty(),
{
    if rem != 0 && node.children@.len() != 0 {
        lemma_loop_silent(
            t,
            node.children@,
            0,
            alpha,
            beta,
            Option::None,
            Seq::empty(),
            0,
            Seq::empty(),
            rem,
        );
    }
}

proof fn lemma_loop_bounds(
    t: EvalTables,
    ch: Seq<(Mv, Node)>,
    i: int,
    acur: int,
    beta: int,
    best_mate: Option<int>,
    best_pv: Seq<char>,
    nodes: nat,
    events: Seq<Ev>,
    rem: nat,
    root: bool,
)
    requires
        rem >= 1,
        acur < beta,
        best_mate matches Option::Some(m) ==> 1 <= m <= rem,
        0 <= i,
    ensures
        ({
            let o = ab_loop(t, ch, i, acur, beta, best_mate, best_pv, nodes, events, rem, root);
            &&& nodes <= o.nodes <= nodes + sum_sizes(ch, i, rem)
            &&& i < ch.len() ==> o.nodes >= nodes + 1
            &&& (o.mate matches Option::Some(m) ==> 1 <= m <= rem + 1)
            &&& min(acur, -(EVAL_LIMIT as int)) <= o.score <= max(beta, EVAL_LIMIT as int)
        }),
    decreases rem, 0int, ch.len() - i,
{
    if i >= ch.len() {
    } else {
        let child = ch[i].1;
        let c = spec_search(t, child, -beta, -acur, (rem - 1) as nat, false);
        lemma_search_bounds(t, child, -beta, -acur, (rem - 1) as nat, false);
        let nodes1 = nodes + c.nodes;
        let evs0 = if root {
            events.push(Ev::Curr { number: i, text: ch[i].0.text@ })
        } else {
            events
        };
        if -c.score >= beta {
        } else if -c.score > acur {
            let pv1 = joined_pv(ch[i].0.text@, c.pv);
            let evs1 = if root {
                evs0.push(Ev::Info { score: -c.score, mate: c.mate, nodes: nodes1, pv: pv1 })
            } else {
                evs0
            };
            lemma_loop_bounds(t, ch, i + 1, -c.score, beta, c.mate, pv1, nodes1, evs1, rem, root);
        } else if shorter_mate(c.score, best_mate, c.mate) {
            let pv1 = joined_pv(ch[i].0.text@, c.pv);
            let evs1 = if root {
                evs0.push(Ev::Info { score: -c.score, mate: c.mate, nodes: nodes1, pv: pv1 })
            } else {
                evs0
            };
            lemma_loop_bounds(t, ch, i + 1, -c.score, beta, c.mate, pv1, nodes1, evs1, rem, root);
        } else {
            lemma_loop_bounds(
                t,
                ch,
                i + 1,
                acur,
                beta,
                best_mate,
                best_pv,
                nodes1,
                evs0,
                rem,
                root,
            );
        }
    }
}

/// Every outcome the search can return is bounded: the node count by the
/// explored tree's size, the mate distance by the remaining depth, and the
/// score by the window and the evaluator's limit.
pub proof fn lemma_search_bounds(
    t: EvalTables,
    node: Node,
    alpha: int,
    beta: int,
    rem: nat,
    root: bool,
)
    requires
        alpha < beta,
    ensures
        ({
            let o = spec_search(t, node, alpha, beta, rem, root);
            &&& 1 <= o.nodes <= size_to(node, rem)
            &&& (o.mate matches Option::Some(m) ==> 1 <= m <= rem + 1)
            &&& min(alpha, -(EVAL_LIMIT as int)) <= o.score <= max(beta, EVAL_LIMIT as int)
        }),
    decreases rem, 1int, 0int,
{
    if rem == 0 {
        lemma_eval_bounded(t, node.board);
    } else if node.children@.len() == 0 {
    } else {
        lemma_loop_bounds(
            t,
            node.children@,
            0,
            alpha,
            beta,
            Option::None,
            Seq::empty(),
            0,
            Seq::empty(),
            rem,
            root,
        );
    }
}

/// Terminal detection law: with depth left and no legal moves, a position
/// in check scores exactly the negated checkmate sentinel with mate
/// distance one, and a stalemate scores zero with no mate distance; either
/// way exactly one node is counted.
pub proof fn lemma_terminal_detection(
    t: EvalTables,
    node: Node,
    alpha: int,
    beta: int,
    rem: nat,
    root: bool,
)
    requires
        rem > 0,
        node.children@.len() == 0,
    ensures
        ({
            let o = spec_search(t, node, alpha, beta, rem, root);
            &&& o.score == if node.board.in_check {
                -(CHECKMATE as int)
            } else {
                0
            }
            &&& o.mate == if node.board.in_check {
                Option::Some(1int)
            } else {
                Option::<int>::None
            }
            &&& o.nodes == 1
            &&& o.pv == Seq::<char>::empty()
        }),
{
}

/// The node counts of the children the move loop searches before it ends:
/// one entry per explored child, each that child's full count. A beta
/// cutoff ends the list but keeps the child that caused it.
pub open spec fn explored_counts(
    t: EvalTables,
    ch: Seq<(Mv, Node)>,
    i: int,
    acur: int,
    beta: int,
    best_mate: Option<int>,
    rem: nat,
) -> Seq<nat>
    decreases rem, 0int, ch.len() - i,
{
    if i < 0 || i >= ch.len() || rem == 0 {
        Seq::empty()
    } else {
        let c = spec_search(t, ch[i].1, -beta, -acur, (rem - 1) as nat, false);
        if -c.score >= beta {
            seq![c.nodes]
        } else if -c.score > acur {
            seq![c.nodes] + explored_counts(t, ch, i + 1, -c.score, beta, c.mate, rem)
        } else if shorter_mate(c.score, best_mate, c.mate) {
            seq![c.nodes] + explored_counts(t, ch, i + 1, -c.score, beta, c.mate, rem)
        } else {
            seq![c.nodes] + explored_counts(t, ch, i + 1, acur, beta, best_mate, rem)
        }
    }
}

pub open spec fn sum_counts(s: Seq<nat>) -> nat
    decreases s.len(),
{
    if s.len() == 0 {
        0
    } else {
        s[0] + sum_counts(s.drop_first())
    }
}

proof fn lemma_loop_explored(
    t: EvalTables,
    ch: Seq<(Mv, Node)>,
    i: int,
    acur: int,
    beta: int,
    best_mate: Option<int>,
    best_pv: Seq<char>,
    nodes: nat,
    events: Seq<Ev>,
    rem: nat,
    root: bool,
)
    requires
        rem >= 1,
        0 <= i,
    ensures
        ab_loop(t, ch, i, acur, beta, best_mate, best_pv, nodes, events, rem, root).nodes == nodes
            + sum_counts(explored_counts(t, ch, i, acur, beta, best_mate, rem)),
    decreases rem, 0int, ch.len() - i,
{
    assert(sum_counts(Seq::<nat>::empty()) == 0);
    if i < ch.len() {
        let c = spec_search(t, ch[i].1, -beta, -acur, (rem - 1) as nat, false);
        let nodes1 = nodes + c.nodes;
        let evs0 = if root {
            events.push(Ev::Curr { number: i, text: ch[i].0.text@ })
        } else {
            events
        };
        if -c.score >= beta {
            assert(seq![c.nodes].drop_first() =~= Seq::<nat>::empty());
            assert(sum_counts(seq![c.nodes]) == c.nodes);
        } else if -c.score > acur {
            let pv1 = joined_pv(ch[i].0.text@, c.pv);
            let evs1 = if root {
                evs0.push(Ev::Info { score: -c.score, mate: c.mate, nodes: nodes1, pv: pv1 })
            } else {
                evs0
            };
            lemma_loop_explored(t, ch, i + 1, -c.score, beta, c.mate, pv1, nodes1, evs1, rem, root);
            let rest = explored_counts(t, ch, i + 1, -c.score, beta, c.mate, rem);
            assert((seq![c.nodes] + rest).drop_first() =~= rest);
            assert(sum_counts(seq![c.nodes] + rest) == c.nodes + sum_counts(rest));
        } else if shorter_mate(c.score, best_mate, c.mate) {
            let pv1 = joined_pv(ch[i].0.text@, c.pv);
            let evs1 = if root {
                evs0.push(Ev::Info { score: -c.score, mate: c.mate, nodes: nodes1, pv: pv1 })
            } else {
                evs0
            };
            lemma_loop_explored(t, ch, i + 1, -c.score, beta, c.mate, pv1, nodes1, evs1, rem, root);
            let rest = explored_counts(t, ch, i + 1, -c.score, beta, c.mate, rem);
            assert((seq![c.nodes] + rest).drop_first() =~= rest);
            assert(sum_counts(seq![c.nodes] + rest) == c.nodes + sum_counts(rest));
        } else {
            lemma_loop_explored(
                t,
                ch,
                i + 1,
                acur,
                beta,
                best_mate,
                best_pv,
                nodes1,
                evs0,
                rem,
                root,
            );
            let rest = explored_counts(t, ch, i + 1, acur, beta, best_mate, rem);
            assert((seq![c.nodes] + rest).drop_first() =~= rest);
            assert(sum_counts(seq![c.nodes] + rest) == c.nodes + sum_counts(rest));
        }
    }
}

/// Node-count conservation law: a depth-limit leaf or a terminal position
/// counts exactly one node, and an inner node's count is exactly the sum
/// of its explored children's counts — nothing is discarded, not even on a
/// cutoff — so the whole count is bounded by the explored tree's size.
pub proof fn lemma_node_count(
    t: EvalTables,
    node: Node,
    alpha: int,
    beta: int,
    rem: nat,
    root: bool,
)
    requires
        alpha < beta,
    ensures
        (rem == 0 || node.children@.len() == 0) ==> spec_search(
            t,
            node,
            alpha,
            beta,
            rem,
            root,
        ).nodes == 1,
        !(rem == 0 || node.children@.len() == 0) ==> spec_search(
            t,
            node,
            alpha,
            beta,
            rem,
            root,
        ).nodes == sum_counts(
            explored_counts(t, node.children@, 0, alpha, beta, Option::None, rem),
        ),
        1 <= spec_search(t, node, alpha, beta, rem, root).nodes <= size_to(node, rem),
{
    lemma_search_bounds(t, node, alpha, beta, rem, root);
    if !(rem == 0 || node.children@.len() == 0) {
        lemma_loop_explored(
            t,
            node.children@,
            0,
            alpha,
            beta,
            Option::None,
            Seq::empty(),
            0,
            Seq::empty(),
            rem,
            root,
        );
    }
}

/// The full-width negamax value of a node: the static evaluation at the
/// depth limit, the terminal scores with no legal moves, and otherwise the
/// maximum over all children of the negated child value.
pub open spec fn spec_negamax(t: EvalTables, node: Node, rem: nat) -> int
    decreases rem, 1int, 0int,
{
    if rem == 0 {
        spec_eval(t, node.board)
    } else if node.children@.len() == 0 {
        if node.board.in_check {
            -(CHECKMATE as int)
        } else {
            0
        }
    } else {
        best_from(t, node.children@, 0, rem)
    }
}

/// Maximum negated child value over the children from index `i` on.
pub open spec fn best_from(t: EvalTables, ch: Seq<(Mv, Node)>, i: int, rem: nat) -> int
    decreases rem, 0int, ch.len() - i,
{
    if i < 0 || i >= ch.len() || rem == 0 {
        0
    } else {
        let v = -spec_negamax(t, ch[i].1, (rem - 1) as nat);
        if i + 1 >= ch.len() {
            v
        } else {
            max(v, best_from(t, ch, i + 1, rem))
        }
    }
}

/// A value clamped to the window: the fail-hard convention returns `lo`
/// when the value cannot beat it and `hi` when it would be cut off.
pub open spec fn clamp_score(v: int, lo: int, hi: int) -> int {
    if v <= lo {
        lo
    } else if v >= hi {
        hi
    } else {
        v
    }
}

proof fn lemma_best_from_bounded(t: EvalTables, ch: Seq<(Mv, Node)>, i: int, rem: nat)
    requires
        entries_bounded(t.mg),
        entries_bounded(t.eg),
        children_wf_to(ch, i, rem),
        rem >= 1,
        0 <= i,
    ensures
        -(CHECKMATE as int) <= best_from(t, ch, i, rem) <= CHECKMATE as int,
    decreases rem, 0int, ch.len() - i,
{
    if i < ch.len() {
        lemma_negamax_bounded(t, ch[i].1, (rem - 1) as nat);
        if i + 1 < ch.len() {
            lemma_best_from_bounded(t, ch, i + 1, rem);
        }
    }
}

/// Every full-width negamax value of a well-formed tree over bounded
/// tables lies within the checkmate sentinel.
pub proof fn lemma_negamax_bounded(t: EvalTables, node: Node, rem: nat)
    requires
        entries_bounded(t.mg),
        entries_bounded(t.eg),
        wf_to(node, rem),
    ensures
        -(CHECKMATE as int) <= spec_negamax(t, node, rem) <= CHECKMATE as int,
    decreases rem, 1int, 0int,
{
    if rem == 0 {
        lemma_eval_sharp(t, node.board);
    } else if node.children@.len() > 0 {
        lemma_best_from_bounded(t, node.children@, 0, rem);
    }
}

proof fn lemma_loop_value(
    t: EvalTables,
    ch: Seq<(Mv, Node)>,
    i: int,
    acur: int,
    beta: int,
    best_mate: Option<int>,
    best_pv: Seq<char>,
    nodes: nat,
    events: Seq<Ev>,
    rem: nat,
    root: bool,
)
    requires
        rem >= 1,
        0 <= i <= ch.len(),
        acur < beta,
        entries_bounded(t.mg),
        entries_bounded(t.eg),
        children_wf_to(ch, i, rem),
        acur > CHECKMATE as int ==> best_mate is None,
    ensures
        ab_loop(t, ch, i, acur, beta, best_mate, best_pv, nodes, events, rem, root).score == if i
            >= ch.len() {
            acur
        } else {
            clamp_score(best_from(t, ch, i, rem), acur, beta)
        },
    decreases rem, 0int, ch.len() - i,
{
    if i < ch.len() {
        let child = ch[i].1;
        let c = spec_search(t, child, -beta, -acur, (rem - 1) as nat, false);
        let vi = -spec_negamax(t, child, (rem - 1) as nat);
        lemma_alpha_beta(t, child, -beta, -acur, (rem - 1) as nat, false);
        lemma_negamax_bounded(t, child, (rem - 1) as nat);
        // Whether the child returned its raw value or a clamped one, the
        // negated child score relates to vi the same way on both sides of
        // this node's window.
        assert(-c.score >= beta <==> vi >= beta);
        assert(-c.score > acur <==> acur < vi);
        assert(acur < vi < beta ==> -c.score == vi);
        let evs0 = if root {
            events.push(Ev::Curr { number: i, text: ch[i].0.text@ })
        } else {
            events
        };
        let nodes1 = nodes + c.nodes;
        if -c.score >= beta {
            assert(best_from(t, ch, i, rem) >= vi);
        } else if -c.score > acur {
            let pv1 = joined_pv(ch[i].0.text@, c.pv);
            let evs1 = if root {
                evs0.push(Ev::Info { score: -c.score, mate: c.mate, nodes: nodes1, pv: pv1 })
            } else {
                evs0
            };
            // The new window bottom is the child's true value, which the
            // sentinel bounds, so a mate distance may now be carried.
            assert(-c.score == vi && vi <= CHECKMATE as int);
            lemma_loop_value(t, ch, i + 1, -c.score, beta, c.mate, pv1, nodes1, evs1, rem, root);
        } else if shorter_mate(c.score, best_mate, c.mate) {
            // A mate distance is only carried while the window bottom is at
            // most the sentinel, and the child's sentinel score does not
            // improve it, so the bottom stays exactly at the sentinel.
            assert(-c.score == CHECKMATE as int && acur == CHECKMATE as int);
            let pv1 = joined_pv(ch[i].0.text@, c.pv);
            let evs1 = if root {
                evs0.push(Ev::Info { score: -c.score, mate: c.mate, nodes: nodes1, pv: pv1 })
            } else {
                evs0
            };
            lemma_loop_value(t, ch, i + 1, -c.score, beta, c.mate, pv1, nodes1, evs1, rem, root);
        } else {
            lemma_loop_value(
                t,
                ch,
                i + 1,
                acur,
                beta,
                best_mate,
                best_pv,
                nodes1,
                evs0,
                rem,
                root,
            );
        }
    }
}

/// Alpha-beta equivalence law: for any window, the score of the pruned
/// search over a well-formed tree and bounded tables is exactly the
/// full-width negamax value of the same tree, clamped to the window in the
/// fail-hard convention; depth-limit leaves and terminal positions return
/// their raw value.
pub proof fn lemma_alpha_beta(
    t: EvalTables,
    node: Node,
    alpha: int,
    beta: int,
    rem: nat,
    root: bool,
)
    requires
        alpha < beta,
        entries_bounded(t.mg),
        entries_bounded(t.eg),
        wf_to(node, rem),
    ensures
        (rem == 0 || node.children@.len() == 0) ==> spec_search(
            t,
            node,
            alpha,
            beta,
            rem,
            root,
        ).score == spec_negamax(t, node, rem),
        !(rem == 0 || node.children@.len() == 0) ==> spec_search(
            t,
            node,
            alpha,
            beta,
            rem,
            root,
        ).score == clamp_score(spec_negamax(t, node, rem), alpha, beta),
    decreases rem, 1int, 0int,
{
    if rem != 0 && node.children@.len() != 0 {
        lemma_loop_value(
            t,
            node.children@,
            0,
            alpha,
            beta,
            Option::None,
            Seq::empty(),
            0,
            Seq::empty(),
            rem,
            root,
        );
    }
}

/// Over the widest window the machine can express, nothing is ever cut
/// off or clamped: the pruned search's score is the unpruned full-width
/// negamax value itself, at every depth and node of the tree.
pub proof fn lemma_full_window_score(t: EvalTables, node: Node, rem: nat, root: bool)
    requires
        entries_bounded(t.mg),
        entries_bounded(t.eg),
        wf_to(node, rem),
    ensures
        spec_search(
            t,
            node,
            -(i64::MAX as int),
            i64::MAX as int,
            rem,
            root,
        ).score == spec_negamax(t, node, rem),
{
    lemma_alpha_beta(t, node, -(i64::MAX as int), i64::MAX as int, rem, root);
    lemma_negamax_bounded(t, node, rem);
}

/// No forced mate lies within `rem` plies below this node: every position
/// with no legal moves down there is a stalemate, not a checkmate.
pub open spec fn mate_free(n: Node, rem: nat) -> bool
    decreases rem, 1int, 0int,
{
    if rem == 0 {
        true
    } else if n.children@.len() == 0 {
        !n.board.in_check
    } else {
        mate_free_children(n.children@, 0, rem)
    }
}

pub open spec fn mate_free_children(ch: Seq<(Mv, Node)>, i: int, rem: nat) -> bool
    decreases rem, 0int, ch.len() - i,
{
    if i < 0 || i >= ch.len() || rem == 0 {
        true
    } else {
        mate_free(ch[i].1, (rem - 1) as nat) && mate_free_children(ch, i + 1, rem)
    }
}

/// The first index from `i` on whose negated child value attains the
/// maximum over the remaining children: the move a full-width search
/// settles on, ties kept at the earliest move in generator order.
pub open spec fn first_best(t: EvalTables, ch: Seq<(Mv, Node)>, i: int, rem: nat) -> int
    decreases rem, 0int, ch.len() - i,
{
    if i < 0 || i + 1 >= ch.len() || rem == 0 {
        i
    } else if -spec_negamax(t, ch[i].1, (rem - 1) as nat) >= best_from(t, ch, i + 1, rem) {
        i
    } else {
        first_best(t, ch, i + 1, rem)
    }
}

/// The best line of an unpruned full-width negamax over the same tree, to
/// the same depth, over the same generator move order: at each node the
/// first move attaining the maximum negated child value, followed by that
/// child's own full-width line.
pub open spec fn full_pv(t: EvalTables, n: Node, rem: nat) -> Seq<char>
    decreases rem, 1int, 0int,
{
    if rem == 0 || n.children@.len() == 0 {
        Seq::empty()
    } else {
        let j = first_best(t, n.children@, 0, rem);
        joined_pv(n.children@[j].0.text@, full_pv(t, n.children@[j].1, (rem - 1) as nat))
    }
}

proof fn lemma_pv_loop(
    t: EvalTables,
    ch: Seq<(Mv, Node)>,
    i: int,
    acur: int,
    beta: int,
    best_pv: Seq<char>,
    nodes: nat,
    events: Seq<Ev>,
    rem: nat,
    root: bool,
)
    requires
        rem >= 1,
        0 <= i <= ch.len(),
        acur < beta,
        i < ch.len() ==> best_from(t, ch, i, rem) < beta,
        entries_bounded(t.mg),
        entries_bounded(t.eg),
        children_wf_to(ch, i, rem),
        mate_free_children(ch, i, rem),
    ensures
        ({
            let o = ab_loop(
                t,
                ch,
                i,
                acur,
                beta,
                Option::None,
                best_pv,
                nodes,
                events,
                rem,
                root,
            );
            &&& o.mate is None
            &&& o.pv == if i < ch.len() && best_from(t, ch, i, rem) > acur {
                joined_pv(
                    ch[first_best(t, ch, i, rem)].0.text@,
                    full_pv(t, ch[first_best(t, ch, i, rem)].1, (rem - 1) as nat),
                )
            } else {
                best_pv
            }
        }),
    decreases rem, 0int, ch.len() - i,
{
    if i < ch.len() {
        let child = ch[i].1;
        let c = spec_search(t, child, -beta, -acur, (rem - 1) as nat, false);
        let vi = -spec_negamax(t, child, (rem - 1) as nat);
        lemma_alpha_beta(t, child, -beta, -acur, (rem - 1) as nat, false);
        lemma_negamax_bounded(t, child, (rem - 1) as nat);
        assert(vi <= best_from(t, ch, i, rem));
        assert(-c.score >= beta <==> vi >= beta);
        assert(-c.score > acur <==> acur < vi);
        assert(acur < vi < beta ==> -c.score == vi);
        let evs0 = if root {
            events.push(Ev::Curr { number: i, text: ch[i].0.text@ })
        } else {
            events
        };
        let nodes1 = nodes + c.nodes;
        if -c.score > acur {
            // This move improves the window bottom, so its child was
            // searched with its true value strictly inside the window: the
            // child's line is the full-width line.
            lemma_pv_node(t, child, -beta, -acur, (rem - 1) as nat, false);
            let pv1 = joined_pv(ch[i].0.text@, c.pv);
            let evs1 = if root {
                evs0.push(Ev::Info { score: -c.score, mate: c.mate, nodes: nodes1, pv: pv1 })
            } else {
                evs0
            };
            lemma_pv_loop(t, ch, i + 1, -c.score, beta, pv1, nodes1, evs1, rem, root);
        } else {
            lemma_pv_loop(t, ch, i + 1, acur, beta, best_pv, nodes1, evs0, rem, root);
        }
    }
}

/// At a node whose full-width value lies strictly inside the window, the
/// pruned search returns the full-width line, the full-width value, and no
/// mate distance (the tree being mate-free).
proof fn lemma_pv_node(t: EvalTables, node: Node, alpha: int, beta: int, rem: nat, root: bool)
    requires
        alpha < spec_negamax(t, node, rem) < beta,
        entries_bounded(t.mg),
        entries_bounded(t.eg),
        wf_to(node, rem),
        mate_free(node, rem),
    ensures
        ({
            let o = spec_search(t, node, alpha, beta, rem, root);
            &&& o.pv == full_pv(t, node, rem)
            &&& o.score == spec_negamax(t, node, rem)
            &&& o.mate is None
        }),
    decreases rem, 1int, 0int,
{
    lemma_alpha_beta(t, node, alpha, beta, rem, root);
    if rem != 0 && node.children@.len() != 0 {
        lemma_pv_loop(
            t,
            node.children@,
            0,
            alpha,
            beta,
            Seq::empty(),
            0,
            Seq::empty(),
            rem,
            root,
        );
    }
}

/// Full-width equivalence of the best line: over the widest expressible
/// window, on a tree holding no forced mate, the pruned search returns
/// exactly the line, the value, and the absent mate distance of an
/// unpruned full-width negamax over the same tree, to the same depth, in
/// the same generator move order. (With forced mates in the tree the lines
/// can differ: a narrowed child window loses the mate distance of a later,
/// shorter mate, so the shorter-mate preference cannot fire.)
pub proof fn lemma_full_window_line(t: EvalTables, node: Node, rem: nat, root: bool)
    requires
        entries_bounded(t.mg),
        entries_bounded(t.eg),
        wf_to(node, rem),
        mate_free(node, rem),
    ensures
        ({
            let o = spec_search(t, node, -(i64::MAX as int), i64::MAX as int, rem, root);
            &&& o.pv == full_pv(t, node, rem)
            &&& o.score == spec_negamax(t, node, rem)
            &&& o.mate is None
        }),
{
    lemma_negamax_bounded(t, node, rem);
    lemma_pv_node(t, node, -(i64::MAX as int), i64::MAX as int, rem, root);
}

proof fn lemma_space_sep()
    ensures
        " "@ == seq![' '],
{
    reveal_strlit(" ");
    assert(" "@ =~= seq![' ']);
}

/// The checkmate sentinel cannot be confused with a static score: for
/// tables whose entries combine a 16-bit base value with a 16-bit bonus,
/// every evaluation stays strictly below the sentinel's magnitude.
pub proof fn lemma_eval_below_checkmate(t: EvalTables, b: Board)
    requires
        b.wf(),
        entries_bounded(t.mg),
        entries_bounded(t.eg),
    ensures
        -(CHECKMATE as int) < spec_eval(t, b) < CHECKMATE as int,
{
    lemma_eval_sharp(t, b);
}

/// Recursive negamax with alpha-beta pruning.
///
/// At the depth limit the node scores as the static evaluation; with no
/// legal moves it is checkmate or stalemate; otherwise each child is
/// searched with the sign-flipped, swapped window, a beta cutoff is
/// fail-hard, and an improvement of alpha becomes the new best line. At the
/// root (`depth == 0`) a diagnostic record is appended to `log` for every
/// move taken up and for every improvement; deeper calls leave `log`
/// untouched. The returned tuple is the principal variation text, the
/// score from the side to move's perspective, the mate distance in plies
/// (one more than at the child it came from), and the nodes visited.
pub fn search(
    tables: &EvalTables,
    node: &Node,
    alpha: i64,
    beta: i64,
    depth: u8,
    max_depth: u8,
    log: &mut Vec<RootEvent>,
) -> (r: (String, i64, Option<i8>, u64))
    requires
        tables.wf(),
        depth <= max_depth,
        max_depth <= 126,
        wf_to(*node, (max_depth - depth) as nat),
        size_to(*node, (max_depth - depth) as nat) <= u64::MAX,
        i64::MIN < alpha < beta,
    ensures
        ({
            let o = spec_search(
                *tables,
                *node,
                alpha as int,
                beta as int,
                (max_depth - depth) as nat,
                depth == 0,
            );
            &&& r.0@ == o.pv
            &&& r.1 as int == o.score
            &&& mate_view(r.2) == o.mate
            &&& r.3 as nat == o.nodes
            &&& final(log)@.len() == old(log)@.len() + o.events.len()
            &&& views_of(final(log)@) == views_of(old(log)@) + o.events
        }),
    decreases max_depth - depth,
{
    let ghost rem = (max_depth - depth) as nat;
    let ghost target = spec_search(*tables, *node, alpha as int, beta as int, rem, depth == 0);
    if depth == max_depth {
        let sc = eval(tables, &node.board);
        proof {
            assert(views_of(log@) =~= views_of(log@) + target.events);
        }
        return (String::new(), sc, Option::None, 1);
    }
    let n = node.children.len();
    if n == 0 {
        proof {
            assert(views_of(log@) =~= views_of(log@) + target.events);
        }
        if node.board.is_king_checked() {
            return (String::new(), -CHECKMATE, Option::Some(1), 1);
        }
        return (String::new(), 0, Option::None, 1);
    }
    let mut alpha_cur: i64 = alpha;
    let mut nodes: u64 = 0;
    let mut best_mate: Option<i8> = Option::None;
    let mut best_pv: String = String::new();
    let ghost mut emitted: Seq<Ev> = Seq::empty();
    let mut i: usize = 0;
    proof {
        assert(target == ab_loop(
            *tables,
            node.children@,
            0,
            alpha as int,
            beta as int,
            Option::None,
            Seq::empty(),
            0,
            Seq::empty(),
            rem,
            depth == 0,
        ));
    }
    while i < n
        invariant
            tables.wf(),
            depth < max_depth,
            max_depth <= 126,
            rem == (max_depth - depth) as nat,
            wf_to(*node, rem),
            size_to(*node, rem) <= u64::MAX,
            n == node.children@.len(),
            i <= n,
            i64::MIN < alpha_cur < beta,
            best_mate matches Option::Some(m) ==> 1 <= m <= rem,
            nodes + sum_sizes(node.children@, i as int, rem) <= size_to(*node, rem),
            log@.len() == old(log)@.len() + emitted.len(),
            views_of(log@) == views_of(old(log)@) + emitted,
            target == spec_search(
                *tables,
                *node,
                alpha as int,
                beta as int,
                rem,
                depth == 0,
            ),
            target == ab_loop(
                *tables,
                node.children@,
                i as int,
                alpha_cur as int,
                beta as int,
                mate_view(best_mate),
                best_pv@,
                nodes as nat,
                emitted,
                rem,
                depth == 0,
            ),
        decreases n - i,
    {
        let ghost ch = node.children@;
        let ghost state_acur = alpha_cur as int;
        let ghost state_mate = mate_view(best_mate);
        let ghost state_pv = best_pv@;
        let ghost state_nodes = nodes as nat;
        let ghost state_emitted = emitted;
        let mv_text = node.children[i].0.text.clone();
        if depth == 0 {
            let rec = RootEvent::CurrMove { number: i as u64, text: mv_text.clone() };
            proof {
                lemma_views_push(log@, rec);
                emitted = emitted.push(ev_view(rec));
            }
            log.push(rec);
        }
        proof {
            lemma_children_wf_at(ch, 0, i as int, rem);
            assert(sum_sizes(ch, i as int, rem) == size_to(ch[i as int].1, (rem - 1) as nat)
                + sum_sizes(ch, i as int + 1, rem));
        }
        let ghost log_before_child = log@;
        let child_r = search(
            tables,
            &node.children[i].1,
            -beta,
            -alpha_cur,
            depth + 1,
            max_depth,
            log,
        );
        let (cpv, cscore, cmate, cnodes) = child_r;
        let ghost c = spec_search(
            *tables,
            ch[i as int].1,
            -(beta as int),
            -(alpha_cur as int),
            (rem - 1) as nat,
            false,
        );
        proof {
            lemma_search_silent(
                *tables,
                ch[i as int].1,
                -(beta as int),
                -(alpha_cur as int),
                (rem - 1) as nat,
            );
            assert(log@.len() == log_before_child.len());
            assert(views_of(log@) =~= views_of(log_before_child) + Seq::<Ev>::empty());
            assert(views_of(log@) == views_of(log_before_child));
            lemma_search_bounds(
                *tables,
                ch[i as int].1,
                -(beta as int),
                -(alpha_cur as int),
                (rem - 1) as nat,
                false,
            );
        }
        nodes = nodes + cnodes;
        let neg_score = -cscore;
        if neg_score >= beta {
            let joined = mv_text.concat(" ").concat(cpv.as_str());
            proof {
                lemma_space_sep();
                assert(joined@ == joined_pv(ch[i as int].0.text@, c.pv));
            }
            let bumped: Option<i8> = match best_mate {
                Option::None => Option::None,
                Option::Some(m) => Option::Some(m + 1),
            };
            proof {
                assert(target == ab_loop(
                    *tables,
                    ch,
                    i as int,
                    state_acur,
                    beta as int,
                    state_mate,
                    state_pv,
                    state_nodes,
                    state_emitted,
                    rem,
                    depth == 0,
                ));
            }
            return (joined, beta, bumped, nodes);
        }
        if neg_score > alpha_cur {
            alpha_cur = neg_score;
            best_mate = cmate;
            let joined = mv_text.concat(" ").concat(cpv.as_str());
            proof {
                lemma_space_sep();
                assert(joined@ == joined_pv(ch[i as int].0.text@, c.pv));
            }
            best_pv = joined;
            if depth == 0 {
                let rec = RootEvent::Info {
                    score: neg_score,
                    mate_in: cmate,
                    nodes,
                    pv: best_pv.clone(),
                };
                proof {
                    lemma_views_push(log@, rec);
                    emitted = emitted.push(ev_view(rec));
                }
                log.push(rec);
            }
        } else {
            let shorter = match (best_mate, cmate) {
                (Option::Some(bm), Option::Some(m)) => cscore == -CHECKMATE && m < bm,
                _ => false,
            };
            if shorter {
                // The sentinel score ties the current best: take the
                // shorter forced mate as the new best line.
                alpha_cur = neg_score;
                best_mate = cmate;
                let joined = mv_text.concat(" ").concat(cpv.as_str());
                proof {
                    lemma_space_sep();
                    assert(joined@ == joined_pv(ch[i as int].0.text@, c.pv));
                }
                best_pv = joined;
                if depth == 0 {
                    let rec = RootEvent::Info {
                        score: neg_score,
                        mate_in: cmate,
                        nodes,
                        pv: best_pv.clone(),
                    };
                    proof {
                        lemma_views_push(log@, rec);
                        emitted = emitted.push(ev_view(rec));
                    }
                    log.push(rec);
                }
            }
        }
        proof {
            assert(target == ab_loop(
                *tables,
                ch,
                i as int,
                state_acur,
                beta as int,
                state_mate,
                state_pv,
                state_nodes,
                state_emitted,
                rem,
                depth == 0,
            ));
            assert(target == ab_loop(
                *tables,
                ch,
                i as int + 1,
                alpha_cur as int,
                beta as int,
                mate_view(best_mate),
                best_pv@,
                nodes as nat,
                emitted,
                rem,
                depth == 0,
            ));
        }
        i += 1;
    }
    let bumped: Option<i8> = match best_mate {
        Option::None => Option::None,
        Option::Some(m) => Option::Some(m + 1),
    };
    (best_pv, alpha_cur, bumped, nodes)
}

} // verus!
