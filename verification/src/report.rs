//! Score/mate bookkeeping for the root diagnostics: the conversion from a
//! mate distance in plies, as the search propagates it, to the signed
//! full-move count a progress line reports.

use vstd::prelude::*;

use crate::search::CHECKMATE;

verus! {

/// The sign a mate report carries: positive when the raw score is exactly
/// the checkmate sentinel, negative at its negation, zero otherwise. For
/// scores bounded by the sentinel this is the truncated quotient
/// `score / CHECKMATE`.
pub open spec fn spec_mate_sign(score: int) -> int {
    if score == CHECKMATE {
        1
    } else if score == -(CHECKMATE as int) {
        -1
    } else {
        0
    }
}

/// Mate distance in signed full moves, as reported at the root: the ply
/// count rounded up to moves, with the sign saying which side mates.
pub fn mate_in_moves(score: i64, mate_plies: i8) -> (r: i8)
    requires
        0 <= mate_plies,
        -CHECKMATE <= score <= CHECKMATE,
    ensures
        r == (mate_plies + 1) / 2 * spec_mate_sign(score as int),
{
    let sign: i8 = if score == CHECKMATE {
        1
    } else if score == -CHECKMATE {
        -1
    } else {
        0
    };
    let half: i8 = ((mate_plies as u8 + 1) / 2) as i8;
    proof {
        assert(half == (mate_plies + 1) / 2);
    }
    half * sign
}

} // verus!
