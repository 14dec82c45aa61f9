//! Rank-based round scoring: finding Waldo earns points by finish order, the
//! supporting cast earns flat bonuses, Odlaw and wrong clicks cost you.

use vstd::prelude::*;

verus! {

pub const MISS_PENALTY: u32 = 25;

pub const ODLAW_PENALTY: u32 = 150;

pub const BONUS_WENDA: u32 = 100;

pub const BONUS_WIZARD: u32 = 75;

/// Just a tail in a bush: hardest to spot.
pub const BONUS_WOOF: u32 = 150;

/// Max distance from a character for a click to count as finding them: 1.2, as the
/// bits of a single-precision number (see `lobby::Ranges`).
pub const WALDO_HIT_RADIUS: u32 = 0x3f99_999a;

pub const MAX_SCORE: u32 = 1000 + BONUS_WENDA + BONUS_WIZARD + BONUS_WOOF;

/// Points for finding Waldo Nth (1-based). 0 means not found.
pub open spec fn rank_value(rank: int) -> int {
    if rank <= 0 {
        0
    } else if rank == 1 {
        1000
    } else if rank == 2 {
        700
    } else if rank == 3 {
        550
    } else if rank == 4 {
        450
    } else if 400 - 25 * (rank - 5) > 250 {
        400 - 25 * (rank - 5)
    } else {
        250
    }
}

/// What `amount` is worth if `earned`.
pub open spec fn worth(earned: bool, amount: u32) -> int {
    if earned {
        amount as int
    } else {
        0
    }
}

/// Net bonus points: the cast finds minus Odlaw.
pub open spec fn bonus_value(wenda: bool, woof: bool, wizard: bool, odlaw: bool) -> int {
    worth(wenda, BONUS_WENDA) + worth(woof, BONUS_WOOF) + worth(wizard, BONUS_WIZARD) - worth(
        odlaw,
        ODLAW_PENALTY,
    )
}

/// A round's score, floored at zero.
pub open spec fn round_value(
    rank: int,
    misses: int,
    wenda: bool,
    woof: bool,
    wizard: bool,
    odlaw: bool,
) -> int {
    let points = rank_value(rank) + bonus_value(wenda, woof, wizard, odlaw) - MISS_PENALTY * misses;
    if points > 0 {
        points
    } else {
        0
    }
}

/// Points for finding Waldo Nth (1-based). 0 means not found.
pub fn rank_points(rank: u32) -> (points: u32)
    ensures
        points == rank_value(rank as int),
{
    match rank {
        0 => 0,
        1 => 1000,
        2 => 700,
        3 => 550,
        4 => 450,
        5 => 400,
        r => {
            let points: i64 = 400 - 25 * (r as i64 - 5);
            if points > 250 {
                points as u32
            } else {
                250
            }
        },
    }
}

/// Net bonus points for the round (cast finds minus Odlaw), may be negative.
pub fn bonus_points(wenda: bool, woof: bool, wizard: bool, odlaw: bool) -> (points: i32)
    ensures
        points == bonus_value(wenda, woof, wizard, odlaw),
{
    let mut points: i32 = 0;
    if wenda {
        points = points + BONUS_WENDA as i32;
    }
    if woof {
        points = points + BONUS_WOOF as i32;
    }
    if wizard {
        points = points + BONUS_WIZARD as i32;
    }
    if odlaw {
        points = points - ODLAW_PENALTY as i32;
    }
    points
}

/// Total round score, floored at zero.
pub fn score_round(
    found_rank: u32,
    misses: u32,
    wenda: bool,
    woof: bool,
    wizard: bool,
    odlaw: bool,
) -> (score: u32)
    ensures
        score == round_value(found_rank as int, misses as int, wenda, woof, wizard, odlaw),
        score <= MAX_SCORE,
{
    assert(0 <= MISS_PENALTY * misses <= 25 * u32::MAX) by (nonlinear_arith)
        requires
            MISS_PENALTY == 25,
    ;
    let points: i64 = rank_points(found_rank) as i64 + bonus_points(
        wenda,
        woof,
        wizard,
        odlaw,
    ) as i64 - MISS_PENALTY as i64 * misses as i64;
    if points > 0 {
        points as u32
    } else {
        0
    }
}

/// Finding Waldo later never pays more, every find pays at least 250, and above that
/// floor each later place pays strictly less.
pub proof fn law_rank_order_pays(earlier: int, later: int)
    requires
        1 <= earlier < later,
    ensures
        250 <= rank_value(later) <= rank_value(earlier) <= 1000,
        rank_value(earlier) > 250 ==> rank_value(later) < rank_value(earlier),
{
}

/// No round is worth more than first place with every bonus, no misses and no Odlaw,
/// which is worth exactly that; and no round is worth less than nothing.
pub proof fn law_score_bounds(
    rank: int,
    misses: int,
    wenda: bool,
    woof: bool,
    wizard: bool,
    odlaw: bool,
)
    requires
        rank >= 0,
        misses >= 0,
    ensures
        0 <= round_value(rank, misses, wenda, woof, wizard, odlaw) <= MAX_SCORE,
        round_value(1, 0, true, true, true, false) == MAX_SCORE,
{
}

/// A score less a penalty, floored at zero.
pub open spec fn docked(score: int, penalty: u32) -> int {
    if score > penalty {
        score - penalty
    } else {
        0
    }
}

/// Another miss costs its penalty as far as the score reaches. Falling for Odlaw likewise.
pub proof fn law_mistakes_cost(
    rank: int,
    misses: int,
    wenda: bool,
    woof: bool,
    wizard: bool,
    odlaw: bool,
)
    requires
        rank >= 0,
        misses >= 0,
    ensures
        ({
            let before = round_value(rank, misses, wenda, woof, wizard, odlaw);
            let after = round_value(rank, misses + 1, wenda, woof, wizard, odlaw);
            after == docked(before, MISS_PENALTY)
        }),
        ({
            let before = round_value(rank, misses, wenda, woof, wizard, false);
            let after = round_value(rank, misses, wenda, woof, wizard, true);
            after == docked(before, ODLAW_PENALTY)
        }),
{
}

/// Every member of the cast counts for itself, whoever else was found: Wenda adds 100
/// points, Woof 150 and the Wizard 75, and Odlaw takes 150. Nobody found, nothing earned.
pub proof fn law_bonuses_are_independent(wenda: bool, woof: bool, wizard: bool, odlaw: bool)
    ensures
        bonus_value(true, woof, wizard, odlaw) - bonus_value(false, woof, wizard, odlaw) == 100,
        bonus_value(wenda, true, wizard, odlaw) - bonus_value(wenda, false, wizard, odlaw) == 150,
        bonus_value(wenda, woof, true, odlaw) - bonus_value(wenda, woof, false, odlaw) == 75,
        bonus_value(wenda, woof, wizard, true) - bonus_value(wenda, woof, wizard, false) == -150,
        bonus_value(false, false, false, false) == 0,
{
}

/// The first to find Waldo earns 1000 points, the next ones 700, 550, 450 and 400. From
/// there on each place pays 25 less than the one before it, but never under 250. Who has
/// not found him earns nothing for it.
pub proof fn law_places_pay(rank: int)
    ensures
        rank <= 0 ==> rank_value(rank) == 0,
        rank_value(1) == 1000,
        rank_value(2) == 700,
        rank_value(3) == 550,
        rank_value(4) == 450,
        rank_value(5) == 400,
        5 <= rank <= 10 ==> rank_value(rank + 1) == rank_value(rank) - 25,
        rank >= 11 ==> rank_value(rank) == 250,
{
}

/// A round is worth what its place and its cast are worth together, less 25 points per
/// miss, as long as that is above nothing.
pub proof fn law_scores_add_up(
    rank: int,
    misses: int,
    wenda: bool,
    woof: bool,
    wizard: bool,
    odlaw: bool,
)
    ensures
        ({
            let score = round_value(rank, misses, wenda, woof, wizard, odlaw);
            let earned = rank_value(rank) + bonus_value(wenda, woof, wizard, odlaw);
            &&& score >= 0
            &&& 25 * misses <= earned ==> score + 25 * misses == earned
            &&& 25 * misses >= earned ==> score == 0
        }),
{
}

/// Someone who has clicked on nothing has scored nothing.
pub proof fn law_doing_nothing_scores_nothing()
    ensures
        round_value(0, 0, false, false, false, false) == 0,
{
}

} // verus!
