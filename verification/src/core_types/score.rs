//! Score and Value types for the engine.

use vstd::prelude::*;

verus! {

/// Evaluation values (centipawns).
pub type Value = i32;

/// Known evaluation constants.
pub const VALUE_ZERO: Value = 0;

/// A drawn position.
pub const VALUE_DRAW: Value = 0;

/// Threshold above which a position is considered winning without a proven mate.
pub const VALUE_KNOWN_WIN: Value = 10000;

/// A mate at the root; mates are stored as `VALUE_MATE - ply`.
pub const VALUE_MATE: Value = 32000;

/// Search window bound, one above [`VALUE_MATE`].
pub const VALUE_INFINITE: Value = 32001;

/// "No score recorded" sentinel.
pub const VALUE_NONE: Value = 32002;

/// Lowest score still recognised as a mate for the side to move.
pub const VALUE_MATE_IN_MAX_PLY: Value = 31744;

/// Mirror of [`VALUE_MATE_IN_MAX_PLY`] for being mated.
pub const VALUE_MATED_IN_MAX_PLY: Value = -31744;

/// Material values for each piece type.
pub const PAWN_VALUE_MG: Value = 100;
pub const KNIGHT_VALUE_MG: Value = 320;
pub const BISHOP_VALUE_MG: Value = 330;
pub const ROOK_VALUE_MG: Value = 500;
pub const QUEEN_VALUE_MG: Value = 900;
pub const EAGLE_VALUE_MG: Value = 700;
pub const HAWK_VALUE_MG: Value = 550;
pub const PAWN_VALUE_EG: Value = 100;
pub const KNIGHT_VALUE_EG: Value = 320;
pub const BISHOP_VALUE_EG: Value = 330;
pub const ROOK_VALUE_EG: Value = 500;
pub const QUEEN_VALUE_EG: Value = 900;
pub const EAGLE_VALUE_EG: Value = 700;
pub const HAWK_VALUE_EG: Value = 550;

/// Endgame material of piece type index `i` (0 = none .. 8 = hawk, 9 = all).
pub open spec fn value_eg_of(i: int) -> int {
    if i == 1 {
        100
    } else if i == 2 {
        320
    } else if i == 3 {
        330
    } else if i == 4 {
        500
    } else if i == 5 {
        900
    } else if i == 7 {
        700
    } else if i == 8 {
        550
    } else {
        0
    }
}

/// Endgame material of piece type index `i`; kings, "none" and "all" count 0.
pub fn piece_value_eg(i: usize) -> (r: Value)
    ensures
        r == value_eg_of(i as int),
{
    if i == 1 {
        PAWN_VALUE_EG
    } else if i == 2 {
        KNIGHT_VALUE_EG
    } else if i == 3 {
        BISHOP_VALUE_EG
    } else if i == 4 {
        ROOK_VALUE_EG
    } else if i == 5 {
        QUEEN_VALUE_EG
    } else if i == 7 {
        EAGLE_VALUE_EG
    } else if i == 8 {
        HAWK_VALUE_EG
    } else {
        0
    }
}

/// Middlegame material of piece type index `i`: the same values as the
/// endgame ones.
pub fn piece_value_mg(i: usize) -> (r: Value)
    ensures
        r == value_eg_of(i as int),
{
    piece_value_eg(i)
}

/// A score combines middlegame and endgame values.
#[derive(Copy, Clone, PartialEq, Eq, Structural, Default, Debug)]
pub struct Score {
    /// Middlegame component, in centipawns.
    pub mg: Value,
    /// Endgame component, in centipawns.
    pub eg: Value,
}

impl Score {
    /// Pair a middlegame and an endgame value into one score.
    pub fn new(mg: Value, eg: Value) -> (r: Self)
        ensures
            r.mg == mg,
            r.eg == eg,
    {
        Score { mg, eg }
    }

    /// The additive identity.
    pub fn zero() -> (r: Self)
        ensures
            r.mg == 0,
            r.eg == 0,
    {
        Score { mg: 0, eg: 0 }
    }
}

impl std::ops::Add for Score {
    type Output = Score;

    fn add(self, rhs: Score) -> (r: Score) {
        Score::new(self.mg + rhs.mg, self.eg + rhs.eg)
    }
}

impl vstd::std_specs::ops::AddSpecImpl for Score {
    open spec fn obeys_add_spec() -> bool {
        true
    }

    open spec fn add_req(self, rhs: Score) -> bool {
        i32::MIN <= self.mg + rhs.mg <= i32::MAX && i32::MIN <= self.eg + rhs.eg <= i32::MAX
    }

    open spec fn add_spec(self, rhs: Score) -> Score {
        Score { mg: (self.mg + rhs.mg) as i32, eg: (self.eg + rhs.eg) as i32 }
    }
}

impl std::ops::Sub for Score {
    type Output = Score;

    fn sub(self, rhs: Score) -> (r: Score) {
        Score::new(self.mg - rhs.mg, self.eg - rhs.eg)
    }
}

impl vstd::std_specs::ops::SubSpecImpl for Score {
    open spec fn obeys_sub_spec() -> bool {
        true
    }

    open spec fn sub_req(self, rhs: Score) -> bool {
        i32::MIN <= self.mg - rhs.mg <= i32::MAX && i32::MIN <= self.eg - rhs.eg <= i32::MAX
    }

    open spec fn sub_spec(self, rhs: Score) -> Score {
        Score { mg: (self.mg - rhs.mg) as i32, eg: (self.eg - rhs.eg) as i32 }
    }
}

impl std::ops::Neg for Score {
    type Output = Score;

    fn neg(self) -> (r: Score) {
        Score::new(-self.mg, -self.eg)
    }
}

impl vstd::std_specs::ops::NegSpecImpl for Score {
    open spec fn obeys_neg_spec() -> bool {
        true
    }

    open spec fn neg_req(self) -> bool {
        self.mg != i32::MIN && self.eg != i32::MIN
    }

    open spec fn neg_spec(self) -> Score {
        Score { mg: (-self.mg) as i32, eg: (-self.eg) as i32 }
    }
}

impl std::ops::Mul<i32> for Score {
    type Output = Score;

    fn mul(self, rhs: i32) -> (r: Score) {
        Score::new(self.mg * rhs, self.eg * rhs)
    }
}

impl vstd::std_specs::ops::MulSpecImpl<i32> for Score {
    open spec fn obeys_mul_spec() -> bool {
        true
    }

    open spec fn mul_req(self, rhs: i32) -> bool {
        i32::MIN <= self.mg * rhs <= i32::MAX && i32::MIN <= self.eg * rhs <= i32::MAX
    }

    open spec fn mul_spec(self, rhs: i32) -> Score {
        Score { mg: (self.mg * rhs) as i32, eg: (self.eg * rhs) as i32 }
    }
}

} // verus!
