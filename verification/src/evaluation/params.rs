//! The parameters of the evaluation.
//!
//! Everything that a term weighs is a parameter. A tuner sees the parameters as
//! one flat list of numbers, each with a name and bounds.
use vstd::prelude::*;
use crate::evaluation::tables;
use crate::evaluation::Score;
use crate::text;
use crate::types::Role;

verus! {

/// Pawn, knight, bishop, rook and queen, by the code of their kind.
pub const PIECE_VALUES: [i32; 7] = [0, 100, 320, 330, 500, 900, 0];

/// How many parameters there are.
pub const PARAM_COUNT: usize = 864;

/// The largest size of a parameter for which no term of the evaluation
/// overflows.
pub const PARAM_LIMIT: i32 = 4096;

/// The name and the bounds of one parameter.
#[derive(Debug)]
pub struct ParamDef {
    pub name: String,
    pub min: i32,
    pub max: i32,
}

/// What each square is worth: by the code of the kind of piece, by midgame and
/// endgame, and by square from White's side.
#[derive(Debug, Clone, Copy)]
pub struct PstTables {
    pub tables: [[[i32; 64]; 2]; 7],
}

impl Default for PstTables {
    fn default() -> (r: Self)
        ensures
            forall|k: int, f: int, s: int|
                0 <= k < 7 && 0 <= f < 2 && 0 <= s < 64 ==> #[trigger] r.tables@[k]@[f]@[s] == 0,
    {
        PstTables { tables: [[[0i32; 64]; 2]; 7] }
    }
}

/// The parameters of the evaluation.
#[derive(Debug, Clone, Copy)]
pub struct EvalParams {
    /// Pawn, knight, bishop, rook and queen.
    pub piece_values: [i32; 5],
    /// Having both bishops; a pair of values is for the midgame and the endgame.
    pub bishop_pair: [i32; 2],
    /// What each square is worth to each kind of piece.
    pub pst: PstTables,
    /// What an attacked square is worth to each kind of piece.
    pub mobility: [[i32; 2]; 7],
    pub doubled: [i32; 2],
    pub isolated: [i32; 2],
    pub backward: [i32; 2],
    pub connected: [i32; 2],
    /// Each group of pawns beyond the first.
    pub island: [i32; 2],
    pub protected_pawn: [i32; 2],
    /// A passed pawn on the second to the seventh rank.
    pub passed_bonus: [[i32; 2]; 6],
    pub protected_passed: [i32; 2],
    pub connected_passed: [i32; 2],
    /// The most that the pawns in front of a king are worth.
    pub shield_cap: i32,
    /// A pawn one, two and three ranks in front of a king.
    pub shield_weight: [i32; 3],
    /// An attack of each kind of piece next to a king.
    pub attack_weight: [i32; 7],
    pub king_open_file: i32,
    pub king_fully_open_file: i32,
    pub king_open_files_cap: i32,
    pub king_hole: i32,
    pub king_holes_cap: i32,
    pub king_center_bonus: i32,
    pub king_passer_dist_penalty: i32,
    pub knight_outpost: [i32; 2],
    pub bishop_outpost: [i32; 2],
    pub bad_bishop_pawn: [i32; 2],
    pub bad_bishop_cap: i32,
    /// The phase from which on undeveloped pieces count.
    pub development_phase: i32,
    pub undeveloped: [i32; 2],
    pub rooks_connected: [i32; 2],
    pub rook_behind_passed: [i32; 2],
    pub queen_behind_passed: [i32; 2],
    pub queen_under_pawn_attack: [i32; 2],
    pub minor_coordination: [i32; 2],
    pub weak_minor: i32,
    pub pawn_attack_bonus: i32,
    pub rook_open: [i32; 2],
    pub rook_semi_open: [i32; 2],
    pub rook_seventh: [i32; 2],
    pub space_mg: i32,
    pub space_eg: i32,
    pub phase_queen: i32,
    pub phase_rook: i32,
    pub phase_bishop: i32,
    pub phase_knight: i32,
    pub phase_max: i32,
}

/// The parameters that stand at the front of the list, by their place.
pub open spec fn scalar(p: EvalParams, k: int) -> i32 {
    if k == 0 {
        p.piece_values@[0]
    } else if k == 1 {
        p.piece_values@[1]
    } else if k == 2 {
        p.piece_values@[2]
    } else if k == 3 {
        p.piece_values@[3]
    } else if k == 4 {
        p.piece_values@[4]
    } else if k == 5 {
        p.bishop_pair@[0]
    } else if k == 6 {
        p.bishop_pair@[1]
    } else if k == 7 {
        p.doubled@[0]
    } else if k == 8 {
        p.doubled@[1]
    } else if k == 9 {
        p.isolated@[0]
    } else if k == 10 {
        p.isolated@[1]
    } else if k == 11 {
        p.backward@[0]
    } else if k == 12 {
        p.backward@[1]
    } else if k == 13 {
        p.connected@[0]
    } else if k == 14 {
        p.connected@[1]
    } else if k == 15 {
        p.island@[0]
    } else if k == 16 {
        p.island@[1]
    } else if k == 17 {
        p.protected_pawn@[0]
    } else if k == 18 {
        p.protected_pawn@[1]
    } else if k == 19 {
        p.protected_passed@[0]
    } else if k == 20 {
        p.protected_passed@[1]
    } else if k == 21 {
        p.connected_passed@[0]
    } else if k == 22 {
        p.connected_passed@[1]
    } else if k == 23 {
        p.shield_cap
    } else if k == 24 {
        p.shield_weight@[0]
    } else if k == 25 {
        p.shield_weight@[1]
    } else if k == 26 {
        p.shield_weight@[2]
    } else if k == 27 {
        p.attack_weight@[1]
    } else if k == 28 {
        p.attack_weight@[2]
    } else if k == 29 {
        p.attack_weight@[3]
    } else if k == 30 {
        p.attack_weight@[4]
    } else if k == 31 {
        p.attack_weight@[5]
    } else if k == 32 {
        p.king_open_file
    } else if k == 33 {
        p.king_fully_open_file
    } else if k == 34 {
        p.king_open_files_cap
    } else if k == 35 {
        p.king_hole
    } else if k == 36 {
        p.king_holes_cap
    } else if k == 37 {
        p.king_center_bonus
    } else if k == 38 {
        p.king_passer_dist_penalty
    } else if k == 39 {
        p.knight_outpost@[0]
    } else if k == 40 {
        p.knight_outpost@[1]
    } else if k == 41 {
        p.bishop_outpost@[0]
    } else if k == 42 {
        p.bishop_outpost@[1]
    } else if k == 43 {
        p.bad_bishop_pawn@[0]
    } else if k == 44 {
        p.bad_bishop_pawn@[1]
    } else if k == 45 {
        p.bad_bishop_cap
    } else if k == 46 {
        p.development_phase
    } else if k == 47 {
        p.undeveloped@[0]
    } else if k == 48 {
        p.undeveloped@[1]
    } else if k == 49 {
        p.rooks_connected@[0]
    } else if k == 50 {
        p.rooks_connected@[1]
    } else if k == 51 {
        p.rook_behind_passed@[0]
    } else if k == 52 {
        p.rook_behind_passed@[1]
    } else if k == 53 {
        p.queen_behind_passed@[0]
    } else if k == 54 {
        p.queen_behind_passed@[1]
    } else if k == 55 {
        p.queen_under_pawn_attack@[0]
    } else if k == 56 {
        p.queen_under_pawn_attack@[1]
    } else if k == 57 {
        p.minor_coordination@[0]
    } else if k == 58 {
        p.minor_coordination@[1]
    } else if k == 59 {
        p.weak_minor
    } else if k == 60 {
        p.pawn_attack_bonus
    } else if k == 61 {
        p.rook_open@[0]
    } else if k == 62 {
        p.rook_open@[1]
    } else if k == 63 {
        p.rook_semi_open@[0]
    } else if k == 64 {
        p.rook_semi_open@[1]
    } else if k == 65 {
        p.rook_seventh@[0]
    } else if k == 66 {
        p.rook_seventh@[1]
    } else if k == 67 {
        p.space_mg
    } else if k == 68 {
        p.space_eg
    } else if k == 69 {
        p.phase_queen
    } else if k == 70 {
        p.phase_rook
    } else if k == 71 {
        p.phase_bishop
    } else if k == 72 {
        p.phase_knight
    } else {
        p.phase_max
    }
}

/// The parameters in their order: material, pawns, kings, activity, threats,
/// space and phase, then passed pawns by rank, mobility by kind and the squares
/// by kind.
pub open spec fn entry(p: EvalParams, k: int) -> i32 {
    if k < 74 {
        scalar(p, k)
    } else if k < 86 {
        p.passed_bonus@[(k - 74) / 2]@[(k - 74) % 2]
    } else if k < 96 {
        p.mobility@[2 + (k - 86) / 2]@[(k - 86) % 2]
    } else {
        p.pst.tables@[1 + (k - 96) / 128]@[((k - 96) / 64) % 2]@[(k - 96) % 64]
    }
}

/// All parameters.
pub open spec fn flat(p: EvalParams) -> Seq<i32> {
    Seq::new(864, |k: int| entry(p, k))
}

/// The name of a parameter at the front of the list.
pub open spec fn scalar_name(k: int) -> Seq<char> {
    if k == 0 {
        "material.pawn"@
    } else if k == 1 {
        "material.knight"@
    } else if k == 2 {
        "material.bishop"@
    } else if k == 3 {
        "material.rook"@
    } else if k == 4 {
        "material.queen"@
    } else if k == 5 {
        "bishop_pair.mg"@
    } else if k == 6 {
        "bishop_pair.eg"@
    } else if k == 7 {
        "pawns.doubled.mg"@
    } else if k == 8 {
        "pawns.doubled.eg"@
    } else if k == 9 {
        "pawns.isolated.mg"@
    } else if k == 10 {
        "pawns.isolated.eg"@
    } else if k == 11 {
        "pawns.backward.mg"@
    } else if k == 12 {
        "pawns.backward.eg"@
    } else if k == 13 {
        "pawns.connected.mg"@
    } else if k == 14 {
        "pawns.connected.eg"@
    } else if k == 15 {
        "pawns.island.mg"@
    } else if k == 16 {
        "pawns.island.eg"@
    } else if k == 17 {
        "pawns.protected_pawn.mg"@
    } else if k == 18 {
        "pawns.protected_pawn.eg"@
    } else if k == 19 {
        "passed.protected.mg"@
    } else if k == 20 {
        "passed.protected.eg"@
    } else if k == 21 {
        "passed.connected.mg"@
    } else if k == 22 {
        "passed.connected.eg"@
    } else if k == 23 {
        "king.shield_cap"@
    } else if k == 24 {
        "king.shield_rank1"@
    } else if k == 25 {
        "king.shield_rank2"@
    } else if k == 26 {
        "king.shield_rank3"@
    } else if k == 27 {
        "king.attack_pawn"@
    } else if k == 28 {
        "king.attack_knight"@
    } else if k == 29 {
        "king.attack_bishop"@
    } else if k == 30 {
        "king.attack_rook"@
    } else if k == 31 {
        "king.attack_queen"@
    } else if k == 32 {
        "king.open_file"@
    } else if k == 33 {
        "king.fully_open_file"@
    } else if k == 34 {
        "king.open_files_cap"@
    } else if k == 35 {
        "king.hole"@
    } else if k == 36 {
        "king.holes_cap"@
    } else if k == 37 {
        "king.center_bonus"@
    } else if k == 38 {
        "king.passer_dist_penalty"@
    } else if k == 39 {
        "activity.knight_outpost.mg"@
    } else if k == 40 {
        "activity.knight_outpost.eg"@
    } else if k == 41 {
        "activity.bishop_outpost.mg"@
    } else if k == 42 {
        "activity.bishop_outpost.eg"@
    } else if k == 43 {
        "activity.bad_bishop.mg"@
    } else if k == 44 {
        "activity.bad_bishop.eg"@
    } else if k == 45 {
        "activity.bad_bishop_cap"@
    } else if k == 46 {
        "activity.development_phase"@
    } else if k == 47 {
        "activity.undeveloped.mg"@
    } else if k == 48 {
        "activity.undeveloped.eg"@
    } else if k == 49 {
        "activity.rooks_connected.mg"@
    } else if k == 50 {
        "activity.rooks_connected.eg"@
    } else if k == 51 {
        "activity.rook_behind_passed.mg"@
    } else if k == 52 {
        "activity.rook_behind_passed.eg"@
    } else if k == 53 {
        "activity.queen_behind_passed.mg"@
    } else if k == 54 {
        "activity.queen_behind_passed.eg"@
    } else if k == 55 {
        "activity.queen_under_pawn_attack.mg"@
    } else if k == 56 {
        "activity.queen_under_pawn_attack.eg"@
    } else if k == 57 {
        "activity.minor_coordination.mg"@
    } else if k == 58 {
        "activity.minor_coordination.eg"@
    } else if k == 59 {
        "threats.weak_minor"@
    } else if k == 60 {
        "threats.pawn_attack_bonus"@
    } else if k == 61 {
        "threats.rook_open.mg"@
    } else if k == 62 {
        "threats.rook_open.eg"@
    } else if k == 63 {
        "threats.rook_semi_open.mg"@
    } else if k == 64 {
        "threats.rook_semi_open.eg"@
    } else if k == 65 {
        "threats.rook_seventh.mg"@
    } else if k == 66 {
        "threats.rook_seventh.eg"@
    } else if k == 67 {
        "space.mg"@
    } else if k == 68 {
        "space.eg"@
    } else if k == 69 {
        "phase.queen"@
    } else if k == 70 {
        "phase.rook"@
    } else if k == 71 {
        "phase.bishop"@
    } else if k == 72 {
        "phase.knight"@
    } else {
        "phase.max"@
    }
}

/// The bounds of a parameter at the front of the list.
pub open spec fn scalar_bounds(k: int) -> (int, int) {
    if k == 0 {
        (30, 200)
    } else if k == 1 {
        (120, 600)
    } else if k == 2 {
        (120, 600)
    } else if k == 3 {
        (250, 900)
    } else if k == 4 {
        (600, 1500)
    } else if k == 5 {
        (0, 200)
    } else if k == 6 {
        (0, 250)
    } else if k == 7 {
        (-150, 0)
    } else if k == 8 {
        (-250, 0)
    } else if k == 9 {
        (-150, 0)
    } else if k == 10 {
        (-250, 0)
    } else if k == 11 {
        (-120, 0)
    } else if k == 12 {
        (-200, 0)
    } else if k == 13 {
        (0, 150)
    } else if k == 14 {
        (0, 250)
    } else if k == 15 {
        (-120, 0)
    } else if k == 16 {
        (-200, 0)
    } else if k == 17 {
        (0, 60)
    } else if k == 18 {
        (0, 80)
    } else if k == 19 {
        (0, 100)
    } else if k == 20 {
        (0, 200)
    } else if k == 21 {
        (0, 120)
    } else if k == 22 {
        (0, 250)
    } else if k == 23 {
        (0, 250)
    } else if k == 24 {
        (0, 30)
    } else if k == 25 {
        (0, 30)
    } else if k == 26 {
        (0, 30)
    } else if k == 27 {
        (0, 30)
    } else if k == 28 {
        (0, 30)
    } else if k == 29 {
        (0, 30)
    } else if k == 30 {
        (0, 40)
    } else if k == 31 {
        (0, 50)
    } else if k == 32 {
        (0, 60)
    } else if k == 33 {
        (0, 40)
    } else if k == 34 {
        (0, 200)
    } else if k == 35 {
        (0, 40)
    } else if k == 36 {
        (0, 200)
    } else if k == 37 {
        (0, 30)
    } else if k == 38 {
        (0, 40)
    } else if k == 39 {
        (-150, 150)
    } else if k == 40 {
        (-150, 200)
    } else if k == 41 {
        (-100, 120)
    } else if k == 42 {
        (-100, 150)
    } else if k == 43 {
        (-120, 0)
    } else if k == 44 {
        (-160, 0)
    } else if k == 45 {
        (1, 8)
    } else if k == 46 {
        (0, 24)
    } else if k == 47 {
        (-120, 0)
    } else if k == 48 {
        (-100, 0)
    } else if k == 49 {
        (0, 120)
    } else if k == 50 {
        (0, 180)
    } else if k == 51 {
        (0, 150)
    } else if k == 52 {
        (0, 250)
    } else if k == 53 {
        (0, 120)
    } else if k == 54 {
        (0, 200)
    } else if k == 55 {
        (-150, 0)
    } else if k == 56 {
        (-120, 0)
    } else if k == 57 {
        (0, 60)
    } else if k == 58 {
        (0, 80)
    } else if k == 59 {
        (-200, 0)
    } else if k == 60 {
        (0, 120)
    } else if k == 61 {
        (0, 120)
    } else if k == 62 {
        (0, 150)
    } else if k == 63 {
        (0, 80)
    } else if k == 64 {
        (0, 100)
    } else if k == 65 {
        (0, 120)
    } else if k == 66 {
        (0, 250)
    } else if k == 67 {
        (0, 60)
    } else if k == 68 {
        (0, 60)
    } else if k == 69 {
        (0, 8)
    } else if k == 70 {
        (0, 6)
    } else if k == 71 {
        (0, 4)
    } else if k == 72 {
        (0, 4)
    } else {
        (16, 32)
    }
}

/// The name of a kind of piece.
pub open spec fn role_name(k: int) -> Seq<char> {
    if k == 1 {
        "pawn"@
    } else if k == 2 {
        "knight"@
    } else if k == 3 {
        "bishop"@
    } else if k == 4 {
        "rook"@
    } else if k == 5 {
        "queen"@
    } else {
        "king"@
    }
}

/// The name of a phase.
pub open spec fn phase_name(f: int) -> Seq<char> {
    if f == 0 {
        "mg"@
    } else {
        "eg"@
    }
}

/// The name of a parameter.
pub open spec fn param_name(k: int) -> Seq<char> {
    if k < 74 {
        scalar_name(k)
    } else if k < 86 {
        "passed.rank"@ + text::decimal(2 + (k - 74) / 2) + "_"@ + phase_name((k - 74) % 2)
    } else if k < 96 {
        "mobility."@ + role_name(2 + (k - 86) / 2) + "."@ + phase_name((k - 86) % 2)
    } else {
        "pst."@ + role_name(1 + (k - 96) / 128) + "."@ + phase_name(((k - 96) / 64) % 2) + "."@
            + text::decimal((k - 96) % 64)
    }
}

/// The bounds of a parameter.
pub open spec fn param_bounds(k: int) -> (int, int) {
    if k < 74 {
        scalar_bounds(k)
    } else if k < 86 {
        if (k - 74) % 2 == 0 {
            (0, 500)
        } else {
            (0, 1400)
        }
    } else if k < 90 {
        (0, 20)
    } else if k < 92 {
        (0, 15)
    } else if k < 94 {
        (0, 12)
    } else if k < 96 {
        (0, 10)
    } else if k < 224 {
        (-300, 500)
    } else if k < 736 {
        (-400, 400)
    } else {
        (-500, 500)
    }
}

/// `x` is at most `m` in size.
pub open spec fn at_most(x: i32, m: int) -> bool {
    -m <= x <= m
}

/// Both values of a pair are at most `m` in size.
pub open spec fn pair_at_most(x: [i32; 2], m: int) -> bool {
    at_most(x@[0], m) && at_most(x@[1], m)
}

/// No parameter is larger than `m`, and the phase does not run backwards.
pub open spec fn limited(p: EvalParams, m: int) -> bool {
    &&& forall|i: int| 0 <= i < 5 ==> at_most(#[trigger] p.piece_values@[i], m)
    &&& forall|k: int, f: int, s: int|
        0 <= k < 7 && 0 <= f < 2 && 0 <= s < 64 ==> at_most(
            #[trigger] p.pst.tables@[k]@[f]@[s],
            m,
        )
    &&& forall|k: int| 0 <= k < 7 ==> pair_at_most(#[trigger] p.mobility@[k], m)
    &&& forall|k: int| 0 <= k < 6 ==> pair_at_most(#[trigger] p.passed_bonus@[k], m)
    &&& forall|k: int| 0 <= k < 3 ==> at_most(#[trigger] p.shield_weight@[k], m)
    &&& forall|k: int| 0 <= k < 7 ==> at_most(#[trigger] p.attack_weight@[k], m)
    &&& pair_at_most(p.bishop_pair, m)
    &&& pair_at_most(p.doubled, m)
    &&& pair_at_most(p.isolated, m)
    &&& pair_at_most(p.backward, m)
    &&& pair_at_most(p.connected, m)
    &&& pair_at_most(p.island, m)
    &&& pair_at_most(p.protected_pawn, m)
    &&& pair_at_most(p.protected_passed, m)
    &&& pair_at_most(p.connected_passed, m)
    &&& at_most(p.shield_cap, m)
    &&& at_most(p.king_open_file, m)
    &&& at_most(p.king_fully_open_file, m)
    &&& at_most(p.king_open_files_cap, m)
    &&& at_most(p.king_hole, m)
    &&& at_most(p.king_holes_cap, m)
    &&& at_most(p.king_center_bonus, m)
    &&& at_most(p.king_passer_dist_penalty, m)
    &&& pair_at_most(p.knight_outpost, m)
    &&& pair_at_most(p.bishop_outpost, m)
    &&& pair_at_most(p.bad_bishop_pawn, m)
    &&& at_most(p.bad_bishop_cap, m)
    &&& at_most(p.development_phase, m)
    &&& pair_at_most(p.undeveloped, m)
    &&& pair_at_most(p.rooks_connected, m)
    &&& pair_at_most(p.rook_behind_passed, m)
    &&& pair_at_most(p.queen_behind_passed, m)
    &&& pair_at_most(p.queen_under_pawn_attack, m)
    &&& pair_at_most(p.minor_coordination, m)
    &&& at_most(p.weak_minor, m)
    &&& at_most(p.pawn_attack_bonus, m)
    &&& pair_at_most(p.rook_open, m)
    &&& pair_at_most(p.rook_semi_open, m)
    &&& pair_at_most(p.rook_seventh, m)
    &&& at_most(p.space_mg, m)
    &&& at_most(p.space_eg, m)
    &&& at_most(p.phase_queen, m)
    &&& at_most(p.phase_rook, m)
    &&& at_most(p.phase_bishop, m)
    &&& at_most(p.phase_knight, m)
    &&& at_most(p.phase_max, m)
    &&& 0 <= p.phase_max
}

/// The parameters that the engine comes with.
pub open spec fn is_baseline(p: EvalParams) -> bool {
    &&& p.piece_values@[0] == 100
    &&& p.piece_values@[1] == 320
    &&& p.piece_values@[2] == 330
    &&& p.piece_values@[3] == 500
    &&& p.piece_values@[4] == 900
    &&& p.bishop_pair@[0] == 40
    &&& p.bishop_pair@[1] == 60
    &&& forall|k: int, f: int, s: int|
        0 <= k < 7 && 0 <= f < 2 && 0 <= s < 64 ==> #[trigger] p.pst.tables@[k]@[f]@[s]
            == baseline_square(k, f, s)
    &&& forall|k: int, f: int|
        0 <= k < 7 && 0 <= f < 2 ==> #[trigger] p.mobility@[k]@[f] == baseline_mobility(k, f)
    &&& p.doubled@[0] == -20
    &&& p.doubled@[1] == -40
    &&& p.isolated@[0] == -20
    &&& p.isolated@[1] == -30
    &&& p.backward@[0] == -10
    &&& p.backward@[1] == -15
    &&& p.connected@[0] == 15
    &&& p.connected@[1] == 30
    &&& p.island@[0] == -10
    &&& p.island@[1] == -15
    &&& p.protected_pawn@[0] == 6
    &&& p.protected_pawn@[1] == 6
    &&& forall|k: int, f: int|
        0 <= k < 6 && 0 <= f < 2 ==> #[trigger] p.passed_bonus@[k]@[f] == baseline_passed(k, f)
    &&& p.protected_passed@[0] == 10
    &&& p.protected_passed@[1] == 30
    &&& p.connected_passed@[0] == 15
    &&& p.connected_passed@[1] == 30
    &&& p.shield_cap == 40
    &&& p.shield_weight@[0] == 4
    &&& p.shield_weight@[1] == 3
    &&& p.shield_weight@[2] == 2
    &&& p.attack_weight@[0] == 0
    &&& p.attack_weight@[1] == 2
    &&& p.attack_weight@[2] == 3
    &&& p.attack_weight@[3] == 3
    &&& p.attack_weight@[4] == 4
    &&& p.attack_weight@[5] == 5
    &&& p.attack_weight@[6] == 0
    &&& p.king_open_file == 8
    &&& p.king_fully_open_file == 5
    &&& p.king_open_files_cap == 30
    &&& p.king_hole == 6
    &&& p.king_holes_cap == 30
    &&& p.king_center_bonus == 3
    &&& p.king_passer_dist_penalty == 4
    &&& p.knight_outpost@[0] == 30
    &&& p.knight_outpost@[1] == 20
    &&& p.bishop_outpost@[0] == 20
    &&& p.bishop_outpost@[1] == 10
    &&& p.bad_bishop_pawn@[0] == -8
    &&& p.bad_bishop_pawn@[1] == -4
    &&& p.bad_bishop_cap == 4
    &&& p.development_phase == 20
    &&& p.undeveloped@[0] == -15
    &&& p.undeveloped@[1] == 0
    &&& p.rooks_connected@[0] == 15
    &&& p.rooks_connected@[1] == 20
    &&& p.rook_behind_passed@[0] == 10
    &&& p.rook_behind_passed@[1] == 30
    &&& p.queen_behind_passed@[0] == 15
    &&& p.queen_behind_passed@[1] == 20
    &&& p.queen_under_pawn_attack@[0] == -20
    &&& p.queen_under_pawn_attack@[1] == -10
    &&& p.minor_coordination@[0] == 5
    &&& p.minor_coordination@[1] == 8
    &&& p.weak_minor == -15
    &&& p.pawn_attack_bonus == 18
    &&& p.rook_open@[0] == 25
    &&& p.rook_open@[1] == 20
    &&& p.rook_semi_open@[0] == 10
    &&& p.rook_semi_open@[1] == 10
    &&& p.rook_seventh@[0] == 20
    &&& p.rook_seventh@[1] == 40
    &&& p.space_mg == 4
    &&& p.space_eg == 2
    &&& p.phase_queen == 4
    &&& p.phase_rook == 2
    &&& p.phase_bishop == 1
    &&& p.phase_knight == 1
    &&& p.phase_max == 24
}

/// What a square is worth to a kind of piece by default.
pub open spec fn baseline_square(k: int, f: int, s: int) -> int {
    if k == 1 {
        if f == 0 {
            tables::PAWN_MG@[s] as int
        } else {
            tables::PAWN_EG@[s] as int
        }
    } else if k == 2 {
        tables::KNIGHT@[s] as int
    } else if k == 3 {
        tables::BISHOP@[s] as int
    } else if k == 4 {
        tables::ROOK@[s] as int
    } else if k == 5 {
        tables::QUEEN@[s] as int
    } else if k == 6 {
        if f == 0 {
            tables::KING_MG@[s] as int
        } else {
            tables::KING_EG@[s] as int
        }
    } else {
        0
    }
}

/// What an attacked square is worth to a kind of piece by default.
pub open spec fn baseline_mobility(k: int, f: int) -> int {
    if k == 2 {
        4
    } else if k == 3 {
        4 + f
    } else if k == 4 {
        2 + f
    } else if k == 5 {
        1 + f
    } else if k == 6 {
        f
    } else {
        0
    }
}

/// What a passed pawn is worth by default, two ranks up the board for `k` = 0.
pub open spec fn baseline_passed(k: int, f: int) -> int {
    if f == 0 {
        if k == 0 {
            0
        } else if k == 1 {
            10
        } else if k == 2 {
            25
        } else if k == 3 {
            50
        } else if k == 4 {
            110
        } else {
            180
        }
    } else {
        if k == 0 {
            10
        } else if k == 1 {
            40
        } else if k == 2 {
            100
        } else if k == 3 {
            250
        } else if k == 4 {
            500
        } else {
            800
        }
    }
}

/// `after` has the parameters of the list `v`, as far as it reaches, and those
/// of `before` beyond.
pub open spec fn taken(before: EvalParams, v: Seq<i32>, after: EvalParams) -> bool {
    forall|k: int|
        0 <= k < 864 ==> #[trigger] entry(after, k) == (if k < v.len() {
            v[k]
        } else {
            entry(before, k)
        })
}

/// The value of a kind of piece; kings are worth nothing.
pub open spec fn value_of(p: EvalParams, role: Role) -> int {
    match role {
        Role::Pawn => p.piece_values@[0] as int,
        Role::Knight => p.piece_values@[1] as int,
        Role::Bishop => p.piece_values@[2] as int,
        Role::Rook => p.piece_values@[3] as int,
        Role::Queen => p.piece_values@[4] as int,
        Role::King => 0,
    }
}

/// The values of the pieces are small enough to be added up.
pub open spec fn priced(p: EvalParams) -> bool {
    forall|i: int| 0 <= i < 5 ==> at_most(#[trigger] p.piece_values@[i], 1000000)
}

/// The values of the pieces.
pub open spec fn prices(p: EvalParams) -> spec_fn(Role) -> int {
    |role: Role| value_of(p, role)
}

/// The values of the pieces that the engine comes with.
pub open spec fn usual_prices() -> spec_fn(Role) -> int {
    |role: Role| PIECE_VALUES@[role.code_spec() as int] as int
}

/// The engine comes with the usual values.
pub proof fn law_baseline_prices(p: EvalParams)
    requires
        is_baseline(p),
    ensures
        prices(p) == usual_prices(),
        priced(p),
{
    assert(prices(p) =~= usual_prices());
}

impl EvalParams {
    /// No parameter is so large that a term of the evaluation overflows.
    pub open spec fn wf(self) -> bool {
        limited(self, 4096) && -64 <= self.bad_bishop_cap && self.phase_max <= 32
    }

    /// The value of a kind of piece; kings are worth nothing.
    pub fn piece_value(&self, role: Role) -> (r: i32)
        ensures
            r == value_of(*self, role),
    {
        match role {
            Role::Pawn => self.piece_values[0],
            Role::Knight => self.piece_values[1],
            Role::Bishop => self.piece_values[2],
            Role::Rook => self.piece_values[3],
            Role::Queen => self.piece_values[4],
            Role::King => 0,
        }
    }

    /// What having both bishops is worth.
    pub fn bishop_pair_score(&self) -> (r: Score)
        ensures
            r == (Score { mg: self.bishop_pair@[0], eg: self.bishop_pair@[1] }),
    {
        Score::new(self.bishop_pair[0], self.bishop_pair[1])
    }

    /// What a square is worth to a kind of piece, from White's side.
    pub fn pst_value(&self, role: Role, phase: usize, idx: usize) -> (r: i32)
        requires
            phase < 2,
            idx < 64,
        ensures
            r == self.pst.tables@[role.code_spec() as int]@[phase as int]@[idx as int],
    {
        self.pst.tables[role.code() as usize][phase][idx]
    }

    /// What an attacked square is worth to a kind of piece.
    pub fn mobility_weight(&self, role: Role) -> (r: (i32, i32))
        ensures
            r.0 == self.mobility@[role.code_spec() as int]@[0],
            r.1 == self.mobility@[role.code_spec() as int]@[1],
    {
        let k: usize = role.code() as usize;
        (self.mobility[k][0], self.mobility[k][1])
    }

    /// The parameters that the engine comes with.
    pub fn baseline() -> (r: EvalParams)
        ensures
            is_baseline(r),
    {
        let mut pst: [[[i32; 64]; 2]; 7] = [[[0i32; 64]; 2]; 7];
        pst[1] = [tables::PAWN_MG, tables::PAWN_EG];
        pst[2] = [tables::KNIGHT, tables::KNIGHT];
        pst[3] = [tables::BISHOP, tables::BISHOP];
        pst[4] = [tables::ROOK, tables::ROOK];
        pst[5] = [tables::QUEEN, tables::QUEEN];
        pst[6] = [tables::KING_MG, tables::KING_EG];
        EvalParams {
            piece_values: [100, 320, 330, 500, 900],
            bishop_pair: [40, 60],
            pst: PstTables { tables: pst },
            mobility: [[0, 0], [0, 0], [4, 4], [4, 5], [2, 3], [1, 2], [0, 1]],
            doubled: [-20, -40],
            isolated: [-20, -30],
            backward: [-10, -15],
            connected: [15, 30],
            island: [-10, -15],
            protected_pawn: [6, 6],
            passed_bonus: [[0, 10], [10, 40], [25, 100], [50, 250], [110, 500], [180, 800]],
            protected_passed: [10, 30],
            connected_passed: [15, 30],
            shield_cap: 40,
            shield_weight: [4, 3, 2],
            attack_weight: [0, 2, 3, 3, 4, 5, 0],
            king_open_file: 8,
            king_fully_open_file: 5,
            king_open_files_cap: 30,
            king_hole: 6,
            king_holes_cap: 30,
            king_center_bonus: 3,
            king_passer_dist_penalty: 4,
            knight_outpost: [30, 20],
            bishop_outpost: [20, 10],
            bad_bishop_pawn: [-8, -4],
            bad_bishop_cap: 4,
            development_phase: 20,
            undeveloped: [-15, 0],
            rooks_connected: [15, 20],
            rook_behind_passed: [10, 30],
            queen_behind_passed: [15, 20],
            queen_under_pawn_attack: [-20, -10],
            minor_coordination: [5, 8],
            weak_minor: -15,
            pawn_attack_bonus: 18,
            rook_open: [25, 20],
            rook_semi_open: [10, 10],
            rook_seventh: [20, 40],
            space_mg: 4,
            space_eg: 2,
            phase_queen: 4,
            phase_rook: 2,
            phase_bishop: 1,
            phase_knight: 1,
            phase_max: 24,
        }
    }

    /// How many parameters there are.
    pub fn param_count(&self) -> (r: usize)
        ensures
            r == flat(*self).len(),
    {
        PARAM_COUNT
    }

    /// Whether no parameter is too large for the evaluation.
    pub fn is_usable(&self) -> (r: bool)
        ensures
            r == self.wf(),
    {
        let m: i32 = PARAM_LIMIT;
        let mut k: usize = 0;
        while k < 7
            invariant
                k <= 7,
                m == 4096,
                forall|j: int, f: int, s: int|
                    0 <= j < k && 0 <= f < 2 && 0 <= s < 64 ==> at_most(
                        #[trigger] self.pst.tables@[j]@[f]@[s],
                        4096,
                    ),
                forall|j: int| 0 <= j < k ==> pair_at_most(#[trigger] self.mobility@[j], 4096),
            decreases 7 - k,
        {
            let mut f: usize = 0;
            while f < 2
                invariant
                    k < 7,
                    f <= 2,
                    m == 4096,
                    forall|g: int, s: int|
                        0 <= g < f && 0 <= s < 64 ==> at_most(
                            #[trigger] self.pst.tables@[k as int]@[g]@[s],
                            4096,
                        ),
                decreases 2 - f,
            {
                let mut s: usize = 0;
                while s < 64
                    invariant
                        k < 7,
                        f < 2,
                        s <= 64,
                        m == 4096,
                        forall|t: int|
                            0 <= t < s ==> at_most(
                                #[trigger] self.pst.tables@[k as int]@[f as int]@[t],
                                4096,
                            ),
                    decreases 64 - s,
                {
                    if !small(self.pst.tables[k][f][s], m) {
                        return false;
                    }
                    s = s + 1;
                }
                f = f + 1;
            }
            if !small_pair(&self.mobility[k], m) {
                return false;
            }
            k = k + 1;
        }
        k = 0;
        while k < 6
            invariant
                k <= 6,
                m == 4096,
                forall|j: int| 0 <= j < k ==> pair_at_most(#[trigger] self.passed_bonus@[j], 4096),
            decreases 6 - k,
        {
            if !small_pair(&self.passed_bonus[k], m) {
                return false;
            }
            k = k + 1;
        }
        small_all(&self.piece_values, m) && small_all(&self.shield_weight, m) && small_all(
            &self.attack_weight,
            m,
        )
            && small_pair(&self.bishop_pair, m)
            && small_pair(&self.doubled, m)
            && small_pair(&self.isolated, m)
            && small_pair(&self.backward, m)
            && small_pair(&self.connected, m)
            && small_pair(&self.island, m)
            && small_pair(&self.protected_pawn, m)
            && small_pair(&self.protected_passed, m)
            && small_pair(&self.connected_passed, m)
            && small_pair(&self.knight_outpost, m)
            && small_pair(&self.bishop_outpost, m)
            && small_pair(&self.bad_bishop_pawn, m)
            && small_pair(&self.undeveloped, m)
            && small_pair(&self.rooks_connected, m)
            && small_pair(&self.rook_behind_passed, m)
            && small_pair(&self.queen_behind_passed, m)
            && small_pair(&self.queen_under_pawn_attack, m)
            && small_pair(&self.minor_coordination, m)
            && small_pair(&self.rook_open, m)
            && small_pair(&self.rook_semi_open, m)
            && small_pair(&self.rook_seventh, m)
            && small(self.shield_cap, m)
            && small(self.king_open_file, m)
            && small(self.king_fully_open_file, m)
            && small(self.king_open_files_cap, m)
            && small(self.king_hole, m)
            && small(self.king_holes_cap, m)
            && small(self.king_center_bonus, m)
            && small(self.king_passer_dist_penalty, m)
            && small(self.bad_bishop_cap, m)
            && small(self.development_phase, m)
            && small(self.weak_minor, m)
            && small(self.pawn_attack_bonus, m)
            && small(self.space_mg, m)
            && small(self.space_eg, m)
            && small(self.phase_queen, m)
            && small(self.phase_rook, m)
            && small(self.phase_bishop, m)
            && small(self.phase_knight, m)
            && small(self.phase_max, m)
            && -64 <= self.bad_bishop_cap && 0 <= self.phase_max && self.phase_max <= 32
    }

    /// The parameters at the front of the list.
    fn front(&self) -> (r: [i32; 74])
        ensures
            forall|k: int| 0 <= k < 74 ==> #[trigger] r@[k] == scalar(*self, k),
    {
        [
            self.piece_values[0],
            self.piece_values[1],
            self.piece_values[2],
            self.piece_values[3],
            self.piece_values[4],
            self.bishop_pair[0],
            self.bishop_pair[1],
            self.doubled[0],
            self.doubled[1],
            self.isolated[0],
            self.isolated[1],
            self.backward[0],
            self.backward[1],
            self.connected[0],
            self.connected[1],
            self.island[0],
            self.island[1],
            self.protected_pawn[0],
            self.protected_pawn[1],
            self.protected_passed[0],
            self.protected_passed[1],
            self.connected_passed[0],
            self.connected_passed[1],
            self.shield_cap,
            self.shield_weight[0],
            self.shield_weight[1],
            self.shield_weight[2],
            self.attack_weight[1],
            self.attack_weight[2],
            self.attack_weight[3],
            self.attack_weight[4],
            self.attack_weight[5],
            self.king_open_file,
            self.king_fully_open_file,
            self.king_open_files_cap,
            self.king_hole,
            self.king_holes_cap,
            self.king_center_bonus,
            self.king_passer_dist_penalty,
            self.knight_outpost[0],
            self.knight_outpost[1],
            self.bishop_outpost[0],
            self.bishop_outpost[1],
            self.bad_bishop_pawn[0],
            self.bad_bishop_pawn[1],
            self.bad_bishop_cap,
            self.development_phase,
            self.undeveloped[0],
            self.undeveloped[1],
            self.rooks_connected[0],
            self.rooks_connected[1],
            self.rook_behind_passed[0],
            self.rook_behind_passed[1],
            self.queen_behind_passed[0],
            self.queen_behind_passed[1],
            self.queen_under_pawn_attack[0],
            self.queen_under_pawn_attack[1],
            self.minor_coordination[0],
            self.minor_coordination[1],
            self.weak_minor,
            self.pawn_attack_bonus,
            self.rook_open[0],
            self.rook_open[1],
            self.rook_semi_open[0],
            self.rook_semi_open[1],
            self.rook_seventh[0],
            self.rook_seventh[1],
            self.space_mg,
            self.space_eg,
            self.phase_queen,
            self.phase_rook,
            self.phase_bishop,
            self.phase_knight,
            self.phase_max,
        ]
    }

    /// All parameters in their order.
    pub fn to_vec(&self) -> (r: Vec<i32>)
        ensures
            r@ == flat(*self),
    {
        let mut v: Vec<i32> = Vec::new();
        let front: [i32; 74] = self.front();
        let mut k: usize = 0;
        while k < 864
            invariant
                k <= 864,
                v@.len() == k,
                forall|j: int| 0 <= j < 74 ==> #[trigger] front@[j] == scalar(*self, j),
                forall|j: int| 0 <= j < k ==> #[trigger] v@[j] == entry(*self, j),
            decreases 864 - k,
        {
            let x: i32 = if k < 74 {
                front[k]
            } else if k < 86 {
                self.passed_bonus[(k - 74) / 2][(k - 74) % 2]
            } else if k < 96 {
                self.mobility[2 + (k - 86) / 2][(k - 86) % 2]
            } else {
                self.pst.tables[1 + (k - 96) / 128][((k - 96) / 64) % 2][(k - 96) % 64]
            };
            v.push(x);
            k = k + 1;
        }
        assert(v@ =~= flat(*self));
        v
    }

    /// Takes the parameters at the front of the list from `v`, as far as it
    /// reaches.
    #[verifier::spinoff_prover]
    #[verifier::rlimit(60)]
    fn take_front(&mut self, v: &[i32])
        ensures
            forall|k: int|
                0 <= k < 74 ==> #[trigger] scalar(*final(self), k) == (if k < v@.len() {
                    v@[k]
                } else {
                    scalar(*old(self), k)
                }),
            final(self).passed_bonus == old(self).passed_bonus,
            final(self).mobility == old(self).mobility,
            final(self).pst == old(self).pst,
            final(self).attack_weight@[0] == old(self).attack_weight@[0],
            final(self).attack_weight@[6] == old(self).attack_weight@[6],
    {
        self.piece_values[0] = slot(v, 0, self.piece_values[0]);
        self.piece_values[1] = slot(v, 1, self.piece_values[1]);
        self.piece_values[2] = slot(v, 2, self.piece_values[2]);
        self.piece_values[3] = slot(v, 3, self.piece_values[3]);
        self.piece_values[4] = slot(v, 4, self.piece_values[4]);
        self.bishop_pair[0] = slot(v, 5, self.bishop_pair[0]);
        self.bishop_pair[1] = slot(v, 6, self.bishop_pair[1]);
        self.doubled[0] = slot(v, 7, self.doubled[0]);
        self.doubled[1] = slot(v, 8, self.doubled[1]);
        self.isolated[0] = slot(v, 9, self.isolated[0]);
        self.isolated[1] = slot(v, 10, self.isolated[1]);
        self.backward[0] = slot(v, 11, self.backward[0]);
        self.backward[1] = slot(v, 12, self.backward[1]);
        self.connected[0] = slot(v, 13, self.connected[0]);
        self.connected[1] = slot(v, 14, self.connected[1]);
        self.island[0] = slot(v, 15, self.island[0]);
        self.island[1] = slot(v, 16, self.island[1]);
        self.protected_pawn[0] = slot(v, 17, self.protected_pawn[0]);
        self.protected_pawn[1] = slot(v, 18, self.protected_pawn[1]);
        self.protected_passed[0] = slot(v, 19, self.protected_passed[0]);
        self.protected_passed[1] = slot(v, 20, self.protected_passed[1]);
        self.connected_passed[0] = slot(v, 21, self.connected_passed[0]);
        self.connected_passed[1] = slot(v, 22, self.connected_passed[1]);
        self.shield_cap = slot(v, 23, self.shield_cap);
        self.shield_weight[0] = slot(v, 24, self.shield_weight[0]);
        self.shield_weight[1] = slot(v, 25, self.shield_weight[1]);
        self.shield_weight[2] = slot(v, 26, self.shield_weight[2]);
        self.attack_weight[1] = slot(v, 27, self.attack_weight[1]);
        self.attack_weight[2] = slot(v, 28, self.attack_weight[2]);
        self.attack_weight[3] = slot(v, 29, self.attack_weight[3]);
        self.attack_weight[4] = slot(v, 30, self.attack_weight[4]);
        self.attack_weight[5] = slot(v, 31, self.attack_weight[5]);
        self.king_open_file = slot(v, 32, self.king_open_file);
        self.king_fully_open_file = slot(v, 33, self.king_fully_open_file);
        self.king_open_files_cap = slot(v, 34, self.king_open_files_cap);
        self.king_hole = slot(v, 35, self.king_hole);
        self.king_holes_cap = slot(v, 36, self.king_holes_cap);
        self.king_center_bonus = slot(v, 37, self.king_center_bonus);
        self.king_passer_dist_penalty = slot(v, 38, self.king_passer_dist_penalty);
        self.knight_outpost[0] = slot(v, 39, self.knight_outpost[0]);
        self.knight_outpost[1] = slot(v, 40, self.knight_outpost[1]);
        self.bishop_outpost[0] = slot(v, 41, self.bishop_outpost[0]);
        self.bishop_outpost[1] = slot(v, 42, self.bishop_outpost[1]);
        self.bad_bishop_pawn[0] = slot(v, 43, self.bad_bishop_pawn[0]);
        self.bad_bishop_pawn[1] = slot(v, 44, self.bad_bishop_pawn[1]);
        self.bad_bishop_cap = slot(v, 45, self.bad_bishop_cap);
        self.development_phase = slot(v, 46, self.development_phase);
        self.undeveloped[0] = slot(v, 47, self.undeveloped[0]);
        self.undeveloped[1] = slot(v, 48, self.undeveloped[1]);
        self.rooks_connected[0] = slot(v, 49, self.rooks_connected[0]);
        self.rooks_connected[1] = slot(v, 50, self.rooks_connected[1]);
        self.rook_behind_passed[0] = slot(v, 51, self.rook_behind_passed[0]);
        self.rook_behind_passed[1] = slot(v, 52, self.rook_behind_passed[1]);
        self.queen_behind_passed[0] = slot(v, 53, self.queen_behind_passed[0]);
        self.queen_behind_passed[1] = slot(v, 54, self.queen_behind_passed[1]);
        self.queen_under_pawn_attack[0] = slot(v, 55, self.queen_under_pawn_attack[0]);
        self.queen_under_pawn_attack[1] = slot(v, 56, self.queen_under_pawn_attack[1]);
        self.minor_coordination[0] = slot(v, 57, self.minor_coordination[0]);
        self.minor_coordination[1] = slot(v, 58, self.minor_coordination[1]);
        self.weak_minor = slot(v, 59, self.weak_minor);
        self.pawn_attack_bonus = slot(v, 60, self.pawn_attack_bonus);
        self.rook_open[0] = slot(v, 61, self.rook_open[0]);
        self.rook_open[1] = slot(v, 62, self.rook_open[1]);
        self.rook_semi_open[0] = slot(v, 63, self.rook_semi_open[0]);
        self.rook_semi_open[1] = slot(v, 64, self.rook_semi_open[1]);
        self.rook_seventh[0] = slot(v, 65, self.rook_seventh[0]);
        self.rook_seventh[1] = slot(v, 66, self.rook_seventh[1]);
        self.space_mg = slot(v, 67, self.space_mg);
        self.space_eg = slot(v, 68, self.space_eg);
        self.phase_queen = slot(v, 69, self.phase_queen);
        self.phase_rook = slot(v, 70, self.phase_rook);
        self.phase_bishop = slot(v, 71, self.phase_bishop);
        self.phase_knight = slot(v, 72, self.phase_knight);
        self.phase_max = slot(v, 73, self.phase_max);
    }

    /// Takes the parameters from `v`, in their order; a list that is too short
    /// leaves the rest as they are.
    #[verifier::spinoff_prover]
    #[verifier::rlimit(60)]
    pub fn from_vec(&mut self, v: &[i32])
        ensures
            taken(*old(self), v@, *final(self)),
            final(self).pst.tables@[0] == old(self).pst.tables@[0],
            final(self).mobility@[0] == old(self).mobility@[0],
            final(self).mobility@[1] == old(self).mobility@[1],
            final(self).attack_weight@[0] == old(self).attack_weight@[0],
            final(self).attack_weight@[6] == old(self).attack_weight@[6],
    {
        let ghost start = *self;
        self.take_front(v);
        let mut k: usize = 74;
        while k < v.len() && k < 864
            invariant
                74 <= k <= 864,
                forall|j: int|
                    0 <= j < 74 ==> #[trigger] scalar(*self, j) == (if j < v@.len() {
                        v@[j]
                    } else {
                        scalar(start, j)
                    }),
                forall|j: int|
                    74 <= j < 864 ==> #[trigger] entry(*self, j) == (if j < k && j < v@.len() {
                        v@[j]
                    } else {
                        entry(start, j)
                    }),
                self.pst.tables@[0] == start.pst.tables@[0],
                self.mobility@[0] == start.mobility@[0],
                self.mobility@[1] == start.mobility@[1],
                self.attack_weight@[0] == start.attack_weight@[0],
                self.attack_weight@[6] == start.attack_weight@[6],
            decreases 864 - k,
        {
            self.set_tail(k, v[k]);
            k = k + 1;
        }
    }

    /// Sets a parameter behind the front of the list.
    #[verifier::spinoff_prover]
    #[verifier::rlimit(60)]
    fn set_tail(&mut self, k: usize, x: i32)
        requires
            74 <= k < 864,
        ensures
            forall|j: int|
                74 <= j < 864 ==> #[trigger] entry(*final(self), j) == (if j == k {
                    x
                } else {
                    entry(*old(self), j)
                }),
            forall|j: int|
                0 <= j < 74 ==> #[trigger] scalar(*final(self), j) == scalar(*old(self), j),
            final(self).pst.tables@[0] == old(self).pst.tables@[0],
            final(self).mobility@[0] == old(self).mobility@[0],
            final(self).mobility@[1] == old(self).mobility@[1],
            final(self).attack_weight == old(self).attack_weight,
    {
        if k < 86 {
            self.passed_bonus[(k - 74) / 2][(k - 74) % 2] = x;
        } else if k < 96 {
            self.mobility[2 + (k - 86) / 2][(k - 86) % 2] = x;
        } else {
            self.pst.tables[1 + (k - 96) / 128][((k - 96) / 64) % 2][(k - 96) % 64] = x;
        }
    }

    /// The names and the bounds of all parameters, in their order.
    pub fn bounds() -> (r: Vec<ParamDef>)
        ensures
            r@.len() == 864,
            forall|k: int|
                0 <= k < 864 ==> (#[trigger] r@[k]).name@ == param_name(k) && r@[k].min
                    == param_bounds(k).0 && r@[k].max == param_bounds(k).1,
    {
        let mut out: Vec<ParamDef> = Vec::new();
        let mut k: usize = 0;
        while k < 864
            invariant
                k <= 864,
                out@.len() == k,
                forall|j: int|
                    0 <= j < k ==> (#[trigger] out@[j]).name@ == param_name(j) && out@[j].min
                        == param_bounds(j).0 && out@[j].max == param_bounds(j).1,
            decreases 864 - k,
        {
            let def: ParamDef = if k < 74 {
                scalar_def(k)
            } else {
                tail_def(k)
            };
            out.push(def);
            k = k + 1;
        }
        out
    }
}

/// `x` is at most `m` in size.
fn small(x: i32, m: i32) -> (r: bool)
    requires
        0 <= m,
    ensures
        r == at_most(x, m as int),
{
    -m <= x && x <= m
}

/// Both values of a pair are at most `m` in size.
fn small_pair(x: &[i32; 2], m: i32) -> (r: bool)
    requires
        0 <= m,
    ensures
        r == pair_at_most(*x, m as int),
{
    small(x[0], m) && small(x[1], m)
}

/// All values of a list are at most `m` in size.
fn small_all(x: &[i32], m: i32) -> (r: bool)
    requires
        0 <= m,
    ensures
        r == (forall|k: int| 0 <= k < x@.len() ==> at_most(#[trigger] x@[k], m as int)),
{
    let mut k: usize = 0;
    while k < x.len()
        invariant
            0 <= m,
            k <= x@.len(),
            forall|j: int| 0 <= j < k ==> at_most(#[trigger] x@[j], m as int),
        decreases x@.len() - k,
    {
        if !small(x[k], m) {
            return false;
        }
        k = k + 1;
    }
    true
}

/// What stands in a list, or `x` where the list does not reach.
fn slot(v: &[i32], k: usize, x: i32) -> (r: i32)
    ensures
        r == (if k < v@.len() {
            v@[k as int]
        } else {
            x
        }),
{
    if k < v.len() {
        v[k]
    } else {
        x
    }
}

fn role_str(k: usize) -> (r: &'static str)
    ensures
        r@ == role_name(k as int),
{
    match k {
        1 => "pawn",
        2 => "knight",
        3 => "bishop",
        4 => "rook",
        5 => "queen",
        _ => "king",
    }
}

fn phase_str(f: usize) -> (r: &'static str)
    ensures
        r@ == phase_name(f as int),
{
    if f == 0 {
        "mg"
    } else {
        "eg"
    }
}

/// The name and the bounds of a parameter behind the front of the list.
fn tail_def(k: usize) -> (r: ParamDef)
    requires
        74 <= k < 864,
    ensures
        r.name@ == param_name(k as int),
        r.min == param_bounds(k as int).0,
        r.max == param_bounds(k as int).1,
{
    let mut name: String;
    if k < 86 {
        name = "passed.rank".to_owned();
        text::append_decimal(&mut name, (2 + (k - 74) / 2) as u64);
        name.append("_");
        name.append(phase_str((k - 74) % 2));
        let max: i32 = if (k - 74) % 2 == 0 {
            500
        } else {
            1400
        };
        ParamDef { name, min: 0, max }
    } else if k < 96 {
        name = "mobility.".to_owned();
        name.append(role_str(2 + (k - 86) / 2));
        name.append(".");
        name.append(phase_str((k - 86) % 2));
        let max: i32 = if k < 90 {
            20
        } else if k < 92 {
            15
        } else if k < 94 {
            12
        } else {
            10
        };
        ParamDef { name, min: 0, max }
    } else {
        name = "pst.".to_owned();
        name.append(role_str(1 + (k - 96) / 128));
        name.append(".");
        name.append(phase_str(((k - 96) / 64) % 2));
        name.append(".");
        text::append_decimal(&mut name, ((k - 96) % 64) as u64);
        if k < 224 {
            ParamDef { name, min: -300, max: 500 }
        } else if k < 736 {
            ParamDef { name, min: -400, max: 400 }
        } else {
            ParamDef { name, min: -500, max: 500 }
        }
    }
}

/// A name with bounds.
fn def(name: &str, min: i32, max: i32) -> (r: ParamDef)
    ensures
        r.name@ == name@,
        r.min == min,
        r.max == max,
{
    ParamDef { name: name.to_owned(), min, max }
}

/// The name and the bounds of a parameter at the front of the list.
fn scalar_def(k: usize) -> (r: ParamDef)
    requires
        k < 74,
    ensures
        r.name@ == scalar_name(k as int),
        r.min == scalar_bounds(k as int).0,
        r.max == scalar_bounds(k as int).1,
{
    match k {
        0 => def("material.pawn", 30, 200),
        1 => def("material.knight", 120, 600),
        2 => def("material.bishop", 120, 600),
        3 => def("material.rook", 250, 900),
        4 => def("material.queen", 600, 1500),
        5 => def("bishop_pair.mg", 0, 200),
        6 => def("bishop_pair.eg", 0, 250),
        7 => def("pawns.doubled.mg", -150, 0),
        8 => def("pawns.doubled.eg", -250, 0),
        9 => def("pawns.isolated.mg", -150, 0),
        10 => def("pawns.isolated.eg", -250, 0),
        11 => def("pawns.backward.mg", -120, 0),
        12 => def("pawns.backward.eg", -200, 0),
        13 => def("pawns.connected.mg", 0, 150),
        14 => def("pawns.connected.eg", 0, 250),
        15 => def("pawns.island.mg", -120, 0),
        16 => def("pawns.island.eg", -200, 0),
        17 => def("pawns.protected_pawn.mg", 0, 60),
        18 => def("pawns.protected_pawn.eg", 0, 80),
        19 => def("passed.protected.mg", 0, 100),
        20 => def("passed.protected.eg", 0, 200),
        21 => def("passed.connected.mg", 0, 120),
        22 => def("passed.connected.eg", 0, 250),
        23 => def("king.shield_cap", 0, 250),
        24 => def("king.shield_rank1", 0, 30),
        25 => def("king.shield_rank2", 0, 30),
        26 => def("king.shield_rank3", 0, 30),
        27 => def("king.attack_pawn", 0, 30),
        28 => def("king.attack_knight", 0, 30),
        29 => def("king.attack_bishop", 0, 30),
        30 => def("king.attack_rook", 0, 40),
        31 => def("king.attack_queen", 0, 50),
        32 => def("king.open_file", 0, 60),
        33 => def("king.fully_open_file", 0, 40),
        34 => def("king.open_files_cap", 0, 200),
        35 => def("king.hole", 0, 40),
        36 => def("king.holes_cap", 0, 200),
        37 => def("king.center_bonus", 0, 30),
        38 => def("king.passer_dist_penalty", 0, 40),
        39 => def("activity.knight_outpost.mg", -150, 150),
        40 => def("activity.knight_outpost.eg", -150, 200),
        41 => def("activity.bishop_outpost.mg", -100, 120),
        42 => def("activity.bishop_outpost.eg", -100, 150),
        43 => def("activity.bad_bishop.mg", -120, 0),
        44 => def("activity.bad_bishop.eg", -160, 0),
        45 => def("activity.bad_bishop_cap", 1, 8),
        46 => def("activity.development_phase", 0, 24),
        47 => def("activity.undeveloped.mg", -120, 0),
        48 => def("activity.undeveloped.eg", -100, 0),
        49 => def("activity.rooks_connected.mg", 0, 120),
        50 => def("activity.rooks_connected.eg", 0, 180),
        51 => def("activity.rook_behind_passed.mg", 0, 150),
        52 => def("activity.rook_behind_passed.eg", 0, 250),
        53 => def("activity.queen_behind_passed.mg", 0, 120),
        54 => def("activity.queen_behind_passed.eg", 0, 200),
        55 => def("activity.queen_under_pawn_attack.mg", -150, 0),
        56 => def("activity.queen_under_pawn_attack.eg", -120, 0),
        57 => def("activity.minor_coordination.mg", 0, 60),
        58 => def("activity.minor_coordination.eg", 0, 80),
        59 => def("threats.weak_minor", -200, 0),
        60 => def("threats.pawn_attack_bonus", 0, 120),
        61 => def("threats.rook_open.mg", 0, 120),
        62 => def("threats.rook_open.eg", 0, 150),
        63 => def("threats.rook_semi_open.mg", 0, 80),
        64 => def("threats.rook_semi_open.eg", 0, 100),
        65 => def("threats.rook_seventh.mg", 0, 120),
        66 => def("threats.rook_seventh.eg", 0, 250),
        67 => def("space.mg", 0, 60),
        68 => def("space.eg", 0, 60),
        69 => def("phase.queen", 0, 8),
        70 => def("phase.rook", 0, 6),
        71 => def("phase.bishop", 0, 4),
        72 => def("phase.knight", 0, 4),
        _ => def("phase.max", 16, 32),
    }
}

impl Default for EvalParams {
    fn default() -> (r: Self)
        ensures
            is_baseline(r),
    {
        EvalParams::baseline()
    }
}

/// Taking parameters from the list of others gives the others, whatever stood
/// there before.
pub proof fn law_list_reads_back(p: EvalParams, before: EvalParams, after: EvalParams)
    requires
        taken(before, flat(p), after),
    ensures
        flat(after) == flat(p),
{
    assert forall|k: int| 0 <= k < 864 implies #[trigger] entry(after, k) == entry(p, k) by {
        assert(flat(p)[k] == entry(p, k));
    }
    assert(flat(after) =~= flat(p));
}

/// There is one set of parameters that the engine comes with.
pub proof fn law_one_baseline(p: EvalParams, q: EvalParams)
    requires
        is_baseline(p),
        is_baseline(q),
    ensures
        p == q,
{
    assert(p.piece_values =~= q.piece_values);
    assert(p.bishop_pair =~= q.bishop_pair);
    assert(p.doubled =~= q.doubled);
    assert(p.isolated =~= q.isolated);
    assert(p.backward =~= q.backward);
    assert(p.connected =~= q.connected);
    assert(p.island =~= q.island);
    assert(p.protected_pawn =~= q.protected_pawn);
    assert(p.protected_passed =~= q.protected_passed);
    assert(p.connected_passed =~= q.connected_passed);
    assert(p.shield_weight =~= q.shield_weight);
    assert(p.attack_weight =~= q.attack_weight);
    assert(p.knight_outpost =~= q.knight_outpost);
    assert(p.bishop_outpost =~= q.bishop_outpost);
    assert(p.bad_bishop_pawn =~= q.bad_bishop_pawn);
    assert(p.undeveloped =~= q.undeveloped);
    assert(p.rooks_connected =~= q.rooks_connected);
    assert(p.rook_behind_passed =~= q.rook_behind_passed);
    assert(p.queen_behind_passed =~= q.queen_behind_passed);
    assert(p.queen_under_pawn_attack =~= q.queen_under_pawn_attack);
    assert(p.minor_coordination =~= q.minor_coordination);
    assert(p.rook_open =~= q.rook_open);
    assert(p.rook_semi_open =~= q.rook_semi_open);
    assert(p.rook_seventh =~= q.rook_seventh);
    assert forall|k: int| 0 <= k < 7 implies #[trigger] p.mobility@[k] == q.mobility@[k] by {
        assert forall|f: int| 0 <= f < 2 implies p.mobility@[k]@[f] == #[trigger] q.mobility@[k]@[f] by {
            assert(p.mobility@[k]@[f] == baseline_mobility(k, f));
        }
        assert(p.mobility@[k] =~= q.mobility@[k]);
    }
    assert(p.mobility =~= q.mobility);
    assert forall|k: int| 0 <= k < 6 implies #[trigger] p.passed_bonus@[k] == q.passed_bonus@[k] by {
        assert forall|f: int| 0 <= f < 2 implies p.passed_bonus@[k]@[f] == #[trigger] q.passed_bonus@[k]@[f] by {
            assert(p.passed_bonus@[k]@[f] == baseline_passed(k, f));
        }
        assert(p.passed_bonus@[k] =~= q.passed_bonus@[k]);
    }
    assert(p.passed_bonus =~= q.passed_bonus);
    let t = p.pst.tables;
    let u = q.pst.tables;
    assert forall|k: int| 0 <= k < 7 implies #[trigger] t@[k] == u@[k] by {
        assert forall|f: int| 0 <= f < 2 implies #[trigger] t@[k]@[f] == u@[k]@[f] by {
            assert forall|s: int| 0 <= s < 64 implies #[trigger] t@[k]@[f]@[s] == u@[k]@[f]@[s] by {
                assert(t@[k]@[f]@[s] == baseline_square(k, f, s));
                assert(u@[k]@[f]@[s] == baseline_square(k, f, s));
            }
            assert(t@[k]@[f] =~= u@[k]@[f]);
        }
        assert(t@[k] =~= u@[k]);
    }
    assert(t =~= u);
}

/// The parameters that the engine comes with are not too large.
pub proof fn law_baseline_is_usable(p: EvalParams)
    requires
        is_baseline(p),
    ensures
        p.wf(),
{
    assert forall|k: int, f: int, s: int|
        0 <= k < 7 && 0 <= f < 2 && 0 <= s < 64 implies at_most(
        #[trigger] p.pst.tables@[k]@[f]@[s],
        4096,
    ) by {
        tables::lemma_sizes(s);
        assert(p.pst.tables@[k]@[f]@[s] == baseline_square(k, f, s));
    }
    assert forall|k: int| 0 <= k < 7 implies pair_at_most(#[trigger] p.mobility@[k], 4096) by {
        assert(p.mobility@[k]@[0] == baseline_mobility(k, 0));
        assert(p.mobility@[k]@[1] == baseline_mobility(k, 1));
    }
    assert forall|k: int| 0 <= k < 6 implies pair_at_most(#[trigger] p.passed_bonus@[k], 4096) by {
        assert(p.passed_bonus@[k]@[0] == baseline_passed(k, 0));
        assert(p.passed_bonus@[k]@[1] == baseline_passed(k, 1));
    }
}

/// The parameters that the engine comes with lie within their bounds.
pub proof fn law_baseline_within_bounds(p: EvalParams, k: int)
    requires
        is_baseline(p),
        0 <= k < 864,
    ensures
        param_bounds(k).0 <= entry(p, k) <= param_bounds(k).1,
{
    if k >= 96 {
        tables::lemma_sizes((k - 96) % 64);
    }
}

/// A parameter lies within its bounds.
pub open spec fn in_bounds(p: EvalParams, k: int) -> bool {
    param_bounds(k).0 <= entry(p, k) <= param_bounds(k).1
}

/// The parameters outside the list are no larger than `m`: mobility of pawns and
/// kings, attacks of kings, and the row that no kind of piece has.
pub open spec fn rest_limited(p: EvalParams, m: int) -> bool {
    &&& pair_at_most(p.mobility@[0], m) && pair_at_most(p.mobility@[1], m)
    &&& at_most(p.attack_weight@[0], m) && at_most(p.attack_weight@[6], m)
    &&& forall|f: int, s: int|
        0 <= f < 2 && 0 <= s < 64 ==> at_most(#[trigger] p.pst.tables@[0]@[f]@[s], m)
}

proof fn lemma_bounds_small(k: int)
    requires
        0 <= k < 864,
    ensures
        -4096 <= param_bounds(k).0,
        param_bounds(k).1 <= 4096,
{
}

proof fn lemma_front(p: EvalParams, k: int)
    requires
        0 <= k < 864,
        in_bounds(p, k),
    ensures
        at_most(entry(p, k), 4096),
{
    lemma_bounds_small(k);
}

/// Parameters that lie within the bounds of the tuner can be used.
#[verifier::spinoff_prover]
#[verifier::rlimit(60)]
pub proof fn law_tuned_is_usable(p: EvalParams)
    requires
        forall|k: int| 0 <= k < 864 ==> #[trigger] in_bounds(p, k),
        rest_limited(p, 4096),
    ensures
        p.wf(),
{
    assert forall|k: int| 0 <= k < 864 implies #[trigger] at_most(entry(p, k), 4096) by {
        assert(in_bounds(p, k));
        lemma_front(p, k);
    }
    lemma_scalars_limited(p);
    assert forall|k: int| 0 <= k < 6 implies pair_at_most(#[trigger] p.passed_bonus@[k], 4096) by {
        assert(at_most(entry(p, 74 + 2 * k), 4096));
        assert(at_most(entry(p, 75 + 2 * k), 4096));
    }
    assert forall|k: int| 0 <= k < 7 implies pair_at_most(#[trigger] p.mobility@[k], 4096) by {
        if k >= 2 {
            assert(at_most(entry(p, 86 + 2 * (k - 2)), 4096));
            assert(at_most(entry(p, 87 + 2 * (k - 2)), 4096));
        }
    }
    assert forall|k: int, f: int, s: int|
        0 <= k < 7 && 0 <= f < 2 && 0 <= s < 64 implies at_most(
        #[trigger] p.pst.tables@[k]@[f]@[s],
        4096,
    ) by {
        if k >= 1 {
            let n = 96 + 128 * (k - 1) + 64 * f + s;
            assert((n - 96) / 128 == k - 1 && ((n - 96) / 64) % 2 == f && (n - 96) % 64 == s);
            assert(at_most(entry(p, n), 4096));
        }
    }
    assert(in_bounds(p, 45));
    assert(in_bounds(p, 73));
}

/// The parameters at the front of the list are small where their entries are.
#[verifier::spinoff_prover]
proof fn lemma_scalars_limited(p: EvalParams)
    requires
        forall|k: int| 0 <= k < 864 ==> #[trigger] at_most(entry(p, k), 4096),
    ensures
        at_most(p.piece_values@[0], 4096),
        at_most(p.piece_values@[1], 4096),
        at_most(p.piece_values@[2], 4096),
        at_most(p.piece_values@[3], 4096),
        at_most(p.piece_values@[4], 4096),
        at_most(p.bishop_pair@[0], 4096),
        at_most(p.bishop_pair@[1], 4096),
        at_most(p.doubled@[0], 4096),
        at_most(p.doubled@[1], 4096),
        at_most(p.isolated@[0], 4096),
        at_most(p.isolated@[1], 4096),
        at_most(p.backward@[0], 4096),
        at_most(p.backward@[1], 4096),
        at_most(p.connected@[0], 4096),
        at_most(p.connected@[1], 4096),
        at_most(p.island@[0], 4096),
        at_most(p.island@[1], 4096),
        at_most(p.protected_pawn@[0], 4096),
        at_most(p.protected_pawn@[1], 4096),
        at_most(p.protected_passed@[0], 4096),
        at_most(p.protected_passed@[1], 4096),
        at_most(p.connected_passed@[0], 4096),
        at_most(p.connected_passed@[1], 4096),
        at_most(p.shield_cap, 4096),
        at_most(p.shield_weight@[0], 4096),
        at_most(p.shield_weight@[1], 4096),
        at_most(p.shield_weight@[2], 4096),
        at_most(p.attack_weight@[1], 4096),
        at_most(p.attack_weight@[2], 4096),
        at_most(p.attack_weight@[3], 4096),
        at_most(p.attack_weight@[4], 4096),
        at_most(p.attack_weight@[5], 4096),
        at_most(p.king_open_file, 4096),
        at_most(p.king_fully_open_file, 4096),
        at_most(p.king_open_files_cap, 4096),
        at_most(p.king_hole, 4096),
        at_most(p.king_holes_cap, 4096),
        at_most(p.king_center_bonus, 4096),
        at_most(p.king_passer_dist_penalty, 4096),
        at_most(p.knight_outpost@[0], 4096),
        at_most(p.knight_outpost@[1], 4096),
        at_most(p.bishop_outpost@[0], 4096),
        at_most(p.bishop_outpost@[1], 4096),
        at_most(p.bad_bishop_pawn@[0], 4096),
        at_most(p.bad_bishop_pawn@[1], 4096),
        at_most(p.bad_bishop_cap, 4096),
        at_most(p.development_phase, 4096),
        at_most(p.undeveloped@[0], 4096),
        at_most(p.undeveloped@[1], 4096),
        at_most(p.rooks_connected@[0], 4096),
        at_most(p.rooks_connected@[1], 4096),
        at_most(p.rook_behind_passed@[0], 4096),
        at_most(p.rook_behind_passed@[1], 4096),
        at_most(p.queen_behind_passed@[0], 4096),
        at_most(p.queen_behind_passed@[1], 4096),
        at_most(p.queen_under_pawn_attack@[0], 4096),
        at_most(p.queen_under_pawn_attack@[1], 4096),
        at_most(p.minor_coordination@[0], 4096),
        at_most(p.minor_coordination@[1], 4096),
        at_most(p.weak_minor, 4096),
        at_most(p.pawn_attack_bonus, 4096),
        at_most(p.rook_open@[0], 4096),
        at_most(p.rook_open@[1], 4096),
        at_most(p.rook_semi_open@[0], 4096),
        at_most(p.rook_semi_open@[1], 4096),
        at_most(p.rook_seventh@[0], 4096),
        at_most(p.rook_seventh@[1], 4096),
        at_most(p.space_mg, 4096),
        at_most(p.space_eg, 4096),
        at_most(p.phase_queen, 4096),
        at_most(p.phase_rook, 4096),
        at_most(p.phase_bishop, 4096),
        at_most(p.phase_knight, 4096),
        at_most(p.phase_max, 4096),
{
    assert(at_most(entry(p, 0), 4096));
    assert(at_most(entry(p, 1), 4096));
    assert(at_most(entry(p, 2), 4096));
    assert(at_most(entry(p, 3), 4096));
    assert(at_most(entry(p, 4), 4096));
    assert(at_most(entry(p, 5), 4096));
    assert(at_most(entry(p, 6), 4096));
    assert(at_most(entry(p, 7), 4096));
    assert(at_most(entry(p, 8), 4096));
    assert(at_most(entry(p, 9), 4096));
    assert(at_most(entry(p, 10), 4096));
    assert(at_most(entry(p, 11), 4096));
    assert(at_most(entry(p, 12), 4096));
    assert(at_most(entry(p, 13), 4096));
    assert(at_most(entry(p, 14), 4096));
    assert(at_most(entry(p, 15), 4096));
    assert(at_most(entry(p, 16), 4096));
    assert(at_most(entry(p, 17), 4096));
    assert(at_most(entry(p, 18), 4096));
    assert(at_most(entry(p, 19), 4096));
    assert(at_most(entry(p, 20), 4096));
    assert(at_most(entry(p, 21), 4096));
    assert(at_most(entry(p, 22), 4096));
    assert(at_most(entry(p, 23), 4096));
    assert(at_most(entry(p, 24), 4096));
    assert(at_most(entry(p, 25), 4096));
    assert(at_most(entry(p, 26), 4096));
    assert(at_most(entry(p, 27), 4096));
    assert(at_most(entry(p, 28), 4096));
    assert(at_most(entry(p, 29), 4096));
    assert(at_most(entry(p, 30), 4096));
    assert(at_most(entry(p, 31), 4096));
    assert(at_most(entry(p, 32), 4096));
    assert(at_most(entry(p, 33), 4096));
    assert(at_most(entry(p, 34), 4096));
    assert(at_most(entry(p, 35), 4096));
    assert(at_most(entry(p, 36), 4096));
    assert(at_most(entry(p, 37), 4096));
    assert(at_most(entry(p, 38), 4096));
    assert(at_most(entry(p, 39), 4096));
    assert(at_most(entry(p, 40), 4096));
    assert(at_most(entry(p, 41), 4096));
    assert(at_most(entry(p, 42), 4096));
    assert(at_most(entry(p, 43), 4096));
    assert(at_most(entry(p, 44), 4096));
    assert(at_most(entry(p, 45), 4096));
    assert(at_most(entry(p, 46), 4096));
    assert(at_most(entry(p, 47), 4096));
    assert(at_most(entry(p, 48), 4096));
    assert(at_most(entry(p, 49), 4096));
    assert(at_most(entry(p, 50), 4096));
    assert(at_most(entry(p, 51), 4096));
    assert(at_most(entry(p, 52), 4096));
    assert(at_most(entry(p, 53), 4096));
    assert(at_most(entry(p, 54), 4096));
    assert(at_most(entry(p, 55), 4096));
    assert(at_most(entry(p, 56), 4096));
    assert(at_most(entry(p, 57), 4096));
    assert(at_most(entry(p, 58), 4096));
    assert(at_most(entry(p, 59), 4096));
    assert(at_most(entry(p, 60), 4096));
    assert(at_most(entry(p, 61), 4096));
    assert(at_most(entry(p, 62), 4096));
    assert(at_most(entry(p, 63), 4096));
    assert(at_most(entry(p, 64), 4096));
    assert(at_most(entry(p, 65), 4096));
    assert(at_most(entry(p, 66), 4096));
    assert(at_most(entry(p, 67), 4096));
    assert(at_most(entry(p, 68), 4096));
    assert(at_most(entry(p, 69), 4096));
    assert(at_most(entry(p, 70), 4096));
    assert(at_most(entry(p, 71), 4096));
    assert(at_most(entry(p, 72), 4096));
    assert(at_most(entry(p, 73), 4096));
}

} // verus!
