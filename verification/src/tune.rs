use vstd::prelude::*;
use crate::text::{push_str, push_decimal, decimal};

verus! {

/// Tunable evaluation parameters.
#[derive(Debug, Clone)]
pub struct TuningParams {
    /// Divisor of the piece-square score.
    pub pst_scale: i32,
    /// Doubled pawn penalty, middlegame.
    pub doubled_pawn_mg: i32,
    /// Doubled pawn penalty, endgame.
    pub doubled_pawn_eg: i32,
    /// Isolated pawn penalty, middlegame.
    pub isolated_pawn_mg: i32,
    /// Isolated pawn penalty, endgame.
    pub isolated_pawn_eg: i32,
    /// Backward pawn penalty, middlegame.
    pub backward_pawn_mg: i32,
    /// Backward pawn penalty, endgame.
    pub backward_pawn_eg: i32,
    /// Protected pawn bonus, middlegame.
    pub protected_pawn_mg: i32,
    /// Protected pawn bonus, endgame.
    pub protected_pawn_eg: i32,
    /// Pawn island penalty, middlegame.
    pub pawn_island_mg: i32,
    /// Pawn island penalty, endgame.
    pub pawn_island_eg: i32,
    /// Passed pawn bonus by rank, middlegame.
    pub passed_pawn_mg: [i32; 8],
    /// Passed pawn bonus by rank, endgame.
    pub passed_pawn_eg: [i32; 8],
    /// Mobility scale.
    pub mobility_scale: i32,
    /// King safety scale.
    pub king_safety_scale: i32,
    /// Divisor of the pawn structure score.
    pub pawn_structure_divisor: i32,
    /// Divisor of the mobility score.
    pub mobility_divisor: i32,
    /// Divisor of the king safety score.
    pub king_safety_divisor: i32,
    /// Divisor of the threat score.
    pub threat_divisor: i32,
}

/// The value of parameter `index` (0 to 25): the thirteen scalars in
/// declaration order up to the mobility divisor, then the passed pawn
/// bonuses of ranks 3 to 8 alternating middlegame and endgame.
pub open spec fn param_at(p: TuningParams, index: int) -> i32 {
    if index == 0 { p.pst_scale }
    else if index == 1 { p.doubled_pawn_mg }
    else if index == 2 { p.doubled_pawn_eg }
    else if index == 3 { p.isolated_pawn_mg }
    else if index == 4 { p.isolated_pawn_eg }
    else if index == 5 { p.backward_pawn_mg }
    else if index == 6 { p.backward_pawn_eg }
    else if index == 7 { p.protected_pawn_mg }
    else if index == 8 { p.protected_pawn_eg }
    else if index == 9 { p.pawn_island_mg }
    else if index == 10 { p.pawn_island_eg }
    else if index == 11 { p.mobility_scale }
    else if index == 12 { p.pawn_structure_divisor }
    else if index == 13 { p.mobility_divisor }
    else if (index - 14) % 2 == 0 { p.passed_pawn_mg@[(index - 14) / 2 + 2] }
    else { p.passed_pawn_eg@[(index - 14) / 2 + 2] }
}

/// The names of the thirteen scalar parameters up to the mobility divisor.
pub open spec fn fixed_names() -> Seq<Seq<char>> {
    seq!["pst_scale"@, "doubled_pawn_mg"@, "doubled_pawn_eg"@, "isolated_pawn_mg"@, "isolated_pawn_eg"@,
        "backward_pawn_mg"@, "backward_pawn_eg"@, "protected_pawn_mg"@, "protected_pawn_eg"@, "pawn_island_mg"@,
        "pawn_island_eg"@, "mobility_scale"@, "pawn_structure_divisor"@, "mobility_divisor"@]
}

/// The name of parameter `index` (0 to 25): the scalar's field name, then
/// `passed_pawn_mg_r<rank>` and `passed_pawn_eg_r<rank>` for ranks 2 to 7.
pub open spec fn tuning_param_name(index: int) -> Seq<char> {
    if index < 14 {
        fixed_names()[index]
    } else if (index - 14) % 2 == 0 {
        "passed_pawn_mg_r"@ + decimal(((index - 14) / 2 + 2) as nat)
    } else {
        "passed_pawn_eg_r"@ + decimal(((index - 14) / 2 + 2) as nat)
    }
}

impl TuningParams {
    /// The parameters the evaluation uses by default.
    pub fn from_current_eval() -> (r: TuningParams)
        ensures
            r.pst_scale == 4,
            r.pawn_structure_divisor == 4,
            r.mobility_divisor == 8,
            r.king_safety_divisor == 12,
            r.threat_divisor == 8,
            r.doubled_pawn_mg == -15 && r.doubled_pawn_eg == -15,
            r.isolated_pawn_mg == -15 && r.isolated_pawn_eg == -20,
            r.backward_pawn_mg == -10 && r.backward_pawn_eg == -15,
            r.protected_pawn_mg == 5 && r.protected_pawn_eg == 10,
            r.pawn_island_mg == -10 && r.pawn_island_eg == -15,
            r.passed_pawn_mg@ == seq![0i32, 0, 10, 15, 30, 50, 80, 0],
            r.passed_pawn_eg@ == seq![0i32, 0, 15, 25, 50, 90, 150, 0],
            r.mobility_scale == 8,
            r.king_safety_scale == 0,
    {
        TuningParams {
            pst_scale: 4,
            doubled_pawn_mg: -15,
            doubled_pawn_eg: -15,
            isolated_pawn_mg: -15,
            isolated_pawn_eg: -20,
            backward_pawn_mg: -10,
            backward_pawn_eg: -15,
            protected_pawn_mg: 5,
            protected_pawn_eg: 10,
            pawn_island_mg: -10,
            pawn_island_eg: -15,
            passed_pawn_mg: [0, 0, 10, 15, 30, 50, 80, 0],
            passed_pawn_eg: [0, 0, 15, 25, 50, 90, 150, 0],
            mobility_scale: 8,
            king_safety_scale: 0,
            pawn_structure_divisor: 4,
            mobility_divisor: 8,
            king_safety_divisor: 12,
            threat_divisor: 8,
        }
    }

    /// The number of parameters reachable by index.
    pub fn param_count() -> (r: usize)
        ensures
            r == 26,
    {
        26
    }

    /// The parameter at `index` (see `param_at`).
    pub fn get_param(&self, index: usize) -> (r: i32)
        requires
            index < 26,
        ensures
            r == param_at(*self, index as int),
    {
        match index {
            0 => self.pst_scale,
            1 => self.doubled_pawn_mg,
            2 => self.doubled_pawn_eg,
            3 => self.isolated_pawn_mg,
            4 => self.isolated_pawn_eg,
            5 => self.backward_pawn_mg,
            6 => self.backward_pawn_eg,
            7 => self.protected_pawn_mg,
            8 => self.protected_pawn_eg,
            9 => self.pawn_island_mg,
            10 => self.pawn_island_eg,
            11 => self.mobility_scale,
            12 => self.pawn_structure_divisor,
            13 => self.mobility_divisor,
            _ => {
                let rank_idx = (index - 14) / 2 + 2;
                if (index - 14) % 2 == 0 {
                    self.passed_pawn_mg[rank_idx]
                } else {
                    self.passed_pawn_eg[rank_idx]
                }
            },
        }
    }

    /// Set the parameter at `index`; the others stay as they were.
    pub fn set_param(&mut self, index: usize, value: i32)
        requires
            index < 26,
        ensures
            param_at(*final(self), index as int) == value,
            forall|j: int| 0 <= j < 26 && j != index ==> #[trigger] param_at(*final(self), j) == param_at(*old(self), j),
            final(self).king_safety_scale == old(self).king_safety_scale,
            final(self).king_safety_divisor == old(self).king_safety_divisor,
            final(self).threat_divisor == old(self).threat_divisor,
    {
        match index {
            0 => self.pst_scale = value,
            1 => self.doubled_pawn_mg = value,
            2 => self.doubled_pawn_eg = value,
            3 => self.isolated_pawn_mg = value,
            4 => self.isolated_pawn_eg = value,
            5 => self.backward_pawn_mg = value,
            6 => self.backward_pawn_eg = value,
            7 => self.protected_pawn_mg = value,
            8 => self.protected_pawn_eg = value,
            9 => self.pawn_island_mg = value,
            10 => self.pawn_island_eg = value,
            11 => self.mobility_scale = value,
            12 => self.pawn_structure_divisor = value,
            13 => self.mobility_divisor = value,
            _ => {
                let rank_idx = (index - 14) / 2 + 2;
                if (index - 14) % 2 == 0 {
                    self.passed_pawn_mg[rank_idx] = value;
                } else {
                    self.passed_pawn_eg[rank_idx] = value;
                }
            },
        }
    }

    /// The names of the parameters, in index order (see `tuning_param_name`).
    pub fn param_names() -> (r: Vec<String>)
        ensures
            r@.len() == 26,
            forall|i: int| 0 <= i < 26 ==> (#[trigger] r@[i])@ == tuning_param_name(i),
    {
        let mut names: Vec<String> = Vec::new();
        let fixed = ["pst_scale", "doubled_pawn_mg", "doubled_pawn_eg", "isolated_pawn_mg", "isolated_pawn_eg",
            "backward_pawn_mg", "backward_pawn_eg", "protected_pawn_mg", "protected_pawn_eg", "pawn_island_mg",
            "pawn_island_eg", "mobility_scale", "pawn_structure_divisor", "mobility_divisor"];
        assert(fixed@.len() == 14 && forall|j: int| 0 <= j < 14 ==> (#[trigger] fixed@[j])@ == fixed_names()[j]);
        let mut i: usize = 0;
        while i < 14
            invariant
                i <= 14,
                names@.len() == i,
                fixed@.len() == 14,
                forall|j: int| 0 <= j < 14 ==> (#[trigger] fixed@[j])@ == fixed_names()[j],
                forall|j: int| 0 <= j < i ==> (#[trigger] names@[j])@ == tuning_param_name(j),
            decreases 14 - i,
        {
            let mut s = String::new();
            push_str(&mut s, fixed[i]);
            assert(s@ =~= fixed_names()[i as int]);
            names.push(s);
            i += 1;
        }
        let mut rank: u64 = 2;
        while rank <= 7
            invariant
                2 <= rank <= 8,
                names@.len() == 14 + 2 * (rank - 2),
                forall|j: int| 0 <= j < names@.len() ==> (#[trigger] names@[j])@ == tuning_param_name(j),
            decreases 8 - rank,
        {
            let mut mg = String::new();
            push_str(&mut mg, "passed_pawn_mg_r");
            push_decimal(&mut mg, rank);
            names.push(mg);
            let mut eg = String::new();
            push_str(&mut eg, "passed_pawn_eg_r");
            push_decimal(&mut eg, rank);
            names.push(eg);
            proof {
                let k = 14 + 2 * (rank - 2);
                assert((k - 14) / 2 + 2 == rank && (k - 14) % 2 == 0);
                assert((k + 1 - 14) / 2 + 2 == rank && (k + 1 - 14) % 2 == 1);
                assert(names@[k]@ =~= tuning_param_name(k));
                assert(names@[k + 1]@ =~= tuning_param_name(k + 1));
            }
            rank += 1;
        }
        names
    }
}

} // verus!
