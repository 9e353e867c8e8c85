//! Tunable search parameters, read and written by name.
use vstd::prelude::*;
use crate::text::{chars_of, chars_eq, push_str};

verus! {

/// Tunable search parameters.
#[derive(Debug, Clone, Copy, PartialEq, Eq, Structural)]
pub struct SearchParams {
    /// Base reduction of late move reductions.
    pub lmr_base_reduction: i32,
    /// Moves searched before late move reductions start.
    pub lmr_move_threshold: usize,
    /// Depth from which late move reductions start.
    pub lmr_depth_threshold: i32,
    /// Null move reduction.
    pub null_move_r: i32,
    /// Minimum depth for a null move.
    pub null_move_min_depth: i32,
    /// Futility margin at depth 1.
    pub futility_margin_d1: i32,
    /// Futility margin at depth 2.
    pub futility_margin_d2: i32,
    /// Futility margin at depth 3.
    pub futility_margin_d3: i32,
    /// Reverse futility margin at depth 1.
    pub rfp_margin_d1: i32,
    /// Reverse futility margin at depth 2.
    pub rfp_margin_d2: i32,
    /// Reverse futility margin at depth 3.
    pub rfp_margin_d3: i32,
    /// Reverse futility margin at depth 4.
    pub rfp_margin_d4: i32,
    /// Reverse futility margin at depth 5.
    pub rfp_margin_d5: i32,
    /// Razoring margin at depth 1.
    pub razor_margin_d1: i32,
    /// Razoring margin at depth 2.
    pub razor_margin_d2: i32,
    /// Razoring margin at depth 3.
    pub razor_margin_d3: i32,
    /// Late move pruning threshold at depth 1.
    pub lmp_threshold_d1: usize,
    /// Late move pruning threshold at depth 2.
    pub lmp_threshold_d2: usize,
    /// Late move pruning threshold at depth 3.
    pub lmp_threshold_d3: usize,
    /// Initial aspiration window half-width.
    pub aspiration_delta: i32,
    /// Internal iterative deepening depth reduction.
    pub iid_depth_reduction: i32,
    /// Internal iterative reduction depth reduction.
    pub iir_depth_reduction: i32,
    /// Minimum depth for internal iterative deepening.
    pub iid_min_depth: i32,
    /// Margin of the singular extension test.
    pub singular_margin: i32,
    /// Depth reduction of the singular extension test.
    pub singular_depth_reduction: i32,
    /// Minimum depth for singular extensions.
    pub singular_min_depth: i32,
    /// King safety scaling divisor.
    pub king_safety_divisor: i32,
}

/// The default parameters.
pub open spec fn default_params() -> SearchParams {
    SearchParams {
        lmr_base_reduction: 2,
        lmr_move_threshold: 6,
        lmr_depth_threshold: 6,
        null_move_r: 2,
        null_move_min_depth: 3,
        futility_margin_d1: 100,
        futility_margin_d2: 200,
        futility_margin_d3: 300,
        rfp_margin_d1: 100,
        rfp_margin_d2: 200,
        rfp_margin_d3: 300,
        rfp_margin_d4: 400,
        rfp_margin_d5: 500,
        razor_margin_d1: 200,
        razor_margin_d2: 300,
        razor_margin_d3: 400,
        lmp_threshold_d1: 3,
        lmp_threshold_d2: 6,
        lmp_threshold_d3: 12,
        aspiration_delta: 50,
        iid_depth_reduction: 2,
        iir_depth_reduction: 1,
        iid_min_depth: 4,
        singular_margin: 100,
        singular_depth_reduction: 4,
        singular_min_depth: 8,
        king_safety_divisor: 12,
    }
}

impl Default for SearchParams {
    fn default() -> (r: SearchParams)
        ensures
            r == default_params(),
    {
        SearchParams {
            lmr_base_reduction: 2,
            lmr_move_threshold: 6,
            lmr_depth_threshold: 6,
            null_move_r: 2,
            null_move_min_depth: 3,
            futility_margin_d1: 100,
            futility_margin_d2: 200,
            futility_margin_d3: 300,
            rfp_margin_d1: 100,
            rfp_margin_d2: 200,
            rfp_margin_d3: 300,
            rfp_margin_d4: 400,
            rfp_margin_d5: 500,
            razor_margin_d1: 200,
            razor_margin_d2: 300,
            razor_margin_d3: 400,
            lmp_threshold_d1: 3,
            lmp_threshold_d2: 6,
            lmp_threshold_d3: 12,
            aspiration_delta: 50,
            iid_depth_reduction: 2,
            iir_depth_reduction: 1,
            iid_min_depth: 4,
            singular_margin: 100,
            singular_depth_reduction: 4,
            singular_min_depth: 8,
            king_safety_divisor: 12,
        }
    }
}

/// The number of parameters.
pub const PARAM_COUNT: usize = 27;

/// The name of parameter `i`, in declaration order.
pub open spec fn param_name(i: int) -> Seq<char> {
    if i == 0 {
        "lmr_base_reduction"@
    } else if i == 1 {
        "lmr_move_threshold"@
    } else if i == 2 {
        "lmr_depth_threshold"@
    } else if i == 3 {
        "null_move_r"@
    } else if i == 4 {
        "null_move_min_depth"@
    } else if i == 5 {
        "futility_margin_d1"@
    } else if i == 6 {
        "futility_margin_d2"@
    } else if i == 7 {
        "futility_margin_d3"@
    } else if i == 8 {
        "rfp_margin_d1"@
    } else if i == 9 {
        "rfp_margin_d2"@
    } else if i == 10 {
        "rfp_margin_d3"@
    } else if i == 11 {
        "rfp_margin_d4"@
    } else if i == 12 {
        "rfp_margin_d5"@
    } else if i == 13 {
        "razor_margin_d1"@
    } else if i == 14 {
        "razor_margin_d2"@
    } else if i == 15 {
        "razor_margin_d3"@
    } else if i == 16 {
        "lmp_threshold_d1"@
    } else if i == 17 {
        "lmp_threshold_d2"@
    } else if i == 18 {
        "lmp_threshold_d3"@
    } else if i == 19 {
        "aspiration_delta"@
    } else if i == 20 {
        "iid_depth_reduction"@
    } else if i == 21 {
        "iir_depth_reduction"@
    } else if i == 22 {
        "iid_min_depth"@
    } else if i == 23 {
        "singular_margin"@
    } else if i == 24 {
        "singular_depth_reduction"@
    } else if i == 25 {
        "singular_min_depth"@
    } else {
        "king_safety_divisor"@
    }
}

/// The value of parameter `i` (the thresholds cast to `i32`).
pub open spec fn param_value(p: SearchParams, i: int) -> i32 {
    if i == 0 {
        p.lmr_base_reduction
    } else if i == 1 {
        p.lmr_move_threshold as i32
    } else if i == 2 {
        p.lmr_depth_threshold
    } else if i == 3 {
        p.null_move_r
    } else if i == 4 {
        p.null_move_min_depth
    } else if i == 5 {
        p.futility_margin_d1
    } else if i == 6 {
        p.futility_margin_d2
    } else if i == 7 {
        p.futility_margin_d3
    } else if i == 8 {
        p.rfp_margin_d1
    } else if i == 9 {
        p.rfp_margin_d2
    } else if i == 10 {
        p.rfp_margin_d3
    } else if i == 11 {
        p.rfp_margin_d4
    } else if i == 12 {
        p.rfp_margin_d5
    } else if i == 13 {
        p.razor_margin_d1
    } else if i == 14 {
        p.razor_margin_d2
    } else if i == 15 {
        p.razor_margin_d3
    } else if i == 16 {
        p.lmp_threshold_d1 as i32
    } else if i == 17 {
        p.lmp_threshold_d2 as i32
    } else if i == 18 {
        p.lmp_threshold_d3 as i32
    } else if i == 19 {
        p.aspiration_delta
    } else if i == 20 {
        p.iid_depth_reduction
    } else if i == 21 {
        p.iir_depth_reduction
    } else if i == 22 {
        p.iid_min_depth
    } else if i == 23 {
        p.singular_margin
    } else if i == 24 {
        p.singular_depth_reduction
    } else if i == 25 {
        p.singular_min_depth
    } else {
        p.king_safety_divisor
    }
}

/// The parameters with parameter `i` set to `v` (the thresholds cast to
/// `usize`).
pub open spec fn with_param(p: SearchParams, i: int, v: i32) -> SearchParams {
    if i == 0 {
        SearchParams { lmr_base_reduction: v, ..p }
    } else if i == 1 {
        SearchParams { lmr_move_threshold: v as usize, ..p }
    } else if i == 2 {
        SearchParams { lmr_depth_threshold: v, ..p }
    } else if i == 3 {
        SearchParams { null_move_r: v, ..p }
    } else if i == 4 {
        SearchParams { null_move_min_depth: v, ..p }
    } else if i == 5 {
        SearchParams { futility_margin_d1: v, ..p }
    } else if i == 6 {
        SearchParams { futility_margin_d2: v, ..p }
    } else if i == 7 {
        SearchParams { futility_margin_d3: v, ..p }
    } else if i == 8 {
        SearchParams { rfp_margin_d1: v, ..p }
    } else if i == 9 {
        SearchParams { rfp_margin_d2: v, ..p }
    } else if i == 10 {
        SearchParams { rfp_margin_d3: v, ..p }
    } else if i == 11 {
        SearchParams { rfp_margin_d4: v, ..p }
    } else if i == 12 {
        SearchParams { rfp_margin_d5: v, ..p }
    } else if i == 13 {
        SearchParams { razor_margin_d1: v, ..p }
    } else if i == 14 {
        SearchParams { razor_margin_d2: v, ..p }
    } else if i == 15 {
        SearchParams { razor_margin_d3: v, ..p }
    } else if i == 16 {
        SearchParams { lmp_threshold_d1: v as usize, ..p }
    } else if i == 17 {
        SearchParams { lmp_threshold_d2: v as usize, ..p }
    } else if i == 18 {
        SearchParams { lmp_threshold_d3: v as usize, ..p }
    } else if i == 19 {
        SearchParams { aspiration_delta: v, ..p }
    } else if i == 20 {
        SearchParams { iid_depth_reduction: v, ..p }
    } else if i == 21 {
        SearchParams { iir_depth_reduction: v, ..p }
    } else if i == 22 {
        SearchParams { iid_min_depth: v, ..p }
    } else if i == 23 {
        SearchParams { singular_margin: v, ..p }
    } else if i == 24 {
        SearchParams { singular_depth_reduction: v, ..p }
    } else if i == 25 {
        SearchParams { singular_min_depth: v, ..p }
    } else {
        SearchParams { king_safety_divisor: v, ..p }
    }
}

/// Setting a parameter and reading it back gives the value set, the
/// thresholds included; every other parameter keeps its value.
pub proof fn lemma_set_then_get(p: SearchParams, i: int, v: i32)
    requires
        0 <= i < PARAM_COUNT,
    ensures
        param_value(with_param(p, i, v), i) == v,
        forall|j: int| 0 <= j < PARAM_COUNT && j != i ==> #[trigger] param_value(with_param(p, i, v), j) == param_value(p, j),
{
    assert((v as usize) as i32 == v) by (bit_vector);
}

/// The first index from `k` on of a parameter called `name`.
pub open spec fn index_from(name: Seq<char>, k: int) -> Option<int>
    decreases PARAM_COUNT - k,
{
    if k >= PARAM_COUNT || k < 0 {
        None
    } else if param_name(k) == name {
        Some(k)
    } else {
        index_from(name, k + 1)
    }
}

/// The index of the parameter called `name`, if there is one.
pub open spec fn name_index(name: Seq<char>) -> Option<int> {
    index_from(name, 0)
}

/// The message for an unknown parameter name.
pub open spec fn unknown_message(name: Seq<char>) -> Seq<char> {
    "Unknown parameter: "@ + name
}

/// The name of parameter `i`.
fn name_at(i: usize) -> (r: &'static str)
    requires
        i < PARAM_COUNT,
    ensures
        r@ == param_name(i as int),
{
    match i {
        0 => "lmr_base_reduction",
        1 => "lmr_move_threshold",
        2 => "lmr_depth_threshold",
        3 => "null_move_r",
        4 => "null_move_min_depth",
        5 => "futility_margin_d1",
        6 => "futility_margin_d2",
        7 => "futility_margin_d3",
        8 => "rfp_margin_d1",
        9 => "rfp_margin_d2",
        10 => "rfp_margin_d3",
        11 => "rfp_margin_d4",
        12 => "rfp_margin_d5",
        13 => "razor_margin_d1",
        14 => "razor_margin_d2",
        15 => "razor_margin_d3",
        16 => "lmp_threshold_d1",
        17 => "lmp_threshold_d2",
        18 => "lmp_threshold_d3",
        19 => "aspiration_delta",
        20 => "iid_depth_reduction",
        21 => "iir_depth_reduction",
        22 => "iid_min_depth",
        23 => "singular_margin",
        24 => "singular_depth_reduction",
        25 => "singular_min_depth",
        _ => "king_safety_divisor",
    }
}

/// The index of the parameter called `name`, if there is one.
fn index_of_name(name: &str) -> (r: Option<usize>)
    ensures
        r matches Some(i) ==> i < PARAM_COUNT && name_index(name@) == Some(i as int),
        r is None ==> name_index(name@) is None,
{
    let chars = chars_of(name);
    let mut i: usize = 0;
    while i < PARAM_COUNT
        invariant
            i <= PARAM_COUNT,
            chars@ == name@,
            name_index(name@) == index_from(name@, i as int),
        decreases PARAM_COUNT - i,
    {
        let candidate = chars_of(name_at(i));
        if chars_eq(chars.as_slice(), candidate.as_slice()) {
            return Some(i);
        }
        i += 1;
    }
    None
}

/// The message for an unknown parameter name.
fn unknown(name: &str) -> (r: String)
    ensures
        r@ == unknown_message(name@),
{
    let mut s = String::new();
    push_str(&mut s, "Unknown parameter: ");
    push_str(&mut s, name);
    s
}

impl SearchParams {
    /// The value of parameter `i`.
    fn value_at(&self, i: usize) -> (r: i32)
        requires
            i < PARAM_COUNT,
        ensures
            r == param_value(*self, i as int),
    {
        match i {
            0 => self.lmr_base_reduction,
            1 => self.lmr_move_threshold as i32,
            2 => self.lmr_depth_threshold,
            3 => self.null_move_r,
            4 => self.null_move_min_depth,
            5 => self.futility_margin_d1,
            6 => self.futility_margin_d2,
            7 => self.futility_margin_d3,
            8 => self.rfp_margin_d1,
            9 => self.rfp_margin_d2,
            10 => self.rfp_margin_d3,
            11 => self.rfp_margin_d4,
            12 => self.rfp_margin_d5,
            13 => self.razor_margin_d1,
            14 => self.razor_margin_d2,
            15 => self.razor_margin_d3,
            16 => self.lmp_threshold_d1 as i32,
            17 => self.lmp_threshold_d2 as i32,
            18 => self.lmp_threshold_d3 as i32,
            19 => self.aspiration_delta,
            20 => self.iid_depth_reduction,
            21 => self.iir_depth_reduction,
            22 => self.iid_min_depth,
            23 => self.singular_margin,
            24 => self.singular_depth_reduction,
            25 => self.singular_min_depth,
            _ => self.king_safety_divisor,
        }
    }

    /// Set parameter `i`.
    fn set_at(&mut self, i: usize, value: i32)
        requires
            i < PARAM_COUNT,
        ensures
            *final(self) == with_param(*old(self), i as int, value),
    {
        match i {
            0 => self.lmr_base_reduction = value,
            1 => self.lmr_move_threshold = value as usize,
            2 => self.lmr_depth_threshold = value,
            3 => self.null_move_r = value,
            4 => self.null_move_min_depth = value,
            5 => self.futility_margin_d1 = value,
            6 => self.futility_margin_d2 = value,
            7 => self.futility_margin_d3 = value,
            8 => self.rfp_margin_d1 = value,
            9 => self.rfp_margin_d2 = value,
            10 => self.rfp_margin_d3 = value,
            11 => self.rfp_margin_d4 = value,
            12 => self.rfp_margin_d5 = value,
            13 => self.razor_margin_d1 = value,
            14 => self.razor_margin_d2 = value,
            15 => self.razor_margin_d3 = value,
            16 => self.lmp_threshold_d1 = value as usize,
            17 => self.lmp_threshold_d2 = value as usize,
            18 => self.lmp_threshold_d3 = value as usize,
            19 => self.aspiration_delta = value,
            20 => self.iid_depth_reduction = value,
            21 => self.iir_depth_reduction = value,
            22 => self.iid_min_depth = value,
            23 => self.singular_margin = value,
            24 => self.singular_depth_reduction = value,
            25 => self.singular_min_depth = value,
            _ => self.king_safety_divisor = value,
        }
    }

    /// Set the parameter called `name`; an unknown name is an error and
    /// changes nothing.
    pub fn set_by_name(&mut self, name: &str, value: i32) -> (r: Result<(), String>)
        ensures
            match name_index(name@) {
                Some(i) => r is Ok && *final(self) == with_param(*old(self), i, value),
                None => r matches Err(e) && e@ == unknown_message(name@) && *final(self) == *old(self),
            },
    {
        match index_of_name(name) {
            Some(i) => {
                self.set_at(i, value);
                Ok(())
            },
            None => Err(unknown(name)),
        }
    }

    /// The value of the parameter called `name`; an unknown name is an
    /// error.
    pub fn get_by_name(&self, name: &str) -> (r: Result<i32, String>)
        ensures
            match name_index(name@) {
                Some(i) => r == Ok::<i32, String>(param_value(*self, i)),
                None => r matches Err(e) && e@ == unknown_message(name@),
            },
    {
        match index_of_name(name) {
            Some(i) => Ok(self.value_at(i)),
            None => Err(unknown(name)),
        }
    }

    /// The names of all parameters, in declaration order.
    pub fn param_names() -> (r: Vec<&'static str>)
        ensures
            r@.len() == PARAM_COUNT,
            forall|i: int| 0 <= i < PARAM_COUNT ==> (#[trigger] r@[i])@ == param_name(i),
    {
        let mut names: Vec<&'static str> = Vec::new();
        let mut i: usize = 0;
        while i < PARAM_COUNT
            invariant
                i <= PARAM_COUNT,
                names@.len() == i,
                forall|j: int| 0 <= j < i ==> (#[trigger] names@[j])@ == param_name(j),
            decreases PARAM_COUNT - i,
        {
            names.push(name_at(i));
            i += 1;
        }
        names
    }
}

} // verus!
