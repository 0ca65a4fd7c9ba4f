use crate::board::{Board, BoardView};
use crate::common::{Move, Piece, div_trunc};
use crate::search::history::{butterfly_index, cont_entry, duck_index, ContIndices, History, HistoryView, MAX_HISTORY, PAWN_HIST_SIZE};
use crate::search::history::pawn::{has_mover, pawn_index};
use vstd::prelude::*;

verus! {

// Search parameters.
pub const PAWN_CORR: i32 = 64;
pub const MINOR_CORR: i32 = 64;
pub const MAJOR_CORR: i32 = 64;
pub const NONPAWN_CORR: i32 = 64;
pub const CORR_BONUS_SCALE: i64 = 128;
pub const QUIET_BONUS_BASE: i32 = 128;
pub const QUIET_BONUS_SCALE: i32 = 128;
pub const QUIET_BONUS_MAX: i32 = 2048;
pub const QUIET_MALUS_BASE: i32 = 128;
pub const QUIET_MALUS_SCALE: i32 = 128;
pub const QUIET_MALUS_MAX: i32 = 2048;
pub const NOISY_BONUS_BASE: i32 = 128;
pub const NOISY_BONUS_SCALE: i32 = 128;
pub const NOISY_BONUS_MAX: i32 = 2048;
pub const NOISY_MALUS_BASE: i32 = 128;
pub const NOISY_MALUS_SCALE: i32 = 128;
pub const NOISY_MALUS_MAX: i32 = 2048;
pub const PAWN_BONUS_BASE: i32 = 128;
pub const PAWN_BONUS_SCALE: i32 = 128;
pub const PAWN_BONUS_MAX: i32 = 2048;
pub const PAWN_MALUS_BASE: i32 = 128;
pub const PAWN_MALUS_SCALE: i32 = 128;
pub const PAWN_MALUS_MAX: i32 = 2048;
pub const DUCK_BONUS_BASE: i32 = 128;
pub const DUCK_BONUS_SCALE: i32 = 128;
pub const DUCK_BONUS_MAX: i32 = 2048;
pub const DUCK_MALUS_BASE: i32 = 128;
pub const DUCK_MALUS_SCALE: i32 = 128;
pub const DUCK_MALUS_MAX: i32 = 2048;
pub const CONT1_BONUS_BASE: i32 = 128;
pub const CONT1_BONUS_SCALE: i32 = 128;
pub const CONT1_BONUS_MAX: i32 = 2048;
pub const CONT1_MALUS_BASE: i32 = 128;
pub const CONT1_MALUS_SCALE: i32 = 128;
pub const CONT1_MALUS_MAX: i32 = 2048;
pub const CONT2_BONUS_BASE: i32 = 128;
pub const CONT2_BONUS_SCALE: i32 = 128;
pub const CONT2_BONUS_MAX: i32 = 2048;
pub const CONT2_MALUS_BASE: i32 = 128;
pub const CONT2_MALUS_SCALE: i32 = 128;
pub const CONT2_MALUS_MAX: i32 = 2048;
pub const CONT4_BONUS_BASE: i32 = 128;
pub const CONT4_BONUS_SCALE: i32 = 128;
pub const CONT4_BONUS_MAX: i32 = 2048;
pub const CONT4_MALUS_BASE: i32 = 128;
pub const CONT4_MALUS_SCALE: i32 = 128;
pub const CONT4_MALUS_MAX: i32 = 2048;
pub const RFP_BASE: i32 = 0;
pub const RFP_SCALE: i32 = 50;
pub const RFP_IMP_BASE: i32 = -50;
pub const RFP_IMP_SCALE: i32 = 50;
pub const RAZOR_BASE: i32 = 320;
pub const RAZOR_SCALE: i32 = 250;
pub const NMR_MARGIN: i32 = 20;
pub const NMR_REDUCTION_BASE: i32 = 5120;
pub const NMR_REDUCTION_SCALE: i32 = 341;
pub const IID_DEPTH_SCALE: i32 = 768;
pub const IID_DEPTH_REDUCTION: i32 = 1536;
pub const MVV_PAWN: i32 = 100;
pub const MVV_KNIGHT: i32 = 320;
pub const MVV_BISHOP: i32 = 330;
pub const MVV_ROOK: i32 = 500;
pub const MVV_QUEEN: i32 = 900;
pub const SEE_PAWN: i32 = 100;
pub const SEE_KNIGHT: i32 = 320;
pub const SEE_BISHOP: i32 = 330;
pub const SEE_ROOK: i32 = 500;
pub const SEE_QUEEN: i32 = 900;
pub const QUIET_LDP_IMP_THRESHOLD_BASE: i32 = 2;
pub const QUIET_LDP_IMP_THRESHOLD_SCALE: i32 = 2;
pub const QUIET_LDP_THRESHOLD_BASE: i32 = 1;
pub const QUIET_LDP_THRESHOLD_SCALE: i32 = 1;
pub const QUIET_LDP_HISTORY_OFFSET: i32 = -4000;
pub const QUIET_LDP_HISTORY_DIV: i32 = 4000;
pub const QUIET_LDP_HISTORY_MIN: i32 = -2;
pub const QUIET_LDP_HISTORY_MAX: i32 = 2;
pub const NOISY_LDP_IMP_THRESHOLD_BASE: i32 = 4;
pub const NOISY_LDP_IMP_THRESHOLD_SCALE: i32 = 4;
pub const NOISY_LDP_THRESHOLD_BASE: i32 = 4;
pub const NOISY_LDP_THRESHOLD_SCALE: i32 = 4;
pub const DCP_THRESHOLD_IMP_BASE: i32 = 2;
pub const DCP_THRESHOLD_IMP_SCALE: i32 = 1;
pub const DCP_THRESHOLD_BASE: i32 = 4;
pub const DCP_THRESHOLD_SCALE: i32 = 2;
pub const DCP_HISTORY_OFFSET: i32 = -4000;
pub const DCP_HISTORY_DIV: i32 = 4000;
pub const DCP_HISTORY_MIN: i32 = -2;
pub const DCP_HISTORY_MAX: i32 = 2;
pub const SEE_BASE: i32 = 0;
pub const SEE_SCALE: i32 = -80;
pub const SEE_HISTORY_SCALE: i32 = -16;
pub const MP_SEE_THRESHOLD: i32 = 0;
pub const MP_QS_SEE_THRESHOLD: i32 = 0;
pub const MP_QUIET_NEUTRAL_MALUS: i32 = 5000;
pub const QSLDP_THRESHOLD: i32 = 2;
pub const QSDCP_THRESHOLD: i32 = 2;
pub const SOFT_TIME_DIV: u64 = 98304;
pub const SOFT_TIME_INC: u64 = 2048;
pub const HARD_TIME_DIV: u64 = 12288;
pub const HARD_TIME_INC: u64 = 4096;
pub const DUCK_STABILITY_BASE: u128 = 5325;
pub const DUCK_STABILITY_SCALE: u128 = 410;
pub const DUCK_STABILITY_MIN: u128 = 2867;
pub const MOVE_STABILITY_BASE: u128 = 5325;
pub const MOVE_STABILITY_SCALE: u128 = 410;
pub const MOVE_STABILITY_MIN: u128 = 2867;
pub const QUIET_LMR_BASE: i32 = 1024;
pub const QUIET_LMR_SCALE: i32 = 448;
pub const LMR_EXACT: i32 = 1024;
pub const LMR_IMP: i32 = 1024;
pub const LMR_PV: i32 = 1024;
pub const LMR_IN_CHECK: i32 = 512;
pub const LMR_HISTORY: i32 = 64;
pub const FP_BASE: i32 = 256;
pub const FP_SCALE: i32 = 128;
pub const NOISY_LMR_NOISY_SCALE: i32 = 128;
pub const NOISY_LMR_DUCK_SCALE: i32 = 128;
pub const QUIET_LMR_QUIET_SCALE: i32 = 1024;
pub const QUIET_LMR_DUCK_SCALE: i32 = 1024;
pub const QUIET_LMR_CONT1_SCALE: i32 = 1024;
pub const QUIET_LMR_CONT2_SCALE: i32 = 1024;
pub const NOISY_MLP_NOISY_SCALE: i32 = 1024;
pub const NOISY_MLP_DUCK_SCALE: i32 = 1024;
pub const QUIET_MP_QUIET_SCALE: i32 = 1024;
pub const QUIET_MP_DUCK_SCALE: i32 = 1024;
pub const QUIET_MP_PAWN_SCALE: i32 = 1024;
pub const QUIET_MP_CONT1_SCALE: i32 = 1024;
pub const QUIET_MP_CONT2_SCALE: i32 = 1024;
pub const QUIET_MP_CONT4_SCALE: i32 = 1024;
pub const NOISY_MP_NOISY_SCALE: i32 = 128;
pub const NOISY_MP_DUCK_SCALE: i32 = 128;

/// The parameters of the search, and the formulas built on them.
pub struct Params;

pub open spec fn min(a: int, b: int) -> int {
    if a < b {
        a
    } else {
        b
    }
}

pub open spec fn max(a: int, b: int) -> int {
    if a > b {
        a
    } else {
        b
    }
}

pub open spec fn clamp(x: int, lo: int, hi: int) -> int {
    if x < lo {
        lo
    } else if x > hi {
        hi
    } else {
        x
    }
}

pub open spec fn two_pow(k: nat) -> int
    decreases k,
{
    if k == 0 {
        1
    } else {
        2 * two_pow((k - 1) as nat)
    }
}

proof fn lemma_log_nonneg(n: int)
    ensures
        floor_log2(n) >= 0,
    decreases n,
{
    if n >= 2 {
        lemma_log_nonneg(n / 2);
    }
}

proof fn lemma_log_below(n: int, k: nat)
    requires
        1 <= n < two_pow(k),
    ensures
        floor_log2(n) < k,
    decreases k,
{
    if n >= 2 {
        assert(k > 0);
        lemma_log_below(n / 2, (k - 1) as nat);
    } else if k == 0 {
        assert(two_pow(0) == 1);
    }
}

proof fn lemma_log_bound(n: int, k: nat)
    requires
        1 <= n <= i32::MAX,
        k == 31,
    ensures
        floor_log2(n) < 31,
{
    reveal_with_fuel(two_pow, 32);
    assert(two_pow(31) == 2147483648);
    lemma_log_below(n, 31);
}

/// `base + scale * depth`, capped at `cap`.
pub open spec fn capped(base: int, scale: int, cap: int, depth: int) -> int {
    min(base + scale * depth, cap)
}

/// The base-2 logarithm of `n`, rounded down.
pub open spec fn floor_log2(n: int) -> int
    decreases n,
{
    if n < 2 {
        0
    } else {
        1 + floor_log2(n / 2)
    }
}

fn capped_exec(base: i32, scale: i32, cap: i32, depth: i32) -> (r: i32)
    requires
        i32::MIN <= scale * depth <= i32::MAX,
        i32::MIN <= base + scale * depth <= i32::MAX,
    ensures
        r == capped(base as int, scale as int, cap as int, depth as int),
{
    let v = base + scale * depth;
    if v < cap {
        v
    } else {
        cap
    }
}

/// The bonus and malus steps are `base + scale * depth` capped, so that they fit in an `i32`.
pub open spec fn step_fits(base: int, scale: int, depth: int) -> bool {
    &&& i32::MIN <= scale * depth <= i32::MAX
    &&& i32::MIN < base + scale * depth <= i32::MAX
}

impl Params {
    /// The correction history update for a search result `diff` away from the static
    /// evaluation at `depth`.
    pub fn corr_bonus(depth: i32, diff: i64) -> (r: i32)
        requires
            i64::MIN <= diff * depth * CORR_BONUS_SCALE <= i64::MAX,
        ensures
            r == div_trunc(diff * depth * CORR_BONUS_SCALE, 1024) as i32,
    {
        assert(i64::MIN <= diff * depth <= i64::MAX) by (nonlinear_arith)
            requires
                i64::MIN <= diff * depth * 128 <= i64::MAX,
        ;
        (diff * depth as i64 * CORR_BONUS_SCALE / 1024) as i32
    }

    pub fn quiet_bonus(depth: i32) -> (r: i32)
        requires
            step_fits(QUIET_BONUS_BASE as int, QUIET_BONUS_SCALE as int, depth as int),
        ensures
            r == capped(QUIET_BONUS_BASE as int, QUIET_BONUS_SCALE as int, QUIET_BONUS_MAX as int, depth as int),
    {
        capped_exec(QUIET_BONUS_BASE, QUIET_BONUS_SCALE, QUIET_BONUS_MAX, depth)
    }

    pub fn quiet_malus(depth: i32) -> (r: i32)
        requires
            step_fits(QUIET_MALUS_BASE as int, QUIET_MALUS_SCALE as int, depth as int),
        ensures
            r == -capped(QUIET_MALUS_BASE as int, QUIET_MALUS_SCALE as int, QUIET_MALUS_MAX as int, depth as int),
    {
        -capped_exec(QUIET_MALUS_BASE, QUIET_MALUS_SCALE, QUIET_MALUS_MAX, depth)
    }

    pub fn noisy_bonus(depth: i32) -> (r: i32)
        requires
            step_fits(NOISY_BONUS_BASE as int, NOISY_BONUS_SCALE as int, depth as int),
        ensures
            r == capped(NOISY_BONUS_BASE as int, NOISY_BONUS_SCALE as int, NOISY_BONUS_MAX as int, depth as int),
    {
        capped_exec(NOISY_BONUS_BASE, NOISY_BONUS_SCALE, NOISY_BONUS_MAX, depth)
    }

    pub fn noisy_malus(depth: i32) -> (r: i32)
        requires
            step_fits(NOISY_MALUS_BASE as int, NOISY_MALUS_SCALE as int, depth as int),
        ensures
            r == -capped(NOISY_MALUS_BASE as int, NOISY_MALUS_SCALE as int, NOISY_MALUS_MAX as int, depth as int),
    {
        -capped_exec(NOISY_MALUS_BASE, NOISY_MALUS_SCALE, NOISY_MALUS_MAX, depth)
    }

    pub fn pawn_bonus(depth: i32) -> (r: i32)
        requires
            step_fits(PAWN_BONUS_BASE as int, PAWN_BONUS_SCALE as int, depth as int),
        ensures
            r == capped(PAWN_BONUS_BASE as int, PAWN_BONUS_SCALE as int, PAWN_BONUS_MAX as int, depth as int),
    {
        capped_exec(PAWN_BONUS_BASE, PAWN_BONUS_SCALE, PAWN_BONUS_MAX, depth)
    }

    pub fn pawn_malus(depth: i32) -> (r: i32)
        requires
            step_fits(PAWN_MALUS_BASE as int, PAWN_MALUS_SCALE as int, depth as int),
        ensures
            r == -capped(PAWN_MALUS_BASE as int, PAWN_MALUS_SCALE as int, PAWN_MALUS_MAX as int, depth as int),
    {
        -capped_exec(PAWN_MALUS_BASE, PAWN_MALUS_SCALE, PAWN_MALUS_MAX, depth)
    }

    pub fn duck_bonus(depth: i32) -> (r: i32)
        requires
            step_fits(DUCK_BONUS_BASE as int, DUCK_BONUS_SCALE as int, depth as int),
        ensures
            r == capped(DUCK_BONUS_BASE as int, DUCK_BONUS_SCALE as int, DUCK_BONUS_MAX as int, depth as int),
    {
        capped_exec(DUCK_BONUS_BASE, DUCK_BONUS_SCALE, DUCK_BONUS_MAX, depth)
    }

    pub fn duck_malus(depth: i32) -> (r: i32)
        requires
            step_fits(DUCK_MALUS_BASE as int, DUCK_MALUS_SCALE as int, depth as int),
        ensures
            r == -capped(DUCK_MALUS_BASE as int, DUCK_MALUS_SCALE as int, DUCK_MALUS_MAX as int, depth as int),
    {
        -capped_exec(DUCK_MALUS_BASE, DUCK_MALUS_SCALE, DUCK_MALUS_MAX, depth)
    }

    /// The `(base, scale, max)` of the continuation history bonus `ply` moves back.
    pub open spec fn cont_bonus_params(ply: int) -> (int, int, int) {
        if ply == 1 {
            (CONT1_BONUS_BASE as int, CONT1_BONUS_SCALE as int, CONT1_BONUS_MAX as int)
        } else if ply == 2 {
            (CONT2_BONUS_BASE as int, CONT2_BONUS_SCALE as int, CONT2_BONUS_MAX as int)
        } else {
            (CONT4_BONUS_BASE as int, CONT4_BONUS_SCALE as int, CONT4_BONUS_MAX as int)
        }
    }

    /// The `(base, scale, max)` of the continuation history malus `ply` moves back.
    pub open spec fn cont_malus_params(ply: int) -> (int, int, int) {
        if ply == 1 {
            (CONT1_MALUS_BASE as int, CONT1_MALUS_SCALE as int, CONT1_MALUS_MAX as int)
        } else if ply == 2 {
            (CONT2_MALUS_BASE as int, CONT2_MALUS_SCALE as int, CONT2_MALUS_MAX as int)
        } else {
            (CONT4_MALUS_BASE as int, CONT4_MALUS_SCALE as int, CONT4_MALUS_MAX as int)
        }
    }

    pub fn cont_bonus<const PLY: usize>(depth: i32) -> (r: i32)
        requires
            PLY == 1 || PLY == 2 || PLY == 4,
            step_fits(Self::cont_bonus_params(PLY as int).0, Self::cont_bonus_params(PLY as int).1, depth as int),
        ensures
            r == capped(
                Self::cont_bonus_params(PLY as int).0,
                Self::cont_bonus_params(PLY as int).1,
                Self::cont_bonus_params(PLY as int).2,
                depth as int,
            ),
    {
        let (base, scale, max) = if PLY == 1 {
            (CONT1_BONUS_BASE, CONT1_BONUS_SCALE, CONT1_BONUS_MAX)
        } else if PLY == 2 {
            (CONT2_BONUS_BASE, CONT2_BONUS_SCALE, CONT2_BONUS_MAX)
        } else {
            (CONT4_BONUS_BASE, CONT4_BONUS_SCALE, CONT4_BONUS_MAX)
        };
        capped_exec(base, scale, max, depth)
    }

    pub fn cont_malus<const PLY: usize>(depth: i32) -> (r: i32)
        requires
            PLY == 1 || PLY == 2 || PLY == 4,
            step_fits(Self::cont_malus_params(PLY as int).0, Self::cont_malus_params(PLY as int).1, depth as int),
        ensures
            r == -capped(
                Self::cont_malus_params(PLY as int).0,
                Self::cont_malus_params(PLY as int).1,
                Self::cont_malus_params(PLY as int).2,
                depth as int,
            ),
    {
        let (base, scale, max) = if PLY == 1 {
            (CONT1_MALUS_BASE, CONT1_MALUS_SCALE, CONT1_MALUS_MAX)
        } else if PLY == 2 {
            (CONT2_MALUS_BASE, CONT2_MALUS_SCALE, CONT2_MALUS_MAX)
        } else {
            (CONT4_MALUS_BASE, CONT4_MALUS_SCALE, CONT4_MALUS_MAX)
        };
        -capped_exec(base, scale, max, depth)
    }

    /// Reverse futility pruning margin.
    pub fn rfp_margin(depth: i32, improving: bool) -> (r: i32)
        requires
            i32::MIN <= (if improving { RFP_IMP_SCALE } else { RFP_SCALE }) * depth <= i32::MAX,
            i32::MIN <= (if improving { RFP_IMP_BASE } else { RFP_BASE }) + (if improving {
                RFP_IMP_SCALE
            } else {
                RFP_SCALE
            }) * depth <= i32::MAX,
        ensures
            r == (if improving { RFP_IMP_BASE } else { RFP_BASE }) + (if improving {
                RFP_IMP_SCALE
            } else {
                RFP_SCALE
            }) * depth,
    {
        let (base, scale) = if improving {
            (RFP_IMP_BASE, RFP_IMP_SCALE)
        } else {
            (RFP_BASE, RFP_SCALE)
        };
        base + scale * depth
    }

    /// Razoring margin.
    pub fn razor_margin(depth: i32) -> (r: i32)
        requires
            i32::MIN <= RAZOR_SCALE * depth <= i32::MAX,
            i32::MIN <= RAZOR_BASE + RAZOR_SCALE * depth <= i32::MAX,
        ensures
            r == RAZOR_BASE + RAZOR_SCALE * depth,
    {
        RAZOR_BASE + RAZOR_SCALE * depth
    }

    /// The `(base, scale)` of the late duck pruning threshold.
    pub open spec fn ldp_params(is_quiet: bool, improving: bool) -> (int, int) {
        if is_quiet {
            if improving {
                (QUIET_LDP_IMP_THRESHOLD_BASE as int, QUIET_LDP_IMP_THRESHOLD_SCALE as int)
            } else {
                (QUIET_LDP_THRESHOLD_BASE as int, QUIET_LDP_THRESHOLD_SCALE as int)
            }
        } else {
            if improving {
                (NOISY_LDP_IMP_THRESHOLD_BASE as int, NOISY_LDP_IMP_THRESHOLD_SCALE as int)
            } else {
                (NOISY_LDP_THRESHOLD_BASE as int, NOISY_LDP_THRESHOLD_SCALE as int)
            }
        }
    }

    /// The late duck pruning threshold's adjustment by duck history, for quiet moves.
    pub open spec fn ldp_history_term(duck_history: int) -> int {
        clamp(
            div_trunc(duck_history + QUIET_LDP_HISTORY_OFFSET, QUIET_LDP_HISTORY_DIV as int),
            QUIET_LDP_HISTORY_MIN as int,
            QUIET_LDP_HISTORY_MAX as int,
        )
    }

    /// Late duck pruning threshold: `base + scale * depth`, for quiet moves moved by the duck
    /// history term.
    pub fn ldp_threshold(depth: i32, is_quiet: bool, improving: bool, duck_history: i32) -> (r: i32)
        requires
            i32::MIN <= Self::ldp_params(is_quiet, improving).1 * depth <= i32::MAX,
            i32::MIN <= Self::ldp_params(is_quiet, improving).0 + Self::ldp_params(is_quiet, improving).1 * depth <= i32::MAX,
            is_quiet ==> duck_history + QUIET_LDP_HISTORY_OFFSET >= i32::MIN,
            is_quiet ==> i32::MIN <= Self::ldp_params(is_quiet, improving).0 + Self::ldp_params(is_quiet, improving).1 * depth
                + Self::ldp_history_term(duck_history as int) <= i32::MAX,
        ensures
            r == Self::ldp_params(is_quiet, improving).0 + Self::ldp_params(is_quiet, improving).1 * depth + if is_quiet {
                Self::ldp_history_term(duck_history as int)
            } else {
                0
            },
    {
        let (base, scale) = if is_quiet {
            if improving {
                (QUIET_LDP_IMP_THRESHOLD_BASE, QUIET_LDP_IMP_THRESHOLD_SCALE)
            } else {
                (QUIET_LDP_THRESHOLD_BASE, QUIET_LDP_THRESHOLD_SCALE)
            }
        } else {
            if improving {
                (NOISY_LDP_IMP_THRESHOLD_BASE, NOISY_LDP_IMP_THRESHOLD_SCALE)
            } else {
                (NOISY_LDP_THRESHOLD_BASE, NOISY_LDP_THRESHOLD_SCALE)
            }
        };
        let mut threshold = base + scale * depth;
        if is_quiet {
            let q = (duck_history + QUIET_LDP_HISTORY_OFFSET) / QUIET_LDP_HISTORY_DIV;
            let adjust = if q < QUIET_LDP_HISTORY_MIN {
                QUIET_LDP_HISTORY_MIN
            } else if q > QUIET_LDP_HISTORY_MAX {
                QUIET_LDP_HISTORY_MAX
            } else {
                q
            };
            threshold += adjust;
        }
        threshold
    }

    /// The duck history term of the duck-capture pruning threshold.
    pub open spec fn dcp_history_term(duck_history: int) -> int {
        clamp(
            div_trunc(duck_history + DCP_HISTORY_OFFSET, DCP_HISTORY_DIV as int),
            DCP_HISTORY_MIN as int,
            DCP_HISTORY_MAX as int,
        )
    }

    pub open spec fn dcp_params(improving: bool) -> (int, int) {
        if improving {
            (DCP_THRESHOLD_IMP_BASE as int, DCP_THRESHOLD_IMP_SCALE as int)
        } else {
            (DCP_THRESHOLD_BASE as int, DCP_THRESHOLD_SCALE as int)
        }
    }

    /// Duck-capture pruning threshold: `base + scale * depth` moved by the duck history term.
    pub fn dcp_threshold(depth: i32, improving: bool, duck_history: i32) -> (r: i32)
        requires
            i32::MIN <= Self::dcp_params(improving).1 * depth <= i32::MAX,
            i32::MIN <= Self::dcp_params(improving).0 + Self::dcp_params(improving).1 * depth <= i32::MAX,
            duck_history + DCP_HISTORY_OFFSET >= i32::MIN,
            i32::MIN <= Self::dcp_params(improving).0 + Self::dcp_params(improving).1 * depth
                + Self::dcp_history_term(duck_history as int) <= i32::MAX,
        ensures
            r == Self::dcp_params(improving).0 + Self::dcp_params(improving).1 * depth
                + Self::dcp_history_term(duck_history as int),
    {
        let (base, scale) = if improving {
            (DCP_THRESHOLD_IMP_BASE, DCP_THRESHOLD_IMP_SCALE)
        } else {
            (DCP_THRESHOLD_BASE, DCP_THRESHOLD_SCALE)
        };
        let mut threshold = base + scale * depth;
        let q = (duck_history + DCP_HISTORY_OFFSET) / DCP_HISTORY_DIV;
        let adjust = if q < DCP_HISTORY_MIN {
            DCP_HISTORY_MIN
        } else if q > DCP_HISTORY_MAX {
            DCP_HISTORY_MAX
        } else {
            q
        };
        threshold += adjust;
        threshold
    }

    pub open spec fn spec_see_margin(depth: int, history: int) -> int {
        SEE_BASE + SEE_SCALE * depth + div_trunc(history * SEE_HISTORY_SCALE, 16384)
    }

    /// Static exchange pruning margin.
    pub fn see_margin(depth: i32, history: i32) -> (r: i32)
        requires
            i32::MIN <= history * SEE_HISTORY_SCALE <= i32::MAX,
            i32::MIN <= SEE_SCALE * depth <= i32::MAX,
            i32::MIN <= SEE_BASE + SEE_SCALE * depth <= i32::MAX,
            i32::MIN <= Self::spec_see_margin(depth as int, history as int) <= i32::MAX,
        ensures
            r == Self::spec_see_margin(depth as int, history as int),
    {
        SEE_BASE + SEE_SCALE * depth + history * SEE_HISTORY_SCALE / 16384
    }

    pub open spec fn spec_mvv_value(piece: Piece) -> int {
        match piece {
            Piece::Pawn => MVV_PAWN as int,
            Piece::Knight => MVV_KNIGHT as int,
            Piece::Bishop => MVV_BISHOP as int,
            Piece::Rook => MVV_ROOK as int,
            Piece::Queen => MVV_QUEEN as int,
            Piece::King => 20000,
        }
    }

    /// The value of a piece for ordering captures (most valuable victim).
    pub fn mvv_value(piece: Piece) -> (r: i32)
        ensures
            r == Self::spec_mvv_value(piece),
    {
        match piece {
            Piece::Pawn => MVV_PAWN,
            Piece::Knight => MVV_KNIGHT,
            Piece::Bishop => MVV_BISHOP,
            Piece::Rook => MVV_ROOK,
            Piece::Queen => MVV_QUEEN,
            Piece::King => 20000,
        }
    }

    pub open spec fn spec_see_value(piece: Piece) -> int {
        match piece {
            Piece::Pawn => SEE_PAWN as int,
            Piece::Knight => SEE_KNIGHT as int,
            Piece::Bishop => SEE_BISHOP as int,
            Piece::Rook => SEE_ROOK as int,
            Piece::Queen => SEE_QUEEN as int,
            Piece::King => 20000,
        }
    }

    /// The value of a piece in static exchange evaluation.
    pub fn see_value(piece: Piece) -> (r: i32)
        ensures
            r == Self::spec_see_value(piece),
    {
        match piece {
            Piece::Pawn => SEE_PAWN,
            Piece::Knight => SEE_KNIGHT,
            Piece::Bishop => SEE_BISHOP,
            Piece::Rook => SEE_ROOK,
            Piece::Queen => SEE_QUEEN,
            Piece::King => 20000,
        }
    }

    /// `max(base - scale * stability, min)`, the subtraction stopping at zero.
    pub open spec fn stability_scale(base: int, scale: int, min_value: int, stability: int) -> int {
        max(if base >= scale * stability { base - scale * stability } else { 0 }, min_value)
    }

    /// Time scale factor for how long the best duck placement has stayed the same.
    pub fn duck_stability(stability: u16) -> (r: u128)
        ensures
            r == Self::stability_scale(DUCK_STABILITY_BASE as int, DUCK_STABILITY_SCALE as int, DUCK_STABILITY_MIN as int, stability as int),
    {
        let v = DUCK_STABILITY_BASE.saturating_sub(DUCK_STABILITY_SCALE * stability as u128);
        if v > DUCK_STABILITY_MIN {
            v
        } else {
            DUCK_STABILITY_MIN
        }
    }

    /// Time scale factor for how long the best move has stayed the same.
    pub fn move_stability(stability: u16) -> (r: u128)
        ensures
            r == Self::stability_scale(MOVE_STABILITY_BASE as int, MOVE_STABILITY_SCALE as int, MOVE_STABILITY_MIN as int, stability as int),
    {
        let v = MOVE_STABILITY_BASE.saturating_sub(MOVE_STABILITY_SCALE * stability as u128);
        if v > MOVE_STABILITY_MIN {
            v
        } else {
            MOVE_STABILITY_MIN
        }
    }

    /// Late move reduction base: grows with the logarithm of the depth.
    pub fn lmr(depth: i32) -> (r: i32)
        requires
            depth > 0,
        ensures
            r == QUIET_LMR_BASE + QUIET_LMR_SCALE * floor_log2(depth as int),
    {
        proof {
            lemma_log_bound(depth as int, 31);
        }
        let mut x: i32 = depth;
        let mut log: i32 = 0;
        while x >= 2
            invariant
                1 <= x <= depth,
                0 <= log,
                log + floor_log2(x as int) == floor_log2(depth as int),
                floor_log2(depth as int) < 31,
            decreases x,
        {
            proof {
                lemma_log_nonneg(x as int / 2);
            }
            x = x / 2;
            log += 1;
        }
        QUIET_LMR_BASE + QUIET_LMR_SCALE * log
    }

    /// Depth of internal iterative deepening.
    pub fn iid_depth(depth: i32) -> (r: i32)
        requires
            i32::MIN <= IID_DEPTH_SCALE * depth <= i32::MAX,
            i32::MIN <= IID_DEPTH_SCALE * depth - IID_DEPTH_REDUCTION <= i32::MAX,
        ensures
            r == div_trunc(IID_DEPTH_SCALE * depth - IID_DEPTH_REDUCTION, 1024),
    {
        (IID_DEPTH_SCALE * depth - IID_DEPTH_REDUCTION) / 1024
    }

    /// Null move reduction.
    pub fn nmr_reduction(depth: i32) -> (r: i32)
        requires
            i32::MIN <= depth * NMR_REDUCTION_SCALE <= i32::MAX,
            i32::MIN <= NMR_REDUCTION_BASE + depth * NMR_REDUCTION_SCALE <= i32::MAX,
        ensures
            r == div_trunc(NMR_REDUCTION_BASE + depth * NMR_REDUCTION_SCALE, 1024),
    {
        (NMR_REDUCTION_BASE + depth * NMR_REDUCTION_SCALE) / 1024
    }

    /// Futility pruning margin.
    pub fn fp_margin(depth: i32) -> (r: i32)
        requires
            i32::MIN <= FP_SCALE * depth <= i32::MAX,
            i32::MIN <= FP_BASE + FP_SCALE * depth <= i32::MAX,
        ensures
            r == FP_BASE + FP_SCALE * depth,
    {
        FP_BASE + FP_SCALE * depth
    }
}

/// The move ordering score of a quiet move: its weighted histories over 1024.
pub open spec fn quiet_mp_value(h: HistoryView, b: BoardView, ind: ContIndices, mv: Move) -> int {
    div_trunc(
        h.quiet[butterfly_index(b, mv)] * QUIET_MP_QUIET_SCALE
            + h.duck[duck_index(b, mv)] * QUIET_MP_DUCK_SCALE
            + h.pawn[pawn_index(b, mv, PAWN_HIST_SIZE as int)] * QUIET_MP_PAWN_SCALE
            + cont_entry(h.cont_odd, b, mv, ind.cont1) * QUIET_MP_CONT1_SCALE
            + cont_entry(h.cont_even, b, mv, ind.cont2) * QUIET_MP_CONT2_SCALE
            + cont_entry(h.cont_even, b, mv, ind.cont4) * QUIET_MP_CONT4_SCALE,
        1024,
    )
}

/// The move ordering score of a noisy move: its weighted histories, each over 1024.
pub open spec fn noisy_mp_value(h: HistoryView, b: BoardView, mv: Move) -> int {
    div_trunc(h.noisy[butterfly_index(b, mv)] * NOISY_MP_NOISY_SCALE, 1024) + div_trunc(
        h.duck[duck_index(b, mv)] * NOISY_MP_DUCK_SCALE,
        1024,
    )
}

impl Params {
    /// History term of the late move reduction of a noisy move.
    pub fn noisy_lmr_history(history: &History, board: &Board, mv: Move) -> (r: i32)
        requires
            history.wf(),
        ensures
            r == div_trunc(
                history@.noisy[butterfly_index(board@, mv)] * NOISY_LMR_NOISY_SCALE
                    + history@.duck[duck_index(board@, mv)] * NOISY_LMR_DUCK_SCALE,
                1024,
            ),
    {
        let noisy = history.noisy(board, mv);
        let duck = history.duck(board, mv);
        let mut score: i32 = 0;
        score += noisy * NOISY_LMR_NOISY_SCALE;
        score += duck * NOISY_LMR_DUCK_SCALE;
        score / 1024
    }

    /// History term of the late move reduction of a quiet move.
    pub fn quiet_lmr_history(history: &History, board: &Board, indices: ContIndices, mv: Move) -> (r: i32)
        requires
            history.wf(),
            indices.cont1 is Some ==> has_mover(board@, mv),
            indices.cont2 is Some ==> has_mover(board@, mv),
        ensures
            r == div_trunc(
                history@.quiet[butterfly_index(board@, mv)] * QUIET_LMR_QUIET_SCALE
                    + history@.duck[duck_index(board@, mv)] * QUIET_LMR_DUCK_SCALE
                    + cont_entry(history@.cont_odd, board@, mv, indices.cont1) * QUIET_LMR_CONT1_SCALE
                    + cont_entry(history@.cont_even, board@, mv, indices.cont2) * QUIET_LMR_CONT2_SCALE,
                1024,
            ),
    {
        let quiet = history.quiet(board, mv);
        let duck = history.duck(board, mv);
        let cont1 = history.cont1(board, indices, mv);
        let cont2 = history.cont2(board, indices, mv);
        let mut score: i32 = 0;
        score += quiet * QUIET_LMR_QUIET_SCALE;
        score += duck * QUIET_LMR_DUCK_SCALE;
        score += cont1 * QUIET_LMR_CONT1_SCALE;
        score += cont2 * QUIET_LMR_CONT2_SCALE;
        score / 1024
    }

    /// History term of move-count pruning of a noisy move.
    pub fn noisy_mlp_history(history: &History, board: &Board, mv: Move) -> (r: i32)
        requires
            history.wf(),
        ensures
            r == div_trunc(
                history@.noisy[butterfly_index(board@, mv)] * NOISY_MLP_NOISY_SCALE
                    + history@.duck[duck_index(board@, mv)] * NOISY_MLP_DUCK_SCALE,
                1024,
            ),
    {
        let noisy = history.noisy(board, mv);
        let duck = history.duck(board, mv);
        let mut score: i32 = 0;
        score += noisy * NOISY_MLP_NOISY_SCALE;
        score += duck * NOISY_MLP_DUCK_SCALE;
        score / 1024
    }

    /// History term of move-count pruning of a quiet move: none.
    pub fn quiet_mlp_history(_history: &History, _board: &Board, _mv: Move) -> (r: i32)
        ensures
            r == 0,
    {
        0
    }

    /// Move ordering score of a quiet move, from its histories.
    pub fn quiet_mp_history(history: &History, board: &Board, indices: ContIndices, mv: Move) -> (r: i32)
        requires
            history.wf(),
            has_mover(board@, mv),
        ensures
            r == quiet_mp_value(history@, board@, indices, mv),
            -6 * MAX_HISTORY <= r <= 6 * MAX_HISTORY,
    {
        let quiet = history.quiet(board, mv);
        let duck = history.duck(board, mv);
        let pawn = history.pawn(board, mv);
        let cont1 = history.cont1(board, indices, mv);
        let cont2 = history.cont2(board, indices, mv);
        let cont4 = history.cont4(board, indices, mv);
        let mut score: i32 = 0;
        score += quiet * QUIET_MP_QUIET_SCALE;
        score += duck * QUIET_MP_DUCK_SCALE;
        score += pawn * QUIET_MP_PAWN_SCALE;
        score += cont1 * QUIET_MP_CONT1_SCALE;
        score += cont2 * QUIET_MP_CONT2_SCALE;
        score += cont4 * QUIET_MP_CONT4_SCALE;
        score / 1024
    }

    /// Move ordering score of a noisy move, from its histories.
    pub fn noisy_mp_history(history: &History, board: &Board, mv: Move) -> (r: i32)
        requires
            history.wf(),
        ensures
            r == noisy_mp_value(history@, board@, mv),
            -MAX_HISTORY <= r <= MAX_HISTORY,
    {
        let noisy = history.noisy(board, mv);
        let duck = history.duck(board, mv);
        let mut score: i32 = 0;
        score += noisy * NOISY_MP_NOISY_SCALE / 1024;
        score += duck * NOISY_MP_DUCK_SCALE / 1024;
        score
    }
}


pub(crate) proof fn lemma_div_trunc_mono(a: int, b: int, d: int)
    requires
        a <= b,
        d > 0,
    ensures
        div_trunc(a, d) <= div_trunc(b, d),
{
    if a >= 0 {
        vstd::arithmetic::div_mod::lemma_div_is_ordered(a, b, d);
    } else if b >= 0 {
        assert((-a) / d >= 0) by (nonlinear_arith)
            requires
                -a > 0,
                d > 0,
        ;
        assert(b / d >= 0) by (nonlinear_arith)
            requires
                b >= 0,
                d > 0,
        ;
    } else {
        vstd::arithmetic::div_mod::lemma_div_is_ordered(-b, -a, d);
    }
}

/// The duck history terms of the pruning thresholds never fall as the duck history rises: a
/// better duck placement never lowers its threshold.
pub proof fn lemma_duck_terms_monotonic(h1: int, h2: int)
    requires
        h1 <= h2,
    ensures
        Params::ldp_history_term(h1) <= Params::ldp_history_term(h2),
        Params::dcp_history_term(h1) <= Params::dcp_history_term(h2),
{
    lemma_div_trunc_mono(h1 + QUIET_LDP_HISTORY_OFFSET, h2 + QUIET_LDP_HISTORY_OFFSET, QUIET_LDP_HISTORY_DIV as int);
    lemma_div_trunc_mono(h1 + DCP_HISTORY_OFFSET, h2 + DCP_HISTORY_OFFSET, DCP_HISTORY_DIV as int);
}

/// The value of each search parameter, by its name.
impl Params {
    pub fn pawn_corr() -> (r: i32)
        ensures
            r == PAWN_CORR,
    {
        PAWN_CORR
    }

    pub fn minor_corr() -> (r: i32)
        ensures
            r == MINOR_CORR,
    {
        MINOR_CORR
    }

    pub fn major_corr() -> (r: i32)
        ensures
            r == MAJOR_CORR,
    {
        MAJOR_CORR
    }

    pub fn nonpawn_corr() -> (r: i32)
        ensures
            r == NONPAWN_CORR,
    {
        NONPAWN_CORR
    }

    pub fn corr_bonus_scale() -> (r: i64)
        ensures
            r == CORR_BONUS_SCALE,
    {
        CORR_BONUS_SCALE
    }

    pub fn quiet_bonus_base() -> (r: i32)
        ensures
            r == QUIET_BONUS_BASE,
    {
        QUIET_BONUS_BASE
    }

    pub fn quiet_bonus_scale() -> (r: i32)
        ensures
            r == QUIET_BONUS_SCALE,
    {
        QUIET_BONUS_SCALE
    }

    pub fn quiet_bonus_max() -> (r: i32)
        ensures
            r == QUIET_BONUS_MAX,
    {
        QUIET_BONUS_MAX
    }

    pub fn quiet_malus_base() -> (r: i32)
        ensures
            r == QUIET_MALUS_BASE,
    {
        QUIET_MALUS_BASE
    }

    pub fn quiet_malus_scale() -> (r: i32)
        ensures
            r == QUIET_MALUS_SCALE,
    {
        QUIET_MALUS_SCALE
    }

    pub fn quiet_malus_max() -> (r: i32)
        ensures
            r == QUIET_MALUS_MAX,
    {
        QUIET_MALUS_MAX
    }

    pub fn noisy_bonus_base() -> (r: i32)
        ensures
            r == NOISY_BONUS_BASE,
    {
        NOISY_BONUS_BASE
    }

    pub fn noisy_bonus_scale() -> (r: i32)
        ensures
            r == NOISY_BONUS_SCALE,
    {
        NOISY_BONUS_SCALE
    }

    pub fn noisy_bonus_max() -> (r: i32)
        ensures
            r == NOISY_BONUS_MAX,
    {
        NOISY_BONUS_MAX
    }

    pub fn noisy_malus_base() -> (r: i32)
        ensures
            r == NOISY_MALUS_BASE,
    {
        NOISY_MALUS_BASE
    }

    pub fn noisy_malus_scale() -> (r: i32)
        ensures
            r == NOISY_MALUS_SCALE,
    {
        NOISY_MALUS_SCALE
    }

    pub fn noisy_malus_max() -> (r: i32)
        ensures
            r == NOISY_MALUS_MAX,
    {
        NOISY_MALUS_MAX
    }

    pub fn pawn_bonus_base() -> (r: i32)
        ensures
            r == PAWN_BONUS_BASE,
    {
        PAWN_BONUS_BASE
    }

    pub fn pawn_bonus_scale() -> (r: i32)
        ensures
            r == PAWN_BONUS_SCALE,
    {
        PAWN_BONUS_SCALE
    }

    pub fn pawn_bonus_max() -> (r: i32)
        ensures
            r == PAWN_BONUS_MAX,
    {
        PAWN_BONUS_MAX
    }

    pub fn pawn_malus_base() -> (r: i32)
        ensures
            r == PAWN_MALUS_BASE,
    {
        PAWN_MALUS_BASE
    }

    pub fn pawn_malus_scale() -> (r: i32)
        ensures
            r == PAWN_MALUS_SCALE,
    {
        PAWN_MALUS_SCALE
    }

    pub fn pawn_malus_max() -> (r: i32)
        ensures
            r == PAWN_MALUS_MAX,
    {
        PAWN_MALUS_MAX
    }

    pub fn duck_bonus_base() -> (r: i32)
        ensures
            r == DUCK_BONUS_BASE,
    {
        DUCK_BONUS_BASE
    }

    pub fn duck_bonus_scale() -> (r: i32)
        ensures
            r == DUCK_BONUS_SCALE,
    {
        DUCK_BONUS_SCALE
    }

    pub fn duck_bonus_max() -> (r: i32)
        ensures
            r == DUCK_BONUS_MAX,
    {
        DUCK_BONUS_MAX
    }

    pub fn duck_malus_base() -> (r: i32)
        ensures
            r == DUCK_MALUS_BASE,
    {
        DUCK_MALUS_BASE
    }

    pub fn duck_malus_scale() -> (r: i32)
        ensures
            r == DUCK_MALUS_SCALE,
    {
        DUCK_MALUS_SCALE
    }

    pub fn duck_malus_max() -> (r: i32)
        ensures
            r == DUCK_MALUS_MAX,
    {
        DUCK_MALUS_MAX
    }

    pub fn cont1_bonus_base() -> (r: i32)
        ensures
            r == CONT1_BONUS_BASE,
    {
        CONT1_BONUS_BASE
    }

    pub fn cont1_bonus_scale() -> (r: i32)
        ensures
            r == CONT1_BONUS_SCALE,
    {
        CONT1_BONUS_SCALE
    }

    pub fn cont1_bonus_max() -> (r: i32)
        ensures
            r == CONT1_BONUS_MAX,
    {
        CONT1_BONUS_MAX
    }

    pub fn cont1_malus_base() -> (r: i32)
        ensures
            r == CONT1_MALUS_BASE,
    {
        CONT1_MALUS_BASE
    }

    pub fn cont1_malus_scale() -> (r: i32)
        ensures
            r == CONT1_MALUS_SCALE,
    {
        CONT1_MALUS_SCALE
    }

    pub fn cont1_malus_max() -> (r: i32)
        ensures
            r == CONT1_MALUS_MAX,
    {
        CONT1_MALUS_MAX
    }

    pub fn cont2_bonus_base() -> (r: i32)
        ensures
            r == CONT2_BONUS_BASE,
    {
        CONT2_BONUS_BASE
    }

    pub fn cont2_bonus_scale() -> (r: i32)
        ensures
            r == CONT2_BONUS_SCALE,
    {
        CONT2_BONUS_SCALE
    }

    pub fn cont2_bonus_max() -> (r: i32)
        ensures
            r == CONT2_BONUS_MAX,
    {
        CONT2_BONUS_MAX
    }

    pub fn cont2_malus_base() -> (r: i32)
        ensures
            r == CONT2_MALUS_BASE,
    {
        CONT2_MALUS_BASE
    }

    pub fn cont2_malus_scale() -> (r: i32)
        ensures
            r == CONT2_MALUS_SCALE,
    {
        CONT2_MALUS_SCALE
    }

    pub fn cont2_malus_max() -> (r: i32)
        ensures
            r == CONT2_MALUS_MAX,
    {
        CONT2_MALUS_MAX
    }

    pub fn cont4_bonus_base() -> (r: i32)
        ensures
            r == CONT4_BONUS_BASE,
    {
        CONT4_BONUS_BASE
    }

    pub fn cont4_bonus_scale() -> (r: i32)
        ensures
            r == CONT4_BONUS_SCALE,
    {
        CONT4_BONUS_SCALE
    }

    pub fn cont4_bonus_max() -> (r: i32)
        ensures
            r == CONT4_BONUS_MAX,
    {
        CONT4_BONUS_MAX
    }

    pub fn cont4_malus_base() -> (r: i32)
        ensures
            r == CONT4_MALUS_BASE,
    {
        CONT4_MALUS_BASE
    }

    pub fn cont4_malus_scale() -> (r: i32)
        ensures
            r == CONT4_MALUS_SCALE,
    {
        CONT4_MALUS_SCALE
    }

    pub fn cont4_malus_max() -> (r: i32)
        ensures
            r == CONT4_MALUS_MAX,
    {
        CONT4_MALUS_MAX
    }

    pub fn rfp_base() -> (r: i32)
        ensures
            r == RFP_BASE,
    {
        RFP_BASE
    }

    pub fn rfp_scale() -> (r: i32)
        ensures
            r == RFP_SCALE,
    {
        RFP_SCALE
    }

    pub fn rfp_imp_base() -> (r: i32)
        ensures
            r == RFP_IMP_BASE,
    {
        RFP_IMP_BASE
    }

    pub fn rfp_imp_scale() -> (r: i32)
        ensures
            r == RFP_IMP_SCALE,
    {
        RFP_IMP_SCALE
    }

    pub fn razor_base() -> (r: i32)
        ensures
            r == RAZOR_BASE,
    {
        RAZOR_BASE
    }

    pub fn razor_scale() -> (r: i32)
        ensures
            r == RAZOR_SCALE,
    {
        RAZOR_SCALE
    }

    pub fn nmr_margin() -> (r: i32)
        ensures
            r == NMR_MARGIN,
    {
        NMR_MARGIN
    }

    pub fn nmr_reduction_base() -> (r: i32)
        ensures
            r == NMR_REDUCTION_BASE,
    {
        NMR_REDUCTION_BASE
    }

    pub fn nmr_reduction_scale() -> (r: i32)
        ensures
            r == NMR_REDUCTION_SCALE,
    {
        NMR_REDUCTION_SCALE
    }

    pub fn iid_depth_scale() -> (r: i32)
        ensures
            r == IID_DEPTH_SCALE,
    {
        IID_DEPTH_SCALE
    }

    pub fn iid_depth_reduction() -> (r: i32)
        ensures
            r == IID_DEPTH_REDUCTION,
    {
        IID_DEPTH_REDUCTION
    }

    pub fn mvv_pawn() -> (r: i32)
        ensures
            r == MVV_PAWN,
    {
        MVV_PAWN
    }

    pub fn mvv_knight() -> (r: i32)
        ensures
            r == MVV_KNIGHT,
    {
        MVV_KNIGHT
    }

    pub fn mvv_bishop() -> (r: i32)
        ensures
            r == MVV_BISHOP,
    {
        MVV_BISHOP
    }

    pub fn mvv_rook() -> (r: i32)
        ensures
            r == MVV_ROOK,
    {
        MVV_ROOK
    }

    pub fn mvv_queen() -> (r: i32)
        ensures
            r == MVV_QUEEN,
    {
        MVV_QUEEN
    }

    pub fn see_pawn() -> (r: i32)
        ensures
            r == SEE_PAWN,
    {
        SEE_PAWN
    }

    pub fn see_knight() -> (r: i32)
        ensures
            r == SEE_KNIGHT,
    {
        SEE_KNIGHT
    }

    pub fn see_bishop() -> (r: i32)
        ensures
            r == SEE_BISHOP,
    {
        SEE_BISHOP
    }

    pub fn see_rook() -> (r: i32)
        ensures
            r == SEE_ROOK,
    {
        SEE_ROOK
    }

    pub fn see_queen() -> (r: i32)
        ensures
            r == SEE_QUEEN,
    {
        SEE_QUEEN
    }

    pub fn quiet_ldp_imp_threshold_base() -> (r: i32)
        ensures
            r == QUIET_LDP_IMP_THRESHOLD_BASE,
    {
        QUIET_LDP_IMP_THRESHOLD_BASE
    }

    pub fn quiet_ldp_imp_threshold_scale() -> (r: i32)
        ensures
            r == QUIET_LDP_IMP_THRESHOLD_SCALE,
    {
        QUIET_LDP_IMP_THRESHOLD_SCALE
    }

    pub fn quiet_ldp_threshold_base() -> (r: i32)
        ensures
            r == QUIET_LDP_THRESHOLD_BASE,
    {
        QUIET_LDP_THRESHOLD_BASE
    }

    pub fn quiet_ldp_threshold_scale() -> (r: i32)
        ensures
            r == QUIET_LDP_THRESHOLD_SCALE,
    {
        QUIET_LDP_THRESHOLD_SCALE
    }

    pub fn quiet_ldp_history_offset() -> (r: i32)
        ensures
            r == QUIET_LDP_HISTORY_OFFSET,
    {
        QUIET_LDP_HISTORY_OFFSET
    }

    pub fn quiet_ldp_history_div() -> (r: i32)
        ensures
            r == QUIET_LDP_HISTORY_DIV,
    {
        QUIET_LDP_HISTORY_DIV
    }

    pub fn quiet_ldp_history_min() -> (r: i32)
        ensures
            r == QUIET_LDP_HISTORY_MIN,
    {
        QUIET_LDP_HISTORY_MIN
    }

    pub fn quiet_ldp_history_max() -> (r: i32)
        ensures
            r == QUIET_LDP_HISTORY_MAX,
    {
        QUIET_LDP_HISTORY_MAX
    }

    pub fn noisy_ldp_imp_threshold_base() -> (r: i32)
        ensures
            r == NOISY_LDP_IMP_THRESHOLD_BASE,
    {
        NOISY_LDP_IMP_THRESHOLD_BASE
    }

    pub fn noisy_ldp_imp_threshold_scale() -> (r: i32)
        ensures
            r == NOISY_LDP_IMP_THRESHOLD_SCALE,
    {
        NOISY_LDP_IMP_THRESHOLD_SCALE
    }

    pub fn noisy_ldp_threshold_base() -> (r: i32)
        ensures
            r == NOISY_LDP_THRESHOLD_BASE,
    {
        NOISY_LDP_THRESHOLD_BASE
    }

    pub fn noisy_ldp_threshold_scale() -> (r: i32)
        ensures
            r == NOISY_LDP_THRESHOLD_SCALE,
    {
        NOISY_LDP_THRESHOLD_SCALE
    }

    pub fn dcp_threshold_imp_base() -> (r: i32)
        ensures
            r == DCP_THRESHOLD_IMP_BASE,
    {
        DCP_THRESHOLD_IMP_BASE
    }

    pub fn dcp_threshold_imp_scale() -> (r: i32)
        ensures
            r == DCP_THRESHOLD_IMP_SCALE,
    {
        DCP_THRESHOLD_IMP_SCALE
    }

    pub fn dcp_threshold_base() -> (r: i32)
        ensures
            r == DCP_THRESHOLD_BASE,
    {
        DCP_THRESHOLD_BASE
    }

    pub fn dcp_threshold_scale() -> (r: i32)
        ensures
            r == DCP_THRESHOLD_SCALE,
    {
        DCP_THRESHOLD_SCALE
    }

    pub fn dcp_history_offset() -> (r: i32)
        ensures
            r == DCP_HISTORY_OFFSET,
    {
        DCP_HISTORY_OFFSET
    }

    pub fn dcp_history_div() -> (r: i32)
        ensures
            r == DCP_HISTORY_DIV,
    {
        DCP_HISTORY_DIV
    }

    pub fn dcp_history_min() -> (r: i32)
        ensures
            r == DCP_HISTORY_MIN,
    {
        DCP_HISTORY_MIN
    }

    pub fn dcp_history_max() -> (r: i32)
        ensures
            r == DCP_HISTORY_MAX,
    {
        DCP_HISTORY_MAX
    }

    pub fn see_base() -> (r: i32)
        ensures
            r == SEE_BASE,
    {
        SEE_BASE
    }

    pub fn see_scale() -> (r: i32)
        ensures
            r == SEE_SCALE,
    {
        SEE_SCALE
    }

    pub fn see_history_scale() -> (r: i32)
        ensures
            r == SEE_HISTORY_SCALE,
    {
        SEE_HISTORY_SCALE
    }

    pub fn mp_see_threshold() -> (r: i32)
        ensures
            r == MP_SEE_THRESHOLD,
    {
        MP_SEE_THRESHOLD
    }

    pub fn mp_qs_see_threshold() -> (r: i32)
        ensures
            r == MP_QS_SEE_THRESHOLD,
    {
        MP_QS_SEE_THRESHOLD
    }

    pub fn mp_quiet_neutral_malus() -> (r: i32)
        ensures
            r == MP_QUIET_NEUTRAL_MALUS,
    {
        MP_QUIET_NEUTRAL_MALUS
    }

    pub fn qsldp_threshold() -> (r: i32)
        ensures
            r == QSLDP_THRESHOLD,
    {
        QSLDP_THRESHOLD
    }

    pub fn qsdcp_threshold() -> (r: i32)
        ensures
            r == QSDCP_THRESHOLD,
    {
        QSDCP_THRESHOLD
    }

    pub fn soft_time_div() -> (r: u64)
        ensures
            r == SOFT_TIME_DIV,
    {
        SOFT_TIME_DIV
    }

    pub fn soft_time_inc() -> (r: u64)
        ensures
            r == SOFT_TIME_INC,
    {
        SOFT_TIME_INC
    }

    pub fn hard_time_div() -> (r: u64)
        ensures
            r == HARD_TIME_DIV,
    {
        HARD_TIME_DIV
    }

    pub fn hard_time_inc() -> (r: u64)
        ensures
            r == HARD_TIME_INC,
    {
        HARD_TIME_INC
    }

    pub fn duck_stability_base() -> (r: u128)
        ensures
            r == DUCK_STABILITY_BASE,
    {
        DUCK_STABILITY_BASE
    }

    pub fn duck_stability_scale() -> (r: u128)
        ensures
            r == DUCK_STABILITY_SCALE,
    {
        DUCK_STABILITY_SCALE
    }

    pub fn duck_stability_min() -> (r: u128)
        ensures
            r == DUCK_STABILITY_MIN,
    {
        DUCK_STABILITY_MIN
    }

    pub fn move_stability_base() -> (r: u128)
        ensures
            r == MOVE_STABILITY_BASE,
    {
        MOVE_STABILITY_BASE
    }

    pub fn move_stability_scale() -> (r: u128)
        ensures
            r == MOVE_STABILITY_SCALE,
    {
        MOVE_STABILITY_SCALE
    }

    pub fn move_stability_min() -> (r: u128)
        ensures
            r == MOVE_STABILITY_MIN,
    {
        MOVE_STABILITY_MIN
    }

    pub fn quiet_lmr_base() -> (r: i32)
        ensures
            r == QUIET_LMR_BASE,
    {
        QUIET_LMR_BASE
    }

    pub fn quiet_lmr_scale() -> (r: i32)
        ensures
            r == QUIET_LMR_SCALE,
    {
        QUIET_LMR_SCALE
    }

    pub fn lmr_exact() -> (r: i32)
        ensures
            r == LMR_EXACT,
    {
        LMR_EXACT
    }

    pub fn lmr_imp() -> (r: i32)
        ensures
            r == LMR_IMP,
    {
        LMR_IMP
    }

    pub fn lmr_pv() -> (r: i32)
        ensures
            r == LMR_PV,
    {
        LMR_PV
    }

    pub fn lmr_in_check() -> (r: i32)
        ensures
            r == LMR_IN_CHECK,
    {
        LMR_IN_CHECK
    }

    pub fn lmr_history() -> (r: i32)
        ensures
            r == LMR_HISTORY,
    {
        LMR_HISTORY
    }

    pub fn fp_base() -> (r: i32)
        ensures
            r == FP_BASE,
    {
        FP_BASE
    }

    pub fn fp_scale() -> (r: i32)
        ensures
            r == FP_SCALE,
    {
        FP_SCALE
    }

    pub fn noisy_lmr_noisy_scale() -> (r: i32)
        ensures
            r == NOISY_LMR_NOISY_SCALE,
    {
        NOISY_LMR_NOISY_SCALE
    }

    pub fn noisy_lmr_duck_scale() -> (r: i32)
        ensures
            r == NOISY_LMR_DUCK_SCALE,
    {
        NOISY_LMR_DUCK_SCALE
    }

    pub fn quiet_lmr_quiet_scale() -> (r: i32)
        ensures
            r == QUIET_LMR_QUIET_SCALE,
    {
        QUIET_LMR_QUIET_SCALE
    }

    pub fn quiet_lmr_duck_scale() -> (r: i32)
        ensures
            r == QUIET_LMR_DUCK_SCALE,
    {
        QUIET_LMR_DUCK_SCALE
    }

    pub fn quiet_lmr_cont1_scale() -> (r: i32)
        ensures
            r == QUIET_LMR_CONT1_SCALE,
    {
        QUIET_LMR_CONT1_SCALE
    }

    pub fn quiet_lmr_cont2_scale() -> (r: i32)
        ensures
            r == QUIET_LMR_CONT2_SCALE,
    {
        QUIET_LMR_CONT2_SCALE
    }

    pub fn noisy_mlp_noisy_scale() -> (r: i32)
        ensures
            r == NOISY_MLP_NOISY_SCALE,
    {
        NOISY_MLP_NOISY_SCALE
    }

    pub fn noisy_mlp_duck_scale() -> (r: i32)
        ensures
            r == NOISY_MLP_DUCK_SCALE,
    {
        NOISY_MLP_DUCK_SCALE
    }

    pub fn quiet_mp_quiet_scale() -> (r: i32)
        ensures
            r == QUIET_MP_QUIET_SCALE,
    {
        QUIET_MP_QUIET_SCALE
    }

    pub fn quiet_mp_duck_scale() -> (r: i32)
        ensures
            r == QUIET_MP_DUCK_SCALE,
    {
        QUIET_MP_DUCK_SCALE
    }

    pub fn quiet_mp_pawn_scale() -> (r: i32)
        ensures
            r == QUIET_MP_PAWN_SCALE,
    {
        QUIET_MP_PAWN_SCALE
    }

    pub fn quiet_mp_cont1_scale() -> (r: i32)
        ensures
            r == QUIET_MP_CONT1_SCALE,
    {
        QUIET_MP_CONT1_SCALE
    }

    pub fn quiet_mp_cont2_scale() -> (r: i32)
        ensures
            r == QUIET_MP_CONT2_SCALE,
    {
        QUIET_MP_CONT2_SCALE
    }

    pub fn quiet_mp_cont4_scale() -> (r: i32)
        ensures
            r == QUIET_MP_CONT4_SCALE,
    {
        QUIET_MP_CONT4_SCALE
    }

    pub fn noisy_mp_noisy_scale() -> (r: i32)
        ensures
            r == NOISY_MP_NOISY_SCALE,
    {
        NOISY_MP_NOISY_SCALE
    }

    pub fn noisy_mp_duck_scale() -> (r: i32)
        ensures
            r == NOISY_MP_DUCK_SCALE,
    {
        NOISY_MP_DUCK_SCALE
    }
}

} // verus!
