//! Packs words into a text-shaped silhouette.
//!
//! A shape string is rasterized into a boolean occupancy grid (the
//! silhouette), an auto-fit search picks the largest font size whose
//! rendering fits the canvas interior, and a randomized engine places
//! words at free cells of the grid until a coverage ratio is reached
//! or the attempt budget runs out.

use vstd::prelude::*;

pub mod args;
pub mod draw;
pub mod font;
pub mod grid;
pub mod mask;
pub mod rng;

verus! {

/// Denominator of the fill-ratio scale: ratios are handled as parts
/// per million so that the threshold comparison is exact in integers.
pub const RATIO_SCALE: u64 = 1_000_000;

/// Fill ratio on the parts-per-million scale: the fraction of the
/// silhouette's original interior that has been claimed, rounded down.
/// A silhouette with no interior counts as fully filled.
pub open spec fn spec_fill_ratio_ppm(current: nat, total: nat) -> int {
    if total == 0 {
        RATIO_SCALE as int
    } else {
        ((total - current) * RATIO_SCALE) / total as int
    }
}

/// Fill ratio reached so far, in parts per million.
pub fn fill_ratio_ppm(current: usize, total: usize) -> (r: u64)
    requires
        current <= total,
    ensures
        r == spec_fill_ratio_ppm(current as nat, total as nat),
{
    if total == 0 {
        RATIO_SCALE
    } else {
        let filled: u128 = (total - current) as u128;
        proof {
            vstd::arithmetic::mul::lemma_mul_inequality(
                filled as int,
                u64::MAX as int,
                RATIO_SCALE as int,
            );
        }
        let num: u128 = filled * RATIO_SCALE as u128;
        let q: u128 = num / total as u128;
        proof {
            lemma_ratio_le_scale((total - current) as nat, total as nat);
        }
        q as u64
    }
}

/// The fill ratio is non-decreasing as the free area shrinks: fewer
/// free cells can only raise the fraction already claimed.
pub proof fn lemma_fill_ratio_monotone(total: nat, before: nat, after: nat)
    requires
        after <= before <= total,
    ensures
        spec_fill_ratio_ppm(before, total) <= spec_fill_ratio_ppm(after, total),
{
    if total > 0 {
        let s = RATIO_SCALE as int;
        vstd::arithmetic::mul::lemma_mul_inequality(
            total as int - before,
            total as int - after,
            s,
        );
        vstd::arithmetic::div_mod::lemma_div_is_ordered(
            (total - before) * s,
            (total - after) * s,
            total as int,
        );
    }
}

/// The fill ratio never exceeds the scale: dividing a claimed area by
/// the total it is part of stays within one.
pub proof fn lemma_ratio_le_scale(filled: nat, total: nat)
    requires
        filled <= total,
        total > 0,
    ensures
        0 <= (filled * RATIO_SCALE) / total as int <= RATIO_SCALE,
{
    let s = RATIO_SCALE as int;
    vstd::arithmetic::mul::lemma_mul_inequality(filled as int, total as int, s);
    vstd::arithmetic::div_mod::lemma_div_is_ordered(
        filled as int * s,
        total as int * s,
        total as int,
    );
    vstd::arithmetic::div_mod::lemma_div_by_multiple(s, total as int);
    vstd::arithmetic::div_mod::lemma_div_pos_is_pos(filled as int * s, total as int);
    vstd::arithmetic::mul::lemma_mul_nonnegative(filled as int, s);
}

} // verus!
