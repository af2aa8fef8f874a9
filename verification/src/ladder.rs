//! The scale ladder: the descending sequence of factors at which an image is
//! tried again once decoding at full size has failed.

use crate::geometry::Scale;
use vstd::prelude::*;

verus! {

/// The smaller of the two target sizes that the standard ladder aims at.
pub const MIN_TARGET: u32 = 100;

/// The larger of the two target sizes that the standard ladder aims at.
pub const MAX_TARGET: u32 = 1280;

/// The number of steps between the two targets in the standard ladder.
pub const STEPS: u32 = 5;

/// The window of sizes that the ladder brings the longer side of an image
/// into, and the number of steps it takes from one end to the other.
#[derive(Clone, Copy, Debug, PartialEq, Eq, Structural)]
pub struct LadderConfig {
    pub min_target: u32,
    pub max_target: u32,
    pub steps: u32,
}

impl LadderConfig {
    /// The targets are sizes of at least one pixel, in order, and there is at
    /// least one step.
    pub open spec fn wf(self) -> bool {
        1 <= self.min_target <= self.max_target && self.steps >= 1
    }

    /// A ladder between the two targets; `None` unless they are at least one
    /// and in order, and `steps` is at least one.
    pub fn new(min_target: u32, max_target: u32, steps: u32) -> (r: Option<LadderConfig>)
        ensures
            r.is_some() <==> 1 <= min_target <= max_target && steps >= 1,
            r matches Some(c) ==> c == (LadderConfig { min_target, max_target, steps }) && c.wf(),
    {
        if 1 <= min_target && min_target <= max_target && steps >= 1 {
            Some(LadderConfig { min_target, max_target, steps })
        } else {
            None
        }
    }

    /// The ladder from 1280 down to 100 pixels in five steps.
    pub fn standard() -> (c: LadderConfig)
        ensures
            c == standard_config(),
            c.wf(),
    {
        LadderConfig { min_target: MIN_TARGET, max_target: MAX_TARGET, steps: STEPS }
    }
}

/// The standard ladder's configuration.
pub open spec fn standard_config() -> LadderConfig {
    LadderConfig { min_target: MIN_TARGET, max_target: MAX_TARGET, steps: STEPS }
}

/// The longer side of an image.
pub open spec fn longer_side(width: u32, height: u32) -> u32 {
    if width >= height {
        width
    } else {
        height
    }
}

/// The candidate factor number `i` of `0..=steps`, counted from the smallest:
/// the target size `min_target + (max_target - min_target) * i / steps` over
/// the longer side, as one fraction.
pub open spec fn candidate(config: LadderConfig, longest: u32, i: int) -> Scale {
    Scale {
        num: (config.min_target * config.steps + (config.max_target - config.min_target) * i) as u64,
        den: (config.steps * longest) as u64,
    }
}

/// The ladder for an image of the given size: the candidates from the
/// largest to the smallest, unless the largest is one or more, in which case
/// nothing is tried at all.
pub open spec fn scale_ladder_of(config: LadderConfig, width: u32, height: u32) -> Seq<Scale> {
    let longest = longer_side(width, height);
    if config.max_target >= longest {
        Seq::empty()
    } else {
        Seq::new((config.steps + 1) as nat, |j: int| candidate(config, longest, config.steps - j))
    }
}

/// The numerator of a candidate fits 64 bits and grows with `i`.
proof fn lemma_candidate_numerator(config: LadderConfig, i: int)
    requires
        config.wf(),
        0 <= i <= config.steps,
    ensures
        0 < config.min_target * config.steps,
        0 <= (config.max_target - config.min_target) * i,
        config.min_target * config.steps + (config.max_target - config.min_target) * i
            <= config.max_target * config.steps,
        config.max_target * config.steps <= 0xffff_ffff * 0xffff_ffff,
{
    let lo = config.min_target as int;
    let hi = config.max_target as int;
    let n = config.steps as int;
    assert(0 < lo * n && 0 <= (hi - lo) * i && lo * n + (hi - lo) * i <= hi * n && hi * n
        <= 0xffff_ffff * 0xffff_ffff) by (nonlinear_arith)
        requires
            1 <= lo <= hi <= 0xffff_ffff,
            0 <= i <= n <= 0xffff_ffff,
            1 <= n,
    ;
}

/// A later candidate is not smaller than an earlier one.
proof fn lemma_candidate_grows(config: LadderConfig, i: int, k: int)
    requires
        config.wf(),
        0 <= i <= k,
    ensures
        (config.max_target - config.min_target) * i <= (config.max_target - config.min_target) * k,
{
    let span = config.max_target - config.min_target;
    assert(span * i <= span * k) by (nonlinear_arith)
        requires
            0 <= span,
            0 <= i <= k,
    ;
}

/// The scale ladder bound: every factor of the ladder is a fraction above
/// zero and below one, whatever the size of the image and the targets; and
/// there is no factor at all where the image is within the larger target.
pub proof fn lemma_ladder_scales(config: LadderConfig, width: u32, height: u32)
    requires
        config.wf(),
    ensures
        forall|k: int|
            0 <= k < scale_ladder_of(config, width, height).len() ==> (#[trigger] scale_ladder_of(
                config,
                width,
                height,
            )[k]).wf() && scale_ladder_of(config, width, height)[k].below_one()
                && scale_ladder_of(config, width, height)[k].positive(),
        longer_side(width, height) <= config.max_target ==> scale_ladder_of(
            config,
            width,
            height,
        ).len() == 0,
{
    let longest = longer_side(width, height);
    let ladder = scale_ladder_of(config, width, height);
    assert forall|k: int| 0 <= k < ladder.len() implies (#[trigger] ladder[k]).wf()
        && ladder[k].below_one() && ladder[k].positive() by {
        lemma_candidate_numerator(config, config.steps - k);
        assert(config.max_target * config.steps < config.steps * longest <= 0xffff_ffff
            * 0xffff_ffff) by (nonlinear_arith)
            requires
                config.max_target < longest <= 0xffff_ffff,
                1 <= config.steps <= 0xffff_ffff,
        ;
    }
}

/// The factors at which an image of the given size is tried again, largest
/// first. Each is above zero and below one; where already the largest
/// candidate is one or more, there is none.
pub fn scale_ladder(config: LadderConfig, width: u32, height: u32) -> (ladder: Vec<Scale>)
    requires
        config.wf(),
    ensures
        ladder@ == scale_ladder_of(config, width, height),
        forall|k: int|
            0 <= k < ladder.len() ==> ladder[k].wf() && ladder[k].below_one()
                && ladder[k].positive(),
        forall|j: int, k: int|
            0 <= j <= k < ladder.len() ==> ladder[k].den == ladder[j].den && ladder[k].num
                <= ladder[j].num,
        longer_side(width, height) <= config.max_target ==> ladder.len() == 0,
        ladder.len() <= config.steps + 1,
{
    let longest: u32 = if width >= height {
        width
    } else {
        height
    };
    let steps: u64 = config.steps as u64;
    let span: u64 = (config.max_target - config.min_target) as u64;
    proof {
        lemma_candidate_numerator(config, 0);
        assert(config.steps * longest <= 0xffff_ffff * 0xffff_ffff) by (nonlinear_arith)
            requires
                config.steps <= 0xffff_ffff,
                longest <= 0xffff_ffff,
        ;
    }
    let base: u64 = config.min_target as u64 * steps;
    let den: u64 = steps * longest as u64;
    let mut ladder: Vec<Scale> = Vec::new();
    let mut j: u64 = 0;
    while j <= steps
        invariant
            config.wf(),
            steps == config.steps,
            span == config.max_target - config.min_target,
            base == config.min_target * config.steps,
            den == config.steps * longest,
            longest == longer_side(width, height),
            j <= steps + 1,
            ladder.len() == j,
            j > 0 ==> config.max_target < longest,
            forall|k: int| 0 <= k < j ==> ladder[k] == candidate(config, longest, config.steps - k),
            forall|k: int|
                0 <= k < j ==> ladder[k].wf() && ladder[k].below_one() && ladder[k].positive(),
        ensures
            ladder@ == scale_ladder_of(config, width, height),
            forall|k: int|
                0 <= k < ladder.len() ==> ladder[k].wf() && ladder[k].below_one()
                    && ladder[k].positive(),
            forall|k: int|
                0 <= k < ladder.len() ==> ladder[k] == candidate(config, longest, config.steps - k),
            ladder.len() <= config.steps + 1,
            longest <= config.max_target ==> ladder.len() == 0,
        decreases steps + 1 - j,
    {
        let i: u64 = steps - j;
        proof {
            lemma_candidate_numerator(config, i as int);
        }
        let scale = Scale { num: base + span * i, den };
        if !scale.is_below_one() {
            proof {
                if j > 0 {
                    assert(config.max_target * config.steps < config.steps * longest)
                        by (nonlinear_arith)
                        requires
                            config.max_target < longest,
                            config.steps >= 1,
                    ;
                } else {
                    assert(config.min_target * config.steps + (config.max_target
                        - config.min_target) * config.steps == config.max_target * config.steps)
                        by (nonlinear_arith);
                    assert(config.max_target >= longest) by (nonlinear_arith)
                        requires
                            config.max_target * config.steps >= config.steps * longest,
                            config.steps >= 1,
                    ;
                    assert(ladder@ =~= scale_ladder_of(config, width, height));
                }
            }
            break ;
        }
        proof {
            if j == 0 {
                assert(config.min_target * config.steps + (config.max_target - config.min_target)
                    * config.steps == config.max_target * config.steps) by (nonlinear_arith);
                assert(config.max_target < longest) by (nonlinear_arith)
                    requires
                        config.max_target * config.steps < config.steps * longest,
                        config.steps >= 1,
                ;
            }
        }
        ladder.push(scale);
        j = j + 1;
        proof {
            if j == steps + 1 {
                assert(ladder@ =~= scale_ladder_of(config, width, height));
            }
        }
    }
    proof {
        assert forall|j: int, k: int| 0 <= j <= k < ladder.len() implies ladder[k].den
            == ladder[j].den && ladder[k].num <= ladder[j].num by {
            lemma_candidate_numerator(config, config.steps - k);
            lemma_candidate_numerator(config, config.steps - j);
            lemma_candidate_grows(config, config.steps - k, config.steps - j);
        }
    }
    ladder
}

} // verus!
