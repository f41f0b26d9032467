use crate::util::Float;
use vstd::prelude::*;

verus! {

/// The difficulty settings of a beatmap. The engine passes them through.
#[derive(Clone, Copy, Debug, PartialEq, Eq, Structural)]
pub struct Difficulty {
    pub hp_drain_rate: Float,
    pub circle_size: Float,
    pub overall_difficulty: Float,
    pub approach_rate: Float,
    pub slider_multiplier: Float,
    pub slider_tick_rate: Float,
}

/// 5.0 as a bit pattern.
pub const DEFAULT_HP_DRAIN_RATE: u32 = 0x40a0_0000;

/// 4.0 as a bit pattern.
pub const DEFAULT_CIRCLE_SIZE: u32 = 0x4080_0000;

/// 8.5 as a bit pattern.
pub const DEFAULT_OVERALL_DIFFICULTY: u32 = 0x4108_0000;

/// 8.5 as a bit pattern.
pub const DEFAULT_APPROACH_RATE: u32 = 0x4108_0000;

/// 1.4 as a bit pattern.
pub const DEFAULT_SLIDER_MULTIPLIER: u32 = 0x3fb3_3333;

/// 1.0 as a bit pattern.
pub const DEFAULT_SLIDER_TICK_RATE: u32 = 0x3f80_0000;

impl Difficulty {
    /// The settings of a beatmap that sets none.
    pub open spec fn standard() -> Difficulty {
        Difficulty {
            hp_drain_rate: Float { bits: DEFAULT_HP_DRAIN_RATE },
            circle_size: Float { bits: DEFAULT_CIRCLE_SIZE },
            overall_difficulty: Float { bits: DEFAULT_OVERALL_DIFFICULTY },
            approach_rate: Float { bits: DEFAULT_APPROACH_RATE },
            slider_multiplier: Float { bits: DEFAULT_SLIDER_MULTIPLIER },
            slider_tick_rate: Float { bits: DEFAULT_SLIDER_TICK_RATE },
        }
    }
}

impl Default for Difficulty {
    fn default() -> (difficulty: Self)
        ensures
            difficulty == Difficulty::standard(),
    {
        Difficulty {
            hp_drain_rate: Float::from_bits(DEFAULT_HP_DRAIN_RATE),
            circle_size: Float::from_bits(DEFAULT_CIRCLE_SIZE),
            overall_difficulty: Float::from_bits(DEFAULT_OVERALL_DIFFICULTY),
            approach_rate: Float::from_bits(DEFAULT_APPROACH_RATE),
            slider_multiplier: Float::from_bits(DEFAULT_SLIDER_MULTIPLIER),
            slider_tick_rate: Float::from_bits(DEFAULT_SLIDER_TICK_RATE),
        }
    }
}

} // verus!
