//! The tunables of the partitioning generator.

use vstd::prelude::*;
use crate::room::GenerateError;

verus! {

/// The seven options of a generation run. They are read, never changed, while
/// a layout is generated.
#[derive(Debug, Clone, Copy, PartialEq, Eq, Structural)]
pub struct Settings {
    /// The depth after which no node is split any more.
    pub bs_max_deep: u32,
    /// The depth from which the chance of a split decays.
    pub deny_split_deep: u32,
    /// By how many percent the chance decays with each level from
    /// `deny_split_deep` on.
    pub split_chance_dec: u32,
    /// The upper end, in percent, of the range the split point is drawn from.
    pub split_max_coeff: u32,
    /// The chance of a split, in percent, above `deny_split_deep`.
    pub split_default_chance: u32,
    /// A subdungeon that exceeds this size in neither direction is not split.
    pub min_room_splittable_size: u32,
    /// The width of every corridor.
    pub coridor_width: u32,
}

/// The names of the seven options.
#[derive(Debug, Clone, Copy, PartialEq, Eq, Structural)]
pub enum Tunable {
    BsMaxDeep,
    DenySplitDeep,
    SplitChanceDec,
    SplitMaxCoeff,
    SplitDefaultChance,
    MinRoomSplittableSize,
    CoridorWidth,
}

impl Settings {
    /// The value of one option.
    pub open spec fn get(self, option: Tunable) -> u32 {
        match option {
            Tunable::BsMaxDeep => self.bs_max_deep,
            Tunable::DenySplitDeep => self.deny_split_deep,
            Tunable::SplitChanceDec => self.split_chance_dec,
            Tunable::SplitMaxCoeff => self.split_max_coeff,
            Tunable::SplitDefaultChance => self.split_default_chance,
            Tunable::MinRoomSplittableSize => self.min_room_splittable_size,
            Tunable::CoridorWidth => self.coridor_width,
        }
    }

    /// The settings with one option set to `value` and the others as they
    /// are.
    pub open spec fn with(self, option: Tunable, value: u32) -> Settings {
        match option {
            Tunable::BsMaxDeep => Settings { bs_max_deep: value, ..self },
            Tunable::DenySplitDeep => Settings { deny_split_deep: value, ..self },
            Tunable::SplitChanceDec => Settings { split_chance_dec: value, ..self },
            Tunable::SplitMaxCoeff => Settings { split_max_coeff: value, ..self },
            Tunable::SplitDefaultChance => Settings { split_default_chance: value, ..self },
            Tunable::MinRoomSplittableSize => Settings { min_room_splittable_size: value, ..self },
            Tunable::CoridorWidth => Settings { coridor_width: value, ..self },
        }
    }

    /// The settings a new generator starts with.
    pub open spec fn initial() -> Settings {
        Settings {
            bs_max_deep: 5,
            deny_split_deep: 3,
            split_chance_dec: 30,
            split_max_coeff: 70,
            split_default_chance: 100,
            min_room_splittable_size: 150,
            coridor_width: 15,
        }
    }

    /// What is wrong with these settings or with the area, if anything. The
    /// split coefficient is looked at first, then the area, then the
    /// splittable size.
    pub open spec fn fault(self, width: u32, height: u32) -> Option<GenerateError> {
        if self.split_max_coeff <= 50 || self.split_max_coeff > 100 {
            Some(GenerateError::SplitCoefficient)
        } else if width == 0 || height == 0 {
            Some(GenerateError::EmptyArea)
        } else if self.min_room_splittable_size == 0 {
            Some(GenerateError::ZeroSplittableSize)
        } else {
            None
        }
    }

    /// The settings can be used on some area.
    pub open spec fn usable(self) -> bool {
        50 < self.split_max_coeff <= 100 && self.min_room_splittable_size > 0
    }

    /// Checks the settings and the area before anything is generated.
    pub fn check(&self, width: u32, height: u32) -> (fault: Option<GenerateError>)
        ensures
            fault == self.fault(width, height),
            fault is None <==> self.usable() && width > 0 && height > 0,
    {
        if self.split_max_coeff <= 50 || self.split_max_coeff > 100 {
            Some(GenerateError::SplitCoefficient)
        } else if width == 0 || height == 0 {
            Some(GenerateError::EmptyArea)
        } else if self.min_room_splittable_size == 0 {
            Some(GenerateError::ZeroSplittableSize)
        } else {
            None
        }
    }
}

} // verus!
