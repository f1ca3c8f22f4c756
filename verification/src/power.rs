//! Power levels shown by the display client.

use vstd::prelude::*;

verus! {

/// Lower bound (exclusive upper bound of "low") of the middle band, in watts.
pub const POWER_LOW_MAX: u32 = 300;
/// Exclusive upper bound of the middle band, in watts.
pub const POWER_MID_MAX: u32 = 1200;
/// Wattage that fills the gauge completely.
pub const POWER_MAX_DISPLAY: u32 = 2000;

/// Level shown by the gauge; `Unknown` when no power has been measured.
#[derive(Debug, Clone, Copy, PartialEq, Eq, Structural)]
pub enum DisplayLevel {
    Unknown,
    Low,
    Mid,
    High,
}

/// Level used to pick an image folder on the SD card (`LOW`, `MID`, `HIGH`).
#[derive(Debug, Clone, Copy, PartialEq, Eq, Structural)]
pub enum PowerLevel {
    Low,
    Mid,
    High,
}

impl PowerLevel {
    /// Index of the level's image list (low 0, mid 1, high 2).
    pub open spec fn spec_index(self) -> int {
        match self {
            PowerLevel::Low => 0,
            PowerLevel::Mid => 1,
            PowerLevel::High => 2,
        }
    }

    /// Index of the level's image list (low 0, mid 1, high 2).
    pub fn index(self) -> (r: usize)
        ensures
            r == self.spec_index(),
    {
        match self {
            PowerLevel::Low => 0,
            PowerLevel::Mid => 1,
            PowerLevel::High => 2,
        }
    }

    /// Name of the level's image folder under /IMG/POWER.
    pub fn subdir(self) -> (r: &'static str)
        ensures
            r@ == match self {
                PowerLevel::Low => "LOW"@,
                PowerLevel::Mid => "MID"@,
                PowerLevel::High => "HIGH"@,
            },
    {
        match self {
            PowerLevel::Low => "LOW",
            PowerLevel::Mid => "MID",
            PowerLevel::High => "HIGH",
        }
    }
}

pub open spec fn spec_watts_to_level(w: u32) -> DisplayLevel {
    if w == 0 {
        DisplayLevel::Unknown
    } else if w < POWER_LOW_MAX {
        DisplayLevel::Low
    } else if w < POWER_MID_MAX {
        DisplayLevel::Mid
    } else {
        DisplayLevel::High
    }
}

/// Classifies a wattage for the gauge.
pub fn watts_to_level(w: u32) -> (r: DisplayLevel)
    ensures
        r == spec_watts_to_level(w),
{
    if w == 0 {
        DisplayLevel::Unknown
    } else if w < POWER_LOW_MAX {
        DisplayLevel::Low
    } else if w < POWER_MID_MAX {
        DisplayLevel::Mid
    } else {
        DisplayLevel::High
    }
}

/// Level of the image overlay for `w` watts.
pub open spec fn spec_image_level(w: u32) -> PowerLevel {
    if w < POWER_LOW_MAX {
        PowerLevel::Low
    } else if w < POWER_MID_MAX {
        PowerLevel::Mid
    } else {
        PowerLevel::High
    }
}

/// Picks the image folder for `w` watts (below 300 W low, below 1200 W mid).
pub fn image_level(w: u32) -> (r: PowerLevel)
    ensures
        r == spec_image_level(w),
{
    if w < POWER_LOW_MAX {
        PowerLevel::Low
    } else if w < POWER_MID_MAX {
        PowerLevel::Mid
    } else {
        PowerLevel::High
    }
}

/// Order of the gauge levels, from no reading up to high.
pub open spec fn display_rank(l: DisplayLevel) -> int {
    match l {
        DisplayLevel::Unknown => 0,
        DisplayLevel::Low => 1,
        DisplayLevel::Mid => 2,
        DisplayLevel::High => 3,
    }
}

/// The levels are bands of the wattage: no reading at 0 W, low below 300 W,
/// mid from 300 W up to 1200 W and high from 1200 W; the image folders are the
/// same bands, with 0 W in the low one.
pub proof fn lemma_level_bands(w: u32)
    ensures
        w == 0 ==> spec_watts_to_level(w) == DisplayLevel::Unknown,
        0 < w < 300 ==> spec_watts_to_level(w) == DisplayLevel::Low,
        300 <= w < 1200 ==> spec_watts_to_level(w) == DisplayLevel::Mid,
        1200 <= w ==> spec_watts_to_level(w) == DisplayLevel::High,
        w < 300 ==> spec_image_level(w) == PowerLevel::Low,
        300 <= w < 1200 ==> spec_image_level(w) == PowerLevel::Mid,
        1200 <= w ==> spec_image_level(w) == PowerLevel::High,
{
}

/// More power never shows a lower level, on the gauge or in the images.
pub proof fn lemma_levels_monotone(w1: u32, w2: u32)
    requires
        w1 <= w2,
    ensures
        display_rank(spec_watts_to_level(w1)) <= display_rank(spec_watts_to_level(w2)),
        spec_image_level(w1).spec_index() <= spec_image_level(w2).spec_index(),
{
    lemma_level_bands(w1);
    lemma_level_bands(w2);
}

/// The gauge and the image overlay agree on the level of every measured wattage.
pub proof fn lemma_levels_agree(w: u32)
    requires
        w > 0,
    ensures
        spec_watts_to_level(w) == match spec_image_level(w) {
            PowerLevel::Low => DisplayLevel::Low,
            PowerLevel::Mid => DisplayLevel::Mid,
            PowerLevel::High => DisplayLevel::High,
        },
{
}

} // verus!
