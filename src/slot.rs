//! The closed table of icon slots and the rule that classifies an image's
//! side length against it.
use vstd::prelude::*;

verus! {

/// Display density of a source image, taken from its file name by the caller.
#[derive(Clone, Copy, Debug, PartialEq, Eq, Structural)]
pub enum Density {
    Standard,
    Retina,
}

impl Density {
    pub open spec fn spec_factor(self) -> u32 {
        match self {
            Density::Standard => 1,
            Density::Retina => 2,
        }
    }

    /// The scale factor: 1 for standard displays, 2 for retina displays.
    #[verifier::when_used_as_spec(spec_factor)]
    pub fn factor(self) -> (r: u32)
        ensures
            r == self.spec_factor(),
    {
        match self {
            Density::Standard => 1,
            Density::Retina => 2,
        }
    }
}

/// The (square pixel size, density) pairs for which the container format has
/// an icon slot.
pub open spec fn slot_defined(size: u32, density: u32) -> bool {
    ||| density == 1 && (size == 16 || size == 32 || size == 48 || size == 64 || size == 128
        || size == 256 || size == 512)
    ||| density == 2 && (size == 32 || size == 64 || size == 256 || size == 512 || size == 1024)
}

/// One icon slot of the container: a square pixel size at a display density.
#[derive(Clone, Copy, Debug, PartialEq, Eq, Structural)]
pub struct SlotType {
    pub size: u32,
    pub density: u32,
}

impl SlotType {
    pub open spec fn wf(self) -> bool {
        slot_defined(self.size, self.density)
    }
}

#[verifier::external_type_specification]
#[verifier::external_body]
pub struct ExIconType(icns::IconType);

/// Relies on icns::IconType::from_pixel_size_and_density: it returns `Some`
/// exactly for the square sizes and densities of its slot table.
#[verifier::external_body]
pub(crate) fn icon_type_for(size: u32, density: u32) -> (r: Option<icns::IconType>)
    ensures
        r.is_some() == slot_defined(size, density),
{
    icns::IconType::from_pixel_size_and_density(size, size, density)
}

/// The slot for a square image of side `size` at `density`, if the container
/// has one.
pub fn slot_for(size: u32, density: Density) -> (r: Option<SlotType>)
    ensures
        r == (if slot_defined(size, density.factor()) {
            Some(SlotType { size, density: density.factor() })
        } else {
            None
        }),
{
    let d = density.factor();
    match icon_type_for(size, d) {
        Some(_) => Some(SlotType { size, density: d }),
        None => None,
    }
}

/// `n` is a power of two (1, 2, 4, ...).
pub open spec fn is_power_of_two(n: nat) -> bool
    decreases n,
{
    if n == 1 {
        true
    } else {
        n > 1 && n % 2 == 0 && is_power_of_two(n / 2)
    }
}

/// `2^floor(log2(s))`: the largest power of two not above `s`, for `s >= 1`.
pub open spec fn floor_pow2(s: nat) -> nat
    decreases s,
{
    if s <= 1 {
        1
    } else {
        2 * floor_pow2(s / 2)
    }
}

/// `floor_pow2(s)` is a power of two `t` with `t <= s < 2t`.
pub proof fn lemma_floor_pow2_bounds(s: nat)
    requires
        s >= 1,
    ensures
        is_power_of_two(floor_pow2(s)),
        floor_pow2(s) <= s,
        s < 2 * floor_pow2(s),
    decreases s,
{
    if s > 1 {
        lemma_floor_pow2_bounds(s / 2);
        let t = floor_pow2(s / 2);
        assert((2 * t) / 2 == t);
    }
}

/// A power of two `t` with `t <= s < 2t` is `floor_pow2(s)`: the rounding
/// target is unique.
pub proof fn lemma_floor_pow2_unique(s: nat, t: nat)
    requires
        is_power_of_two(t),
        t <= s,
        s < 2 * t,
    ensures
        t == floor_pow2(s),
    decreases s,
{
    if s > 1 {
        if t == 1 {
            assert(false);
        }
        assert(t / 2 <= s / 2);
        lemma_floor_pow2_unique(s / 2, t / 2);
    } else {
        if t != 1 {
            assert(t % 2 == 0 && t > 1);
        }
    }
}

/// Rounds `s` down to the nearest power of two.
pub fn floor_power_of_two(s: u32) -> (r: u32)
    requires
        s >= 1,
    ensures
        r as nat == floor_pow2(s as nat),
        r <= s,
{
    let mut t: u32 = 1;
    while t <= s / 2
        invariant
            1 <= t <= s,
            is_power_of_two(t as nat),
        decreases s - t,
    {
        assert(((2 * t) as nat) / 2 == t as nat);
        t = t * 2;
    }
    proof {
        lemma_floor_pow2_unique(s as nat, t as nat);
    }
    t
}

/// What the packer does with an image of a given side length and density.
#[derive(Clone, Copy, Debug, PartialEq, Eq, Structural)]
pub enum Classification {
    /// The side length fills this slot as it is.
    Direct(SlotType),
    /// The side length fills no slot, but the next power of two below it does:
    /// shrink the image to this size first.
    NeedsResize(u32),
    /// Neither the side length nor its power-of-two floor fills a slot.
    Unusable,
}

/// The classification of a side length `side` at `density`.
pub open spec fn classification_of(side: u32, density: Density) -> Classification {
    let d = density.spec_factor();
    if slot_defined(side, d) {
        Classification::Direct(SlotType { size: side, density: d })
    } else if side >= 1 && floor_pow2(side as nat) < side && slot_defined(
        floor_pow2(side as nat) as u32,
        d,
    ) {
        Classification::NeedsResize(floor_pow2(side as nat) as u32)
    } else {
        Classification::Unusable
    }
}

/// Classifies an image's square side length at a display density. Images are
/// only ever shrunk, never enlarged.
pub fn classify(side: u32, density: Density) -> (r: Classification)
    ensures
        r == classification_of(side, density),
{
    match slot_for(side, density) {
        Some(slot) => Classification::Direct(slot),
        None => {
            if side == 0 {
                return Classification::Unusable;
            }
            let target = floor_power_of_two(side);
            if target < side && slot_for(target, density).is_some() {
                Classification::NeedsResize(target)
            } else {
                Classification::Unusable
            }
        },
    }
}

/// A resize target is `2^floor(log2(s))`: a power of two `t` with
/// `t <= s < 2t`; a side length that is already a power of two is its own
/// floor, so it is never resized.
pub proof fn lemma_resize_target_rounds_down(side: u32, density: Density)
    ensures
        classification_of(side, density) matches Classification::NeedsResize(t) ==> {
            &&& is_power_of_two(t as nat)
            &&& t <= side
            &&& (side as nat) < 2 * (t as nat)
            &&& t as nat == floor_pow2(side as nat)
        },
        side >= 1 ==> (is_power_of_two(side as nat) <==> floor_pow2(side as nat) == side),
{
    if side >= 1 {
        lemma_floor_pow2_bounds(side as nat);
        if is_power_of_two(side as nat) {
            lemma_floor_pow2_unique(side as nat, side as nat);
        }
    }
}

/// A resize target always fills a slot, and is strictly smaller than the side.
pub proof fn lemma_resize_target_fills_slot(side: u32, density: Density)
    ensures
        classification_of(side, density) matches Classification::NeedsResize(t) ==> t < side
            && slot_defined(t, density.spec_factor()),
{
}

} // verus!
