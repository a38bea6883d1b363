//! Drawing the region that a cluster of coordinate pairs falls in, and the
//! layout decisions of a generated document.

use vstd::prelude::*;

verus! {

#[verifier::external_type_specification]
#[verifier::external_body]
pub struct ExStdRng(rand::rngs::StdRng);

/// The largest extent of a region, in degrees, along either axis.
pub const MAX_DIFF: i32 = 20;

/// The number of pairs that share one region.
pub const BATCH: u64 = 5000;

/// A region of the globe in whole degrees: longitudes from `x_low` to
/// `x_high`, latitudes from `y_low` to `y_high`.
#[derive(Debug, Clone, Copy, PartialEq, Eq)]
pub struct Quadrant {
    pub x_low: i32,
    pub x_high: i32,
    pub y_low: i32,
    pub y_high: i32,
}

impl Quadrant {
    /// The region is not empty along either axis, is at most [`MAX_DIFF`]
    /// degrees wide and high, and starts inside the western 340 degrees of
    /// longitude and the southern 160 degrees of latitude.
    pub open spec fn is_valid(&self) -> bool {
        &&& -180 <= self.x_low < 160
        &&& self.x_low < self.x_high <= self.x_low + MAX_DIFF
        &&& -90 <= self.y_low < 70
        &&& self.y_low < self.y_high <= self.y_low + MAX_DIFF
    }
}

/// `Rng::random_range` of the crate `rand`, on a closed range of `i32`: it
/// draws a value that is at least `low` and at most `high`. The range must
/// not be empty, or the call panics.
#[verifier::external_body]
fn random_between(rng: &mut rand::rngs::StdRng, low: i32, high: i32) -> (value: i32)
    requires
        low <= high,
    ensures
        low <= value <= high,
{
    rand::Rng::random_range(rng, low..=high)
}

/// Draws a region: its western and southern edges first, then for each the
/// opposite edge, 1 to [`MAX_DIFF`] degrees further.
///
/// Whatever is drawn, the region is valid; so it lies inside the globe.
pub fn generate_random_quadrants(rng: &mut rand::rngs::StdRng) -> (quadrant: Quadrant)
    ensures
        quadrant.is_valid(),
        -180 < quadrant.x_high < 180,
        -90 < quadrant.y_high < 90,
{
    let x_low: i32 = random_between(rng, -180, 159);
    let x_high: i32 = random_between(rng, x_low + 1, x_low + MAX_DIFF);
    let y_low: i32 = random_between(rng, -90, 69);
    let y_high: i32 = random_between(rng, y_low + 1, y_low + MAX_DIFF);
    Quadrant { x_low, x_high, y_low, y_high }
}

/// Whether the pair with index `i` is the first of its batch, for which a
/// new region is drawn.
pub fn starts_batch(i: u64) -> (first: bool)
    ensures
        first == (i % BATCH == 0),
{
    i % BATCH == 0
}

/// What follows the pair with index `i` of `size` in the generated text: a
/// line break behind the last, a comma and a line break behind the others.
pub fn pair_separator(i: u64, size: u64) -> (separator: &'static str)
    requires
        i < size,
    ensures
        separator@ == if i == size - 1 {
            "\n"@
        } else {
            ",\n"@
        },
{
    if i == size - 1 {
        "\n"
    } else {
        ",\n"
    }
}

} // verus!
