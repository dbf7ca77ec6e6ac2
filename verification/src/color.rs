//! RGBA colors and the note/background classifier.
//!
//! A sample is a positive detection when either of two gates fires:
//! the brightness gate (the sample is near-white, which every lane's
//! glyph becomes as it flashes through the hit zone) or the proximity
//! gate (the sample is within a per-channel distance of the lane's own
//! glyph color).

use vstd::prelude::*;

verus! {

/// An RGBA color with 8-bit channels.
#[derive(Clone, Copy, PartialEq, Eq, Structural, Debug)]
pub struct Rgba {
    pub r: u8,
    pub g: u8,
    pub b: u8,
    pub a: u8,
}

/// The brightness gate fires only strictly above these channel floors.
pub const BRIGHT_FLOOR_R: u8 = 161;
pub const BRIGHT_FLOOR_G: u8 = 162;
pub const BRIGHT_FLOOR_B: u8 = 161;

/// The proximity gate fires only strictly below this per-channel distance.
pub const PROXIMITY_THRESHOLD: u8 = 30;

/// The hue-agnostic gate: a near-white sample counts as a note in every lane.
pub open spec fn brightness_gate(s: Rgba) -> bool {
    s.r > BRIGHT_FLOOR_R && s.g > BRIGHT_FLOOR_G && s.b > BRIGHT_FLOOR_B
}

/// Absolute difference of two channel values.
pub open spec fn channel_dist(a: u8, b: u8) -> int {
    if a >= b {
        a - b
    } else {
        b - a
    }
}

/// The per-lane gate: every color channel of the sample is strictly
/// within `PROXIMITY_THRESHOLD` of the target's.
pub open spec fn proximity_gate(s: Rgba, t: Rgba) -> bool {
    channel_dist(s.r, t.r) < PROXIMITY_THRESHOLD
        && channel_dist(s.g, t.g) < PROXIMITY_THRESHOLD
        && channel_dist(s.b, t.b) < PROXIMITY_THRESHOLD
}

/// A sample is a positive detection when either gate fires.
pub open spec fn is_match(s: Rgba, t: Rgba) -> bool {
    brightness_gate(s) || proximity_gate(s, t)
}

fn channel_close(a: u8, b: u8) -> (r: bool)
    ensures
        r == (channel_dist(a, b) < PROXIMITY_THRESHOLD),
{
    if a >= b {
        a - b < PROXIMITY_THRESHOLD
    } else {
        b - a < PROXIMITY_THRESHOLD
    }
}

/// Classify an averaged sample against a lane's glyph color.
pub fn color_matches(sample: &Rgba, target: &Rgba) -> (r: bool)
    ensures
        r == is_match(*sample, *target),
{
    if sample.r > BRIGHT_FLOOR_R && sample.g > BRIGHT_FLOOR_G && sample.b > BRIGHT_FLOOR_B {
        return true;
    }
    channel_close(sample.r, target.r) && channel_close(sample.g, target.g) && channel_close(
        sample.b,
        target.b,
    )
}

/// A sample above the brightness floors on all three channels is a
/// positive match against every target color, whatever its hue.
pub proof fn lemma_brightness_matches_every_color(s: Rgba, t: Rgba)
    requires
        s.r > BRIGHT_FLOOR_R,
        s.g > BRIGHT_FLOOR_G,
        s.b > BRIGHT_FLOOR_B,
    ensures
        is_match(s, t),
{
}

/// The proximity boundary is sharp: a sample within distance 29 of the
/// target on every channel matches; one at distance 30 or more on any
/// channel, when the brightness gate does not fire, does not match.
pub proof fn lemma_proximity_boundary(s: Rgba, t: Rgba)
    ensures
        (channel_dist(s.r, t.r) <= 29 && channel_dist(s.g, t.g) <= 29 && channel_dist(s.b, t.b)
            <= 29) ==> is_match(s, t),
        (!brightness_gate(s) && (channel_dist(s.r, t.r) >= 30 || channel_dist(s.g, t.g) >= 30
            || channel_dist(s.b, t.b) >= 30)) ==> !is_match(s, t),
{
}

} // verus!
