//! The per-lane note detector.
//!
//! The hit zone is a horizontal band around a center row. For each lane
//! the detector walks the rows of the band, averages a small square
//! neighborhood around the lane's column, and reports a note as soon as
//! one averaged sample matches the lane's glyph color. Detection is a
//! pure function of the frame, the lane and the hit zone: it keeps no
//! state across calls.

use vstd::prelude::*;

use crate::color::color_matches;
use crate::color::is_match;
use crate::color::Rgba;
use crate::frame::Frame;
use crate::lanes::Lane;

verus! {

/// Side length in pixels of the square neighborhood averaged per sample.
pub const AREA_SIZE: u32 = 5;

/// Rows scanned below the hit-zone center.
pub const SCAN_BELOW: u32 = 10;

/// Pixel row of the hit-zone center in the reference game's layout.
pub const HITZONE_Y: u32 = 1247;

/// Rows scanned above the hit-zone center in the reference game's layout.
pub const SCAN_HEIGHT: u32 = 50;

/// The horizontal band in which an arriving note must be struck.
#[derive(Clone, Copy, PartialEq, Eq, Structural, Debug)]
pub struct HitZone {
    /// Pixel row of the band's center.
    pub y: u32,
    /// Rows scanned above the center.
    pub scan_height: u32,
}

/// A coordinate moved up or left by half the sampling neighborhood,
/// saturating at the frame edge.
pub open spec fn sample_origin(v: int) -> int {
    if v >= 2 {
        v - 2
    } else {
        0
    }
}

/// The averaged sample for a lane column at row `y`.
pub open spec fn lane_sample(f: Frame, lane: Lane, y: int) -> Rgba {
    f.averaged(sample_origin(lane.x as int), sample_origin(y), AREA_SIZE as int, AREA_SIZE as int)
}

impl HitZone {
    /// The hit zone of the reference game.
    pub fn reference() -> (hz: HitZone)
        ensures
            hz.y == HITZONE_Y,
            hz.scan_height == SCAN_HEIGHT,
    {
        HitZone { y: HITZONE_Y, scan_height: SCAN_HEIGHT }
    }

    /// First row of the scan band: the center moved up by `scan_height`,
    /// saturating at the top of the frame.
    pub open spec fn scan_lo(self) -> int {
        if self.y >= self.scan_height {
            self.y - self.scan_height
        } else {
            0
        }
    }

    /// One past the last row of the scan band: the center moved down by
    /// `SCAN_BELOW`, clipped to the frame height.
    pub open spec fn scan_hi(self, f: Frame) -> int {
        if self.y + SCAN_BELOW < f.spec_height() as int {
            self.y + SCAN_BELOW
        } else {
            f.spec_height() as int
        }
    }

    /// A note is present when the lane's column lies inside the frame and
    /// some row of the scan band yields a matching averaged sample.
    pub open spec fn note_present(self, f: Frame, lane: Lane) -> bool {
        (lane.x as int) < f.spec_width() as int && exists|y: int|
            self.scan_lo() <= y < self.scan_hi(f) && is_match(
                #[trigger] lane_sample(f, lane, y),
                lane.color,
            )
    }

    /// Decide whether a note of `lane` is inside the hit zone of `frame`.
    /// A lane whose column lies outside the frame is never a detection.
    #[verifier::loop_isolation(false)]
    pub fn note_in_hitzone(&self, frame: &Frame, lane: &Lane) -> (r: bool)
        requires
            frame.wf(),
        ensures
            r == self.note_present(*frame, *lane),
            lane.x >= frame.spec_width() ==> r == false,
    {
        if lane.x >= frame.width() {
            return false;
        }
        let lo: u32 = if self.y >= self.scan_height {
            self.y - self.scan_height
        } else {
            0
        };
        let hi64: u64 = {
            let t = self.y as u64 + SCAN_BELOW as u64;
            if t < frame.height() as u64 {
                t
            } else {
                frame.height() as u64
            }
        };
        let sample_x: u32 = if lane.x >= 2 {
            lane.x - 2
        } else {
            0
        };
        if lo as u64 >= hi64 {
            return false;
        }
        let mut y: u64 = lo as u64;
        while y < hi64
            invariant
                lo as int <= y <= hi64,
                forall|ry: int|
                    lo as int <= ry < y ==> !is_match(
                        #[trigger] lane_sample(*frame, *lane, ry),
                        lane.color,
                    ),
            decreases hi64 - y,
        {
            let sample_y: u32 = if y >= 2 {
                (y - 2) as u32
            } else {
                0
            };
            let avg = frame.average_color(sample_x, sample_y, AREA_SIZE, AREA_SIZE);
            if color_matches(&avg, &lane.color) {
                proof {
                    assert(avg == lane_sample(*frame, *lane, y as int));
                    assert(self.scan_lo() <= y < self.scan_hi(*frame) && is_match(
                        lane_sample(*frame, *lane, y as int),
                        lane.color,
                    ));
                }
                return true;
            }
            y = y + 1;
        }
        false
    }
}

/// Detection is stateless across ticks: any two evaluations on the same
/// frame, lane and hit zone agree, because `note_in_hitzone` pins its
/// result to `note_present`, a function of those inputs alone.
pub proof fn lemma_detection_idempotent(hz: HitZone, f: Frame, lane: Lane, r1: bool, r2: bool)
    requires
        r1 == hz.note_present(f, lane),
        r2 == hz.note_present(f, lane),
    ensures
        r1 == r2,
{
}

} // verus!
