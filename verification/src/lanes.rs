//! The fixed lane set of the reference game.
//!
//! A lane is one input channel: a horizontal sampling center on the
//! screen, the reference color of that lane's note glyph, and the key
//! to click when a note is detected. Lanes are built once at startup
//! and never change; their order is the order in which detections are
//! acted on within a tick.

use vstd::prelude::*;

use crate::color::Rgba;

verus! {

/// The symbolic keyboard key bound to a lane.
#[derive(Clone, Copy, PartialEq, Eq, Structural, Debug)]
pub enum Key {
    Q,
    W,
    E,
    R,
    T,
    Y,
}

/// One input channel: sampling center, glyph color, bound key.
#[derive(Clone, Copy, PartialEq, Eq, Structural, Debug)]
pub struct Lane {
    /// Horizontal pixel coordinate of the lane's sampling center.
    pub x: u32,
    /// Reference RGBA color of the lane's note glyph.
    pub color: Rgba,
    /// Key to click when a note is detected in this lane.
    pub key: Key,
}

/// The left-trigger lane.
pub open spec fn lane_lt() -> Lane {
    Lane { x: 444, color: Rgba { r: 0, g: 255, b: 0, a: 255 }, key: Key::Q }
}

/// The left-bumper lane.
pub open spec fn lane_lb() -> Lane {
    Lane { x: 680, color: Rgba { r: 255, g: 0, b: 0, a: 255 }, key: Key::W }
}

/// The d-pad-up lane.
pub open spec fn lane_dpad_up() -> Lane {
    Lane { x: 997, color: Rgba { r: 255, g: 255, b: 0, a: 255 }, key: Key::E }
}

/// The Y-button lane.
pub open spec fn lane_y() -> Lane {
    Lane { x: 1562, color: Rgba { r: 0, g: 0, b: 255, a: 255 }, key: Key::R }
}

/// The right-bumper lane.
pub open spec fn lane_rb() -> Lane {
    Lane { x: 1838, color: Rgba { r: 255, g: 165, b: 0, a: 255 }, key: Key::T }
}

/// The right-trigger lane.
pub open spec fn lane_rt() -> Lane {
    Lane { x: 2115, color: Rgba { r: 128, g: 0, b: 128, a: 255 }, key: Key::Y }
}

/// The six lanes of the reference game, in evaluation order.
pub open spec fn default_lanes() -> Seq<Lane> {
    seq![lane_lt(), lane_lb(), lane_dpad_up(), lane_y(), lane_rb(), lane_rt()]
}

/// Build the fixed lane set of the reference game.
pub fn generate_lanes() -> (lanes: Vec<Lane>)
    ensures
        lanes@ == default_lanes(),
{
    let mut lanes: Vec<Lane> = Vec::new();
    lanes.push(Lane { x: 444, color: Rgba { r: 0, g: 255, b: 0, a: 255 }, key: Key::Q });
    lanes.push(Lane { x: 680, color: Rgba { r: 255, g: 0, b: 0, a: 255 }, key: Key::W });
    lanes.push(Lane { x: 997, color: Rgba { r: 255, g: 255, b: 0, a: 255 }, key: Key::E });
    lanes.push(Lane { x: 1562, color: Rgba { r: 0, g: 0, b: 255, a: 255 }, key: Key::R });
    lanes.push(Lane { x: 1838, color: Rgba { r: 255, g: 165, b: 0, a: 255 }, key: Key::T });
    lanes.push(Lane { x: 2115, color: Rgba { r: 128, g: 0, b: 128, a: 255 }, key: Key::Y });
    proof {
        assert(lanes@ =~= default_lanes());
    }
    lanes
}

} // verus!
