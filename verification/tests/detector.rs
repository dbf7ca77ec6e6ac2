use chinge_bot::color::color_matches;
use chinge_bot::color::Rgba;
use chinge_bot::detect::HitZone;
use chinge_bot::frame::Frame;
use chinge_bot::lanes::generate_lanes;
use chinge_bot::lanes::Key;
use chinge_bot::lanes::Lane;

fn solid_frame(width: u32, height: u32, c: (u8, u8, u8, u8)) -> Frame {
    let mut data: Vec<u8> = Vec::new();
    for _ in 0..(width as usize) * (height as usize) {
        data.push(c.0);
        data.push(c.1);
        data.push(c.2);
        data.push(c.3);
    }
    Frame::from_rgba(width, height, data).expect("enough complete pixels for the grid")
}

fn rgba(r: u8, g: u8, b: u8) -> Rgba {
    Rgba { r, g, b, a: 255 }
}

#[test]
fn empty_sample_right_of_frame_is_opaque_black() {
    let f = solid_frame(10, 10, (200, 200, 200, 255));
    let avg = f.average_color(10, 0, 5, 5);
    assert_eq!(avg, rgba(0, 0, 0));
    assert_eq!(avg.a, 255);
}

#[test]
fn empty_sample_below_frame_is_opaque_black() {
    let f = solid_frame(10, 10, (200, 200, 200, 255));
    let avg = f.average_color(0, 12, 5, 5);
    assert_eq!(avg, rgba(0, 0, 0));
}

#[test]
fn constant_fill_average_is_the_fill() {
    let f = solid_frame(12, 12, (10, 20, 30, 255));
    let avg = f.average_color(3, 3, 5, 5);
    assert_eq!(avg, rgba(10, 20, 30));
}

#[test]
fn constant_fill_average_forces_alpha_opaque() {
    let f = solid_frame(12, 12, (10, 20, 30, 7));
    let avg = f.average_color(3, 3, 5, 5);
    assert_eq!(avg, rgba(10, 20, 30));
    assert_eq!(avg.a, 255);
}

#[test]
fn constant_fill_average_clipped_at_corner() {
    let f = solid_frame(8, 8, (90, 80, 70, 255));
    let avg = f.average_color(6, 6, 5, 5);
    assert_eq!(avg, rgba(90, 80, 70));
}

#[test]
fn brightness_gate_matches_every_lane_color() {
    let sample = rgba(162, 163, 162);
    for lane in generate_lanes() {
        assert!(color_matches(&sample, &lane.color));
    }
}

#[test]
fn brightness_gate_is_strict() {
    let at_floor = rgba(161, 162, 161);
    let black = rgba(0, 0, 0);
    assert!(!color_matches(&at_floor, &black));
}

#[test]
fn proximity_gate_matches_at_distance_29() {
    let target = rgba(100, 100, 100);
    assert!(color_matches(&rgba(129, 100, 100), &target));
    assert!(color_matches(&rgba(100, 71, 100), &target));
    assert!(color_matches(&rgba(129, 129, 129), &target));
}

#[test]
fn proximity_gate_rejects_at_distance_30() {
    let target = rgba(100, 100, 100);
    assert!(!color_matches(&rgba(130, 100, 100), &target));
    assert!(!color_matches(&rgba(100, 130, 100), &target));
    assert!(!color_matches(&rgba(100, 100, 70), &target));
}

#[test]
fn lane_at_last_column_does_not_fault() {
    let f = solid_frame(40, 40, (200, 0, 0, 255));
    let hz = HitZone { y: 20, scan_height: 5 };
    let lane = Lane { x: 39, color: rgba(200, 0, 0), key: Key::Q };
    assert!(hz.note_in_hitzone(&f, &lane));
}

#[test]
fn lane_outside_frame_is_never_detected() {
    let f = solid_frame(40, 40, (200, 0, 0, 255));
    let hz = HitZone { y: 20, scan_height: 5 };
    let lane = Lane { x: 40, color: rgba(200, 0, 0), key: Key::Q };
    assert!(!hz.note_in_hitzone(&f, &lane));
}

#[test]
fn detection_is_idempotent() {
    let f = solid_frame(40, 40, (200, 0, 0, 255));
    let hz = HitZone { y: 20, scan_height: 5 };
    let hit = Lane { x: 20, color: rgba(200, 0, 0), key: Key::Q };
    let miss = Lane { x: 20, color: rgba(0, 0, 200), key: Key::W };
    let first_hit = hz.note_in_hitzone(&f, &hit);
    let first_miss = hz.note_in_hitzone(&f, &miss);
    for _ in 0..5 {
        assert_eq!(hz.note_in_hitzone(&f, &hit), first_hit);
        assert_eq!(hz.note_in_hitzone(&f, &miss), first_miss);
    }
    assert!(first_hit);
    assert!(!first_miss);
}

#[test]
fn bgra_frames_are_normalized_to_rgba() {
    let f = Frame::from_bgra(1, 1, vec![1, 2, 3, 4]).expect("enough complete pixels for the grid");
    let avg = f.average_color(0, 0, 1, 1);
    assert_eq!(avg, rgba(3, 2, 1));
}

#[test]
fn frame_construction_rejects_short_buffers() {
    assert!(Frame::from_rgba(2, 2, vec![0; 15]).is_none());
    assert!(Frame::from_rgba(2, 2, vec![0; 16]).is_some());
    assert!(Frame::from_bgra(2, 2, vec![0; 15]).is_none());
}

#[test]
fn frame_construction_ignores_trailing_bytes() {
    assert!(Frame::from_bgra(2, 2, vec![0; 17]).is_some());
    let f = Frame::from_bgra(1, 1, vec![1, 2, 3, 4, 9, 9, 9, 9]).expect("one complete pixel");
    assert_eq!(f.average_color(0, 0, 1, 1), rgba(3, 2, 1));
    let g = Frame::from_rgba(1, 1, vec![5, 6, 7, 8, 200, 200, 200, 200]).expect(
        "one complete pixel",
    );
    assert_eq!(g.average_color(0, 0, 1, 1), rgba(5, 6, 7));
}
