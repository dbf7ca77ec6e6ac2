use chinge_bot::detect::HitZone;
use chinge_bot::engine::cadence_sleep_us;
use chinge_bot::engine::step;
use chinge_bot::engine::CaptureEvent;
use chinge_bot::engine::Directive;
use chinge_bot::engine::PERIOD_US;
use chinge_bot::frame::Frame;
use chinge_bot::lanes::generate_lanes;
use chinge_bot::lanes::Key;

const WIDTH: u32 = 2560;
const HEIGHT: u32 = 1440;

fn frame_with_red_block_in_lane_lb() -> Frame {
    let mut data: Vec<u8> = Vec::with_capacity((WIDTH as usize) * (HEIGHT as usize) * 4);
    for _ in 0..(WIDTH as usize) * (HEIGHT as usize) {
        data.push(0);
        data.push(0);
        data.push(0);
        data.push(255);
    }
    for y in 1242..1252u32 {
        for x in 675..685u32 {
            let base = 4 * ((y as usize) * (WIDTH as usize) + (x as usize));
            data[base] = 255;
            data[base + 1] = 0;
            data[base + 2] = 0;
        }
    }
    Frame::from_rgba(WIDTH, HEIGHT, data).expect("enough complete pixels for the grid")
}

/// A BGRA capture buffer with the same red block, padded with trailing
/// bytes past the pixel grid, as some capture back ends deliver.
fn oversized_bgra_buffer_with_red_block() -> Vec<u8> {
    let mut data: Vec<u8> = Vec::with_capacity((WIDTH as usize) * (HEIGHT as usize) * 4 + 128);
    for _ in 0..(WIDTH as usize) * (HEIGHT as usize) {
        data.push(0);
        data.push(0);
        data.push(0);
        data.push(255);
    }
    for y in 1242..1252u32 {
        for x in 675..685u32 {
            let base = 4 * ((y as usize) * (WIDTH as usize) + (x as usize));
            data[base] = 0;
            data[base + 1] = 0;
            data[base + 2] = 255;
        }
    }
    for _ in 0..128 {
        data.push(7);
    }
    data
}

#[test]
fn oversized_capture_buffers_still_detect() {
    let frame = Frame::from_bgra(WIDTH, HEIGHT, oversized_bgra_buffer_with_red_block())
        .expect("enough complete pixels for the grid");
    let plan = step(&HitZone::reference(), CaptureEvent::Captured(frame), &generate_lanes());
    assert_eq!(plan.presses, vec![Key::W]);
    assert_eq!(plan.directive, Directive::Proceed);
}

#[test]
fn transient_failure_plans_no_clicks_and_backs_off() {
    let lanes = generate_lanes();
    let hz = HitZone::reference();
    let plan = step(&hz, CaptureEvent::Transient, &lanes);
    assert_eq!(plan.presses, Vec::<Key>::new());
    assert_eq!(plan.directive, Directive::Backoff);
}

#[test]
fn detection_resumes_on_the_tick_after_a_transient_failure() {
    let lanes = generate_lanes();
    let hz = HitZone::reference();
    let failing = step(&hz, CaptureEvent::Transient, &lanes);
    assert_eq!(failing.presses, Vec::<Key>::new());
    let next = step(&hz, CaptureEvent::Captured(frame_with_red_block_in_lane_lb()), &lanes);
    assert_eq!(next.presses, vec![Key::W]);
    assert_eq!(next.directive, Directive::Proceed);
}

#[test]
fn fatal_failure_stops_the_loop() {
    let lanes = generate_lanes();
    let hz = HitZone::reference();
    let plan = step(&hz, CaptureEvent::Fatal, &lanes);
    assert_eq!(plan.presses, Vec::<Key>::new());
    assert_eq!(plan.directive, Directive::Stop);
}

#[test]
fn cadence_sleep_pads_each_tick_to_the_period() {
    assert_eq!(cadence_sleep_us(0), PERIOD_US);
    assert_eq!(cadence_sleep_us(5000), 3333);
    assert_eq!(cadence_sleep_us(PERIOD_US), 0);
    assert_eq!(cadence_sleep_us(9000), 0);
}

#[test]
fn thirty_instant_ticks_total_thirty_periods() {
    let mut total: u64 = 0;
    for _ in 0..30 {
        let elapsed: u64 = 0;
        total += elapsed + cadence_sleep_us(elapsed);
    }
    assert_eq!(total, 30 * PERIOD_US);
}
