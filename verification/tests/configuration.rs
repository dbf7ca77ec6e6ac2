use chinge_bot::color::Rgba;
use chinge_bot::lanes::generate_lanes;
use chinge_bot::lanes::Key;
use chinge_bot::select::auto_choice;
use chinge_bot::select::choose_display;

#[test]
fn lane_table_matches_the_reference_layout() {
    let lanes = generate_lanes();
    assert_eq!(lanes.len(), 6);
    let expected = [
        (444u32, (0u8, 255u8, 0u8), Key::Q),
        (680, (255, 0, 0), Key::W),
        (997, (255, 255, 0), Key::E),
        (1562, (0, 0, 255), Key::R),
        (1838, (255, 165, 0), Key::T),
        (2115, (128, 0, 128), Key::Y),
    ];
    for (lane, (x, (r, g, b), key)) in lanes.iter().zip(expected.iter()) {
        assert_eq!(lane.x, *x);
        assert_eq!(lane.color, Rgba { r: *r, g: *g, b: *b, a: 255 });
        assert_eq!(lane.key, *key);
    }
}

#[test]
fn menu_entries_are_one_indexed() {
    assert_eq!(choose_display(3, 1), Some(0));
    assert_eq!(choose_display(3, 3), Some(2));
    assert_eq!(choose_display(3, 0), None);
    assert_eq!(choose_display(3, 4), None);
}

#[test]
fn a_single_display_is_chosen_automatically() {
    assert_eq!(auto_choice(1), Some(0));
    assert_eq!(auto_choice(0), None);
    assert_eq!(auto_choice(2), None);
}
