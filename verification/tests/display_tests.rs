use chip8::display::Display;
use chip8::display::{HEIGHT, WIDTH};

#[test]
fn new_display_all_off() {
    let d = Display::new();
    for y in 0..HEIGHT {
        for x in 0..WIDTH {
            assert!(!d.pixel_at(x, y));
        }
    }
}

#[test]
fn draw_sets_pixels_from_sprite_bits() {
    let mut d = Display::new();
    let sprite: Vec<u8> = vec![0b1000_0001];
    let collision = d.draw(0, 0, &sprite);
    assert!(!collision);
    assert!(d.pixel_at(0, 0));
    assert!(d.pixel_at(7, 0));
    for x in 1..7 {
        assert!(!d.pixel_at(x, 0));
    }
}

#[test]
fn draw_twice_restores_and_reports_collision() {
    let mut d = Display::new();
    let sprite: Vec<u8> = vec![0xF0, 0x90, 0x90, 0x90, 0xF0];
    let first = d.draw(10, 5, &sprite);
    assert!(!first);
    assert!(d.pixel_at(10, 5));
    let second = d.draw(10, 5, &sprite);
    assert!(second);
    for y in 0..HEIGHT {
        for x in 0..WIDTH {
            assert!(!d.pixel_at(x, y));
        }
    }
}

#[test]
fn draw_wraps_at_far_corner() {
    let mut d = Display::new();
    let sprite: Vec<u8> = vec![0xFF];
    let collision = d.draw(63, 31, &sprite);
    assert!(!collision);
    assert!(d.pixel_at(63, 31));
    for x in 0..7 {
        assert!(d.pixel_at(x, 31));
    }
    assert!(!d.pixel_at(7, 31));
    assert!(!d.pixel_at(63, 0));
}

#[test]
fn draw_row_wraps_vertically() {
    let mut d = Display::new();
    let sprite: Vec<u8> = vec![0x80, 0x80];
    let collision = d.draw(0, 31, &sprite);
    assert!(!collision);
    assert!(d.pixel_at(0, 31));
    assert!(d.pixel_at(0, 0));
}

#[test]
fn collision_only_where_overlap() {
    let mut d = Display::new();
    assert!(!d.draw(0, 0, &vec![0b1000_0000]));
    // No shared lit pixel: still no collision.
    assert!(!d.draw(1, 0, &vec![0b1000_0000]));
    // Overlaps the pixel at (1, 0): collision.
    assert!(d.draw(1, 0, &vec![0b1000_0000]));
    assert!(!d.pixel_at(1, 0));
}

#[test]
fn cls_turns_everything_off() {
    let mut d = Display::new();
    d.draw(3, 3, &vec![0xFF, 0xFF]);
    d.cls();
    for y in 0..HEIGHT {
        for x in 0..WIDTH {
            assert!(!d.pixel_at(x, y));
        }
    }
}

#[test]
fn swap_pixel_toggles_one_pixel() {
    let mut d = Display::new();
    d.swap_pixel(5, 9);
    assert!(d.pixel_at(5, 9));
    assert!(!d.pixel_at(9, 5));
    d.swap_pixel(5, 9);
    assert!(!d.pixel_at(5, 9));
}

#[test]
fn empty_sprite_draws_nothing() {
    let mut d = Display::new();
    let collision = d.draw(0, 0, &Vec::new());
    assert!(!collision);
    assert!(!d.pixel_at(0, 0));
}
