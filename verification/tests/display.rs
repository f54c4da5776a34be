use flake_8::display::{Collision, Display, Sprite};

#[test]
fn new_display_is_blank() {
    let d = Display::new();
    for y in 0..32 {
        for x in 0..64 {
            assert!(!d.get(x, y));
        }
    }
}

#[test]
fn set_xors_and_reports_erasure() {
    let mut d = Display::new();
    assert!(!d.set(5, 6, true)); // off ^ on = on, nothing erased
    assert!(d.get(5, 6));
    assert!(d.set(5, 6, true)); // on ^ on = off, erased
    assert!(!d.get(5, 6));
    assert!(!d.set(5, 6, false)); // off ^ off = off
    assert!(!d.get(5, 6));
}

#[test]
fn clear_turns_everything_off() {
    let mut d = Display::new();
    d.set(1, 2, true);
    d.set(63, 31, true);
    d.clear();
    for y in 0..32 {
        for x in 0..64 {
            assert!(!d.get(x, y));
        }
    }
}

#[test]
fn draw_single_row() {
    let mut d = Display::new();
    let bytes = [0b1010_0001u8];
    let sprite = Sprite::new(&bytes);
    let collision = sprite.draw(0, 0, &mut d);
    assert!(collision == Collision::False);
    assert!(d.get(0, 0));
    assert!(!d.get(1, 0));
    assert!(d.get(2, 0));
    assert!(!d.get(3, 0));
    assert!(d.get(7, 0));
    assert!(!d.get(0, 1));
}

#[test]
fn draw_wraps_columns_at_64() {
    // An 8-pixel-wide full row drawn at x = 60 affects exactly the
    // columns 60, 61, 62, 63, 0, 1, 2, 3.
    let mut d = Display::new();
    let bytes = [0xFFu8];
    let sprite = Sprite::new(&bytes);
    sprite.draw(60, 0, &mut d);
    for x in [60, 61, 62, 63, 0, 1, 2, 3] {
        assert!(d.get(x, 0));
    }
    for x in 4..60 {
        assert!(!d.get(x, 0));
    }
}

#[test]
fn draw_wraps_rows_at_32() {
    // A 2-row sprite drawn at y = 31 affects exactly the rows 31 and 0.
    let mut d = Display::new();
    let bytes = [0x80u8, 0x80];
    let sprite = Sprite::new(&bytes);
    sprite.draw(0, 31, &mut d);
    assert!(d.get(0, 31));
    assert!(d.get(0, 0));
    for y in 1..31 {
        assert!(!d.get(0, y));
    }
}

#[test]
fn draw_wraps_entry_coordinates() {
    // Coordinates beyond the grid wrap once at entry: (64, 32) is (0, 0).
    let mut d = Display::new();
    let bytes = [0x80u8];
    let sprite = Sprite::new(&bytes);
    sprite.draw(64, 32, &mut d);
    assert!(d.get(0, 0));
}

#[test]
fn drawing_twice_restores_the_screen() {
    let mut d = Display::new();
    // Some pre-existing picture.
    d.set(1, 1, true);
    d.set(10, 3, true);
    d.set(62, 31, true);

    let before: Vec<Vec<bool>> =
        (0..32).map(|y| (0..64).map(|x| d.get(x, y)).collect()).collect();

    let bytes = [0xF0u8, 0x90, 0x90, 0x90, 0xF0];
    let sprite = Sprite::new(&bytes);
    let first = sprite.draw(60, 30, &mut d);
    assert!(first == Collision::False || first == Collision::True);
    let second = sprite.draw(60, 30, &mut d);

    // Every pixel is back to its pre-draw state.
    for y in 0..32 {
        for x in 0..64 {
            assert_eq!(d.get(x, y), before[y][x]);
        }
    }
    // The first draw turned pixels on (the screen was mostly blank), so
    // the second draw must report a collision.
    assert!(second == Collision::True);
}

#[test]
fn second_draw_collides_iff_first_turned_pixels_on() {
    // A sprite whose only bits land on already-lit pixels turns nothing
    // on; drawing it twice yields no collision the second time.
    let mut d = Display::new();
    d.set(0, 0, true);
    let bytes = [0x80u8]; // single pixel at (0, 0)
    let sprite = Sprite::new(&bytes);
    let first = sprite.draw(0, 0, &mut d);
    assert!(first == Collision::True); // erased the lit pixel
    let second = sprite.draw(0, 0, &mut d);
    assert!(second == Collision::False); // first turned nothing on
}

#[test]
fn collision_reported_on_overlap() {
    let mut d = Display::new();
    let bytes = [0xFFu8];
    let sprite = Sprite::new(&bytes);
    assert!(sprite.draw(0, 0, &mut d) == Collision::False);
    // Overlapping by four pixels erases them.
    assert!(sprite.draw(4, 0, &mut d) == Collision::True);
    // The overlap is off, the rest on.
    for x in 0..4 {
        assert!(d.get(x, 0));
    }
    for x in 4..8 {
        assert!(!d.get(x, 0));
    }
    for x in 8..12 {
        assert!(d.get(x, 0));
    }
}

#[test]
fn empty_sprite_draws_nothing() {
    let mut d = Display::new();
    let bytes: [u8; 0] = [];
    let sprite = Sprite::new(&bytes);
    assert!(sprite.draw(12, 13, &mut d) == Collision::False);
    for y in 0..32 {
        for x in 0..64 {
            assert!(!d.get(x, y));
        }
    }
}
