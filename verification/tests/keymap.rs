use flake_8::keymap::KeyMap;

#[test]
fn new_keymap_has_nothing_pressed() {
    let m = KeyMap::new();
    for k in 0..16 {
        assert!(!m.is_key_pressed(k));
    }
    assert_eq!(m.most_recent_key(), None);
}

#[test]
fn added_key_is_pressed_and_most_recent() {
    let mut m = KeyMap::new();
    m.add_key(0xC);
    assert!(m.is_key_pressed(0xC));
    assert!(!m.is_key_pressed(0xB));
    assert_eq!(m.most_recent_key(), Some(0xC));
    m.add_key(0x3);
    assert!(m.is_key_pressed(0xC));
    assert!(m.is_key_pressed(0x3));
    assert_eq!(m.most_recent_key(), Some(0x3));
}

#[test]
fn removed_key_is_no_longer_pressed() {
    let mut m = KeyMap::new();
    m.add_key(0x7);
    m.remove_key(0x7);
    assert!(!m.is_key_pressed(0x7));
    // The most recent press is a fact about the past; removal keeps it.
    assert_eq!(m.most_recent_key(), Some(0x7));
}

#[test]
fn values_beyond_the_keypad_are_ignored() {
    let mut m = KeyMap::new();
    m.add_key(16);
    m.add_key(0xFF);
    for k in 0..16 {
        assert!(!m.is_key_pressed(k));
    }
    assert!(!m.is_key_pressed(16));
    assert!(!m.is_key_pressed(0xFF));
    assert_eq!(m.most_recent_key(), None);
    m.remove_key(16);
}

#[test]
fn clear_forgets_held_keys_and_recent_press() {
    let mut m = KeyMap::new();
    m.add_key(0x1);
    m.add_key(0x2);
    m.clear();
    for k in 0..16 {
        assert!(!m.is_key_pressed(k));
    }
    assert_eq!(m.most_recent_key(), None);
}
