use bos::decode::key_event_of;
use bos::decode::new_keyboard;
use bos::decode::process_scancode;
use pc_keyboard::DecodedKey;
use pc_keyboard::KeyCode;
use pc_keyboard::KeyEvent;
use pc_keyboard::KeyState;

#[test]
fn scancode_for_a_decodes_to_lowercase_a() {
    let mut kb = new_keyboard();
    let key = process_scancode(&mut kb, 0x1e);
    assert!(matches!(key, Some(DecodedKey::Unicode('a'))));
}

#[test]
fn shift_modifier_uppercases_the_next_key() {
    let mut kb = new_keyboard();
    // left shift pressed: reported as the raw modifier key itself
    let shift = process_scancode(&mut kb, 0x2a);
    assert!(matches!(shift, Some(DecodedKey::RawKey(KeyCode::LShift))));
    let key = process_scancode(&mut kb, 0x1e);
    assert!(matches!(key, Some(DecodedKey::Unicode('A'))));
}

#[test]
fn extended_prefix_is_a_partial_sequence() {
    let mut kb = new_keyboard();
    // the extended-scancode prefix byte on its own completes nothing
    let partial = process_scancode(&mut kb, 0xe0);
    assert!(partial.is_none());
    // the byte that follows completes an arrow key
    let key = process_scancode(&mut kb, 0x48);
    assert!(matches!(key, Some(DecodedKey::RawKey(KeyCode::ArrowUp))));
}

#[test]
fn key_event_of_keeps_completed_events_and_skips_errors() {
    let ev = KeyEvent { code: KeyCode::A, state: KeyState::Down };
    assert_eq!(key_event_of(Ok(Some(ev.clone()))), Some(ev));
    assert_eq!(key_event_of(Ok(None)), None);
    assert_eq!(key_event_of(Err(pc_keyboard::Error::UnknownKeyCode)), None);
}
