use input_pipeline::events::{InputEvent, RawEventRecord};
use input_pipeline::gpio::{
    decode, decode_sequence, GPIOEvent, GPIOState, PhysicalButton, EV_KEY, EV_SYN, KEY_HOME,
    KEY_LEFT, KEY_POWER, KEY_RIGHT, KEY_WAKEUP,
};

fn key(code: u16, value: i32) -> RawEventRecord {
    RawEventRecord { etype: EV_KEY, code, value, tv_sec: 0, tv_usec: 0 }
}

fn syn() -> RawEventRecord {
    RawEventRecord { etype: EV_SYN, code: 0, value: 0, tv_sec: 0, tv_usec: 0 }
}

fn press(button: PhysicalButton) -> InputEvent {
    InputEvent::GPIO { event: GPIOEvent::Press { button } }
}

fn unpress(button: PhysicalButton) -> InputEvent {
    InputEvent::GPIO { event: GPIOEvent::Unpress { button } }
}

const ALL_BUTTONS: [PhysicalButton; 5] = [
    PhysicalButton::LEFT,
    PhysicalButton::MIDDLE,
    PhysicalButton::RIGHT,
    PhysicalButton::POWER,
    PhysicalButton::WAKEUP,
];

#[test]
fn fresh_state_is_all_unpressed() {
    let state = GPIOState::default();
    for button in ALL_BUTTONS {
        assert!(!state.is_pressed(button));
    }
}

#[test]
fn syn_record_is_ignored_and_state_unchanged() {
    let mut state = GPIOState::default();
    assert_eq!(decode(&syn(), &mut state), None);
    for button in ALL_BUTTONS {
        assert!(!state.is_pressed(button));
    }
    // Also while a button is held.
    assert_eq!(decode(&key(KEY_POWER, 1), &mut state), Some(press(PhysicalButton::POWER)));
    assert_eq!(decode(&syn(), &mut state), None);
    assert!(state.is_pressed(PhysicalButton::POWER));
}

#[test]
fn unknown_code_is_ignored_and_no_slot_touched() {
    let mut state = GPIOState::default();
    assert_eq!(decode(&key(30, 1), &mut state), None);
    for button in ALL_BUTTONS {
        assert!(!state.is_pressed(button));
    }
}

#[test]
fn unexpected_event_type_is_ignored() {
    let mut state = GPIOState::default();
    let abs = RawEventRecord { etype: 3, code: 0, value: 500, tv_sec: 0, tv_usec: 0 };
    assert_eq!(decode(&abs, &mut state), None);
    for button in ALL_BUTTONS {
        assert!(!state.is_pressed(button));
    }
}

#[test]
fn each_key_code_maps_to_its_button() {
    let table = [
        (KEY_HOME, PhysicalButton::MIDDLE),
        (KEY_LEFT, PhysicalButton::LEFT),
        (KEY_RIGHT, PhysicalButton::RIGHT),
        (KEY_POWER, PhysicalButton::POWER),
        (KEY_WAKEUP, PhysicalButton::WAKEUP),
    ];
    for (code, button) in table {
        let mut state = GPIOState::default();
        assert_eq!(decode(&key(code, 1), &mut state), Some(press(button)));
        assert!(state.is_pressed(button));
        assert_eq!(decode(&key(code, 0), &mut state), Some(unpress(button)));
        assert!(!state.is_pressed(button));
    }
}

#[test]
fn repeat_press_after_flag_set_emits_nothing() {
    let mut state = GPIOState::default();
    assert_eq!(decode(&key(KEY_LEFT, 1), &mut state), Some(press(PhysicalButton::LEFT)));
    assert_eq!(decode(&key(KEY_LEFT, 1), &mut state), None);
    assert!(state.is_pressed(PhysicalButton::LEFT));
}

#[test]
fn autorepeat_value_counts_as_held() {
    let mut state = GPIOState::default();
    assert_eq!(decode(&key(KEY_RIGHT, 1), &mut state), Some(press(PhysicalButton::RIGHT)));
    // Kernel autorepeat reports value 2; the level is still "down".
    assert_eq!(decode(&key(KEY_RIGHT, 2), &mut state), None);
    assert_eq!(decode(&key(KEY_RIGHT, 0), &mut state), Some(unpress(PhysicalButton::RIGHT)));
}

#[test]
fn release_without_press_emits_nothing() {
    let mut state = GPIOState::default();
    assert_eq!(decode(&key(KEY_WAKEUP, 0), &mut state), None);
    assert!(!state.is_pressed(PhysicalButton::WAKEUP));
}

#[test]
fn held_power_button_scenario() {
    let mut state = GPIOState::default();
    let records = vec![key(KEY_POWER, 1), key(KEY_POWER, 1), key(KEY_POWER, 0)];
    let out = decode_sequence(&records, &mut state);
    assert_eq!(out, vec![press(PhysicalButton::POWER), unpress(PhysicalButton::POWER)]);
    assert!(!state.is_pressed(PhysicalButton::POWER));
}

#[test]
fn syn_then_left_press_scenario() {
    let mut state = GPIOState::default();
    let records = vec![syn(), key(KEY_LEFT, 1)];
    let out = decode_sequence(&records, &mut state);
    assert_eq!(out, vec![press(PhysicalButton::LEFT)]);
    assert!(state.is_pressed(PhysicalButton::LEFT));
}

#[test]
fn long_hold_emits_one_press_and_one_unpress() {
    let mut state = GPIOState::default();
    let mut records = Vec::new();
    for _ in 0..10 {
        records.push(key(KEY_HOME, 1));
    }
    records.push(key(KEY_HOME, 0));
    let out = decode_sequence(&records, &mut state);
    assert_eq!(out, vec![press(PhysicalButton::MIDDLE), unpress(PhysicalButton::MIDDLE)]);
}

#[test]
fn independent_buttons_do_not_interfere() {
    let mut state = GPIOState::default();
    let records = vec![
        key(KEY_LEFT, 1),
        key(KEY_RIGHT, 1),
        key(KEY_LEFT, 0),
        key(KEY_RIGHT, 0),
    ];
    let out = decode_sequence(&records, &mut state);
    assert_eq!(
        out,
        vec![
            press(PhysicalButton::LEFT),
            press(PhysicalButton::RIGHT),
            unpress(PhysicalButton::LEFT),
            unpress(PhysicalButton::RIGHT),
        ]
    );
}

#[test]
fn mixed_stream_with_syn_and_unknown_codes() {
    let mut state = GPIOState::default();
    let records = vec![
        syn(),
        key(KEY_POWER, 1),
        key(30, 1),
        syn(),
        key(KEY_POWER, 1),
        key(KEY_POWER, 0),
        key(30, 0),
    ];
    let out = decode_sequence(&records, &mut state);
    assert_eq!(out, vec![press(PhysicalButton::POWER), unpress(PhysicalButton::POWER)]);
}
