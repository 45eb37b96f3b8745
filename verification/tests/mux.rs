use input_pipeline::events::InputEvent;
use input_pipeline::gpio::{GPIOEvent, PhysicalButton};
use input_pipeline::mux::merge_streams;

fn press(button: PhysicalButton) -> InputEvent {
    InputEvent::GPIO { event: GPIOEvent::Press { button } }
}

fn unpress(button: PhysicalButton) -> InputEvent {
    InputEvent::GPIO { event: GPIOEvent::Unpress { button } }
}

#[test]
fn interleaving_keeps_each_producers_order() {
    let a = vec![press(PhysicalButton::LEFT), unpress(PhysicalButton::LEFT)];
    let b = vec![InputEvent::Multitouch, InputEvent::Wacom];
    let sched = vec![true, false, false, true];
    let out = merge_streams(&sched, &a, &b);
    assert_eq!(
        out,
        vec![
            (true, press(PhysicalButton::LEFT)),
            (false, InputEvent::Multitouch),
            (false, InputEvent::Wacom),
            (true, unpress(PhysicalButton::LEFT)),
        ]
    );
    // Projection onto each producer gives back its emission sequence.
    let from_a: Vec<InputEvent> =
        out.iter().filter(|p| p.0).map(|p| p.1).collect();
    let from_b: Vec<InputEvent> =
        out.iter().filter(|p| !p.0).map(|p| p.1).collect();
    assert_eq!(from_a, a);
    assert_eq!(from_b, b);
}

#[test]
fn every_schedule_preserves_per_producer_order() {
    let a = vec![press(PhysicalButton::POWER), unpress(PhysicalButton::POWER)];
    let b = vec![InputEvent::Wacom];
    // All three-slot schedules with exactly two turns for `a` and one for `b`.
    let schedules = [
        vec![true, true, false],
        vec![true, false, true],
        vec![false, true, true],
    ];
    for sched in schedules {
        let out = merge_streams(&sched, &a, &b);
        let from_a: Vec<InputEvent> =
            out.iter().filter(|p| p.0).map(|p| p.1).collect();
        let from_b: Vec<InputEvent> =
            out.iter().filter(|p| !p.0).map(|p| p.1).collect();
        assert_eq!(from_a, a);
        assert_eq!(from_b, b);
    }
}

#[test]
fn ended_source_contributes_nothing_and_other_continues() {
    let a: Vec<InputEvent> = Vec::new();
    let b = vec![press(PhysicalButton::RIGHT), unpress(PhysicalButton::RIGHT)];
    // The schedule still offers the ended producer turns; they deliver nothing.
    let sched = vec![true, false, true, false, true];
    let out = merge_streams(&sched, &a, &b);
    assert_eq!(
        out,
        vec![
            (false, press(PhysicalButton::RIGHT)),
            (false, unpress(PhysicalButton::RIGHT)),
        ]
    );
}

#[test]
fn exhausted_producer_slots_are_skipped() {
    let a = vec![InputEvent::Multitouch];
    let b = vec![InputEvent::Wacom];
    let sched = vec![true, true, true, false];
    let out = merge_streams(&sched, &a, &b);
    assert_eq!(out, vec![(true, InputEvent::Multitouch), (false, InputEvent::Wacom)]);
}
