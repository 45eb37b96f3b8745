//! The GPIO decoder: a fixed key-code table and a per-button debounce state
//! machine that turns a noisy stream of key-level records into a clean stream
//! of genuine press/unpress transitions.

use vstd::prelude::*;
use crate::events::{InputEvent, RawEventRecord};

verus! {

/// Event type of a synchronization marker record.
pub const EV_SYN: u16 = 0;

/// Event type of a key (button) record.
pub const EV_KEY: u16 = 1;

/// Key code reported for the middle (home) button.
pub const KEY_HOME: u16 = 102;

/// Key code reported for the left button.
pub const KEY_LEFT: u16 = 105;

/// Key code reported for the right button.
pub const KEY_RIGHT: u16 = 106;

/// Key code reported for the power button.
pub const KEY_POWER: u16 = 116;

/// Key code reported for the wakeup button.
pub const KEY_WAKEUP: u16 = 143;

/// The physical buttons a GPIO device reports.
#[derive(Copy, Clone, PartialEq, Eq, Structural, Debug)]
pub enum PhysicalButton {
    LEFT,
    MIDDLE,
    RIGHT,
    POWER,
    WAKEUP,
}

/// A debounced button transition, as emitted by the GPIO decoder.
#[derive(Copy, Clone, PartialEq, Eq, Structural, Debug)]
pub enum GPIOEvent {
    /// The button went from released to pressed.
    Press { button: PhysicalButton },
    /// The button went from pressed to released.
    Unpress { button: PhysicalButton },
    /// A record the decoder could not interpret.
    Unknown,
}

/// The fixed key-code table: which physical button a key code names, or
/// `None` for a code the decoder silently ignores.
pub open spec fn button_of(code: u16) -> Option<PhysicalButton> {
    if code == KEY_HOME {
        Some(PhysicalButton::MIDDLE)
    } else if code == KEY_LEFT {
        Some(PhysicalButton::LEFT)
    } else if code == KEY_RIGHT {
        Some(PhysicalButton::RIGHT)
    } else if code == KEY_POWER {
        Some(PhysicalButton::POWER)
    } else if code == KEY_WAKEUP {
        Some(PhysicalButton::WAKEUP)
    } else {
        None
    }
}

/// The state slot holding a button's last known level.
pub open spec fn slot_index(button: PhysicalButton) -> int {
    match button {
        PhysicalButton::MIDDLE => 0,
        PhysicalButton::LEFT => 1,
        PhysicalButton::RIGHT => 2,
        PhysicalButton::POWER => 3,
        PhysicalButton::WAKEUP => 4,
    }
}

/// Private running state of one GPIO device context: the last known level of
/// every physical button, viewed as a sequence of five flags indexed by
/// [`slot_index`]. Created with all buttons unpressed; owned and mutated by a
/// single context.
pub struct GPIOState {
    middle: bool,
    left: bool,
    right: bool,
    power: bool,
    wakeup: bool,
}

impl View for GPIOState {
    type V = Seq<bool>;

    closed spec fn view(&self) -> Seq<bool> {
        seq![self.middle, self.left, self.right, self.power, self.wakeup]
    }
}

impl Default for GPIOState {
    /// Fresh state: every button unpressed.
    fn default() -> (s: Self)
        ensures
            s@ == seq![false, false, false, false, false],
    {
        GPIOState { middle: false, left: false, right: false, power: false, wakeup: false }
    }
}

impl GPIOState {
    /// Store `level` as the button's level and hand back the level stored
    /// before: the read-and-replace at the heart of the debounce step.
    pub fn replace_level(&mut self, button: PhysicalButton, level: bool) -> (previous: bool)
        ensures
            previous == old(self)@[slot_index(button)],
            final(self)@ == old(self)@.update(slot_index(button), level),
    {
        match button {
            PhysicalButton::MIDDLE => {
                let previous = self.middle;
                self.middle = level;
                proof {
                    assert(self@ =~= old(self)@.update(slot_index(button), level));
                }
                previous
            },
            PhysicalButton::LEFT => {
                let previous = self.left;
                self.left = level;
                proof {
                    assert(self@ =~= old(self)@.update(slot_index(button), level));
                }
                previous
            },
            PhysicalButton::RIGHT => {
                let previous = self.right;
                self.right = level;
                proof {
                    assert(self@ =~= old(self)@.update(slot_index(button), level));
                }
                previous
            },
            PhysicalButton::POWER => {
                let previous = self.power;
                self.power = level;
                proof {
                    assert(self@ =~= old(self)@.update(slot_index(button), level));
                }
                previous
            },
            PhysicalButton::WAKEUP => {
                let previous = self.wakeup;
                self.wakeup = level;
                proof {
                    assert(self@ =~= old(self)@.update(slot_index(button), level));
                }
                previous
            },
        }
    }

    /// Current stored level of one button, for outside inspection.
    pub fn is_pressed(&self, button: PhysicalButton) -> (level: bool)
        ensures
            level == self@[slot_index(button)],
    {
        match button {
            PhysicalButton::MIDDLE => self.middle,
            PhysicalButton::LEFT => self.left,
            PhysicalButton::RIGHT => self.right,
            PhysicalButton::POWER => self.power,
            PhysicalButton::WAKEUP => self.wakeup,
        }
    }
}

/// One decoding step: the semantic event (if any) and the successor state for
/// one raw record. A synchronization record and any record of an unexpected
/// type decode to nothing and leave the state alone; a key record for an
/// unknown code is ignored; a key record for a known code stores the new
/// level and reports a transition exactly when the level changed.
pub open spec fn gpio_step(ev: RawEventRecord, s: Seq<bool>) -> (Option<InputEvent>, Seq<bool>) {
    if ev.etype == EV_KEY {
        match button_of(ev.code) {
            Some(button) => {
                let level = ev.value != 0;
                let previous = s[slot_index(button)];
                let updated = s.update(slot_index(button), level);
                if level == previous {
                    (None, updated)
                } else if level {
                    (Some(InputEvent::GPIO { event: GPIOEvent::Press { button } }), updated)
                } else {
                    (Some(InputEvent::GPIO { event: GPIOEvent::Unpress { button } }), updated)
                }
            },
            None => (None, s),
        }
    } else {
        (None, s)
    }
}

/// Run the decoder over a whole record sequence: the events emitted, in
/// order, and the final state.
pub open spec fn gpio_run(evs: Seq<RawEventRecord>, s: Seq<bool>) -> (Seq<InputEvent>, Seq<bool>)
    decreases evs.len(),
{
    if evs.len() == 0 {
        (Seq::<InputEvent>::empty(), s)
    } else {
        let (first, after) = gpio_step(evs[0], s);
        let (rest, last) = gpio_run(evs.skip(1), after);
        match first {
            Some(e) => (seq![e] + rest, last),
            None => (rest, last),
        }
    }
}

/// Decode one raw record against the running state. Returns the debounced
/// transition when the record is a genuine level change of a known button,
/// and nothing otherwise; the state is updated exactly as [`gpio_step`] says.
pub fn decode(ev: &RawEventRecord, state: &mut GPIOState) -> (result: Option<InputEvent>)
    ensures
        result == gpio_step(*ev, old(state)@).0,
        final(state)@ == gpio_step(*ev, old(state)@).1,
{
    if ev.etype == EV_KEY {
        match button_for_code(ev.code) {
            Some(button) => {
                let new_level = ev.value != 0;
                let before = state.replace_level(button, new_level);
                if new_level == before {
                    // Repeat or bounce: the level did not really change.
                    None
                } else if new_level {
                    Some(InputEvent::GPIO { event: GPIOEvent::Press { button } })
                } else {
                    Some(InputEvent::GPIO { event: GPIOEvent::Unpress { button } })
                }
            },
            None => None,
        }
    } else {
        // Synchronization markers and unexpected types carry no content here.
        None
    }
}

/// Look a key code up in the fixed table.
pub fn button_for_code(code: u16) -> (button: Option<PhysicalButton>)
    ensures
        button == button_of(code),
{
    if code == KEY_HOME {
        Some(PhysicalButton::MIDDLE)
    } else if code == KEY_LEFT {
        Some(PhysicalButton::LEFT)
    } else if code == KEY_RIGHT {
        Some(PhysicalButton::RIGHT)
    } else if code == KEY_POWER {
        Some(PhysicalButton::POWER)
    } else if code == KEY_WAKEUP {
        Some(PhysicalButton::WAKEUP)
    } else {
        None
    }
}

/// Decode a batch of raw records in order, collecting the emitted events;
/// the state is threaded through every step, as one device context's reading
/// loop does.
pub fn decode_sequence(evs: &Vec<RawEventRecord>, state: &mut GPIOState) -> (out: Vec<InputEvent>)
    ensures
        out@ == gpio_run(evs@, old(state)@).0,
        final(state)@ == gpio_run(evs@, old(state)@).1,
{
    let mut out: Vec<InputEvent> = Vec::new();
    let mut i: usize = 0;
    proof {
        assert(evs@.skip(0) =~= evs@);
        assert(out@ + gpio_run(evs@, old(state)@).0 =~= gpio_run(evs@, old(state)@).0);
    }
    while i < evs.len()
        invariant
            i <= evs.len(),
            gpio_run(evs@, old(state)@).0 == out@ + gpio_run(evs@.skip(i as int), state@).0,
            gpio_run(evs@, old(state)@).1 == gpio_run(evs@.skip(i as int), state@).1,
        decreases evs.len() - i,
    {
        proof {
            assert(evs@.skip(i as int).len() > 0);
            assert(evs@.skip(i as int)[0] == evs@[i as int]);
            assert(evs@.skip(i as int).skip(1) =~= evs@.skip(i as int + 1));
        }
        let ghost prev_state = state@;
        let ghost prev_out = out@;
        let result = decode(&evs[i], state);
        match result {
            Some(e) => {
                out.push(e);
                proof {
                    let rest = gpio_run(evs@.skip(i as int + 1), state@).0;
                    assert(seq![e] + rest == gpio_run(evs@.skip(i as int), prev_state).0);
                    assert(prev_out + (seq![e] + rest) =~= (prev_out + seq![e]) + rest);
                }
            },
            None => {},
        }
        i = i + 1;
    }
    proof {
        assert(evs@.skip(i as int) =~= Seq::<RawEventRecord>::empty());
        assert(out@ + Seq::<InputEvent>::empty() =~= out@);
    }
    out
}

/// A synchronization record decodes to nothing and leaves the state
/// unchanged.
pub proof fn lemma_syn_is_noop(ev: RawEventRecord, s: Seq<bool>)
    requires
        ev.etype == EV_SYN,
    ensures
        gpio_step(ev, s) == (None::<InputEvent>, s),
{
}

/// A key record whose code is not in the table decodes to nothing and
/// touches no state slot.
pub proof fn lemma_unknown_code_is_noop(ev: RawEventRecord, s: Seq<bool>)
    requires
        ev.etype == EV_KEY,
        button_of(ev.code) is None,
    ensures
        gpio_step(ev, s) == (None::<InputEvent>, s),
{
}

/// Feeding the same key record of a known code twice in a row: after the
/// first step has stored the record's level, the repeat decodes to nothing
/// and changes nothing.
pub proof fn lemma_repeat_is_filtered(ev: RawEventRecord, s: Seq<bool>)
    requires
        s.len() == 5,
        ev.etype == EV_KEY,
        button_of(ev.code) is Some,
    ensures
        ({
            let (first, after) = gpio_step(ev, s);
            gpio_step(ev, after) == (None::<InputEvent>, after)
        }),
{
    let button = button_of(ev.code)->Some_0;
    let slot = slot_index(button);
    let level = ev.value != 0;
    let after = gpio_step(ev, s).1;
    assert(after == s.update(slot, level));
    assert(after[slot] == level);
    assert(after.update(slot, level) =~= after);
}

/// All records of `evs` are key records for `code` with the key held down.
pub open spec fn all_held(evs: Seq<RawEventRecord>, code: u16) -> bool {
    forall|j: int|
        0 <= j < evs.len() ==> evs[j].etype == EV_KEY && evs[j].code == code && evs[j].value != 0
}

/// `ev` is the release record for `code`.
pub open spec fn is_release(ev: RawEventRecord, code: u16) -> bool {
    ev.etype == EV_KEY && ev.code == code && ev.value == 0
}

/// While a known button is already held, further held records for it emit
/// nothing, and the release record that ends the sequence emits exactly one
/// unpress and clears the button's slot.
proof fn lemma_held_button_tail(
    evs: Seq<RawEventRecord>,
    s: Seq<bool>,
    code: u16,
    button: PhysicalButton,
)
    requires
        s.len() == 5,
        button_of(code) == Some(button),
        s[slot_index(button)],
        evs.len() >= 1,
        all_held(evs.take(evs.len() - 1), code),
        is_release(evs.last(), code),
    ensures
        gpio_run(evs, s).0 == seq![InputEvent::GPIO { event: GPIOEvent::Unpress { button } }],
        gpio_run(evs, s).1 == s.update(slot_index(button), false),
    decreases evs.len(),
{
    reveal_with_fuel(gpio_run, 2);
    let slot = slot_index(button);
    if evs.len() == 1 {
        assert(evs[0] == evs.last());
        assert(gpio_step(evs[0], s) == (
            Some(InputEvent::GPIO { event: GPIOEvent::Unpress { button } }),
            s.update(slot, false),
        ));
        assert(evs.skip(1) =~= Seq::<RawEventRecord>::empty());
        assert(seq![InputEvent::GPIO { event: GPIOEvent::Unpress { button } }] + Seq::<
            InputEvent,
        >::empty() =~= seq![InputEvent::GPIO { event: GPIOEvent::Unpress { button } }]);
    } else {
        assert(evs.take(evs.len() - 1)[0] == evs[0]);
        assert(evs[0].etype == EV_KEY && evs[0].code == code && evs[0].value != 0);
        let after = gpio_step(evs[0], s).1;
        assert(after == s.update(slot, true));
        assert(after =~= s);
        assert(gpio_step(evs[0], s).0 is None);
        let tail = evs.skip(1);
        assert(tail.last() == evs.last());
        assert(all_held(tail.take(tail.len() - 1), code)) by {
            assert forall|j: int| 0 <= j < tail.len() - 1 implies (#[trigger] tail.take(
                tail.len() - 1,
            )[j]).etype == EV_KEY && tail.take(tail.len() - 1)[j].code == code && tail.take(
                tail.len() - 1,
            )[j].value != 0 by {
                assert(tail.take(tail.len() - 1)[j] == evs.take(evs.len() - 1)[j + 1]);
            }
        }
        lemma_held_button_tail(tail, after, code, button);
        assert(gpio_run(evs, s).0 == gpio_run(tail, after).0);
        assert(after.update(slot, false) =~= s.update(slot, false));
    }
}

/// Debounce law for a held button: any number of key-down records for one
/// known code, followed by its release record, emits exactly one press and
/// then exactly one unpress, and returns the button's slot to unpressed.
pub proof fn lemma_held_button(
    evs: Seq<RawEventRecord>,
    s: Seq<bool>,
    code: u16,
    button: PhysicalButton,
)
    requires
        s.len() == 5,
        button_of(code) == Some(button),
        !s[slot_index(button)],
        evs.len() >= 2,
        all_held(evs.take(evs.len() - 1), code),
        is_release(evs.last(), code),
    ensures
        gpio_run(evs, s).0 == seq![
            InputEvent::GPIO { event: GPIOEvent::Press { button } },
            InputEvent::GPIO { event: GPIOEvent::Unpress { button } },
        ],
        gpio_run(evs, s).1 == s,
{
    reveal_with_fuel(gpio_run, 2);
    let slot = slot_index(button);
    assert(evs.take(evs.len() - 1)[0] == evs[0]);
    assert(evs[0].etype == EV_KEY && evs[0].code == code && evs[0].value != 0);
    let after = gpio_step(evs[0], s).1;
    assert(after == s.update(slot, true));
    assert(gpio_step(evs[0], s).0 == Some(InputEvent::GPIO { event: GPIOEvent::Press { button } }));
    let tail = evs.skip(1);
    assert(tail.last() == evs.last());
    assert(all_held(tail.take(tail.len() - 1), code)) by {
        assert forall|j: int| 0 <= j < tail.len() - 1 implies (#[trigger] tail.take(
            tail.len() - 1,
        )[j]).etype == EV_KEY && tail.take(tail.len() - 1)[j].code == code && tail.take(
            tail.len() - 1,
        )[j].value != 0 by {
            assert(tail.take(tail.len() - 1)[j] == evs.take(evs.len() - 1)[j + 1]);
        }
    }
    lemma_held_button_tail(tail, after, code, button);
    assert(gpio_run(evs, s).0 == seq![InputEvent::GPIO { event: GPIOEvent::Press { button } }]
        + gpio_run(tail, after).0);
    assert(seq![InputEvent::GPIO { event: GPIOEvent::Press { button } }] + seq![
        InputEvent::GPIO { event: GPIOEvent::Unpress { button } },
    ] =~= seq![
        InputEvent::GPIO { event: GPIOEvent::Press { button } },
        InputEvent::GPIO { event: GPIOEvent::Unpress { button } },
    ]);
    assert(after.update(slot, false) =~= s);
}

} // verus!
