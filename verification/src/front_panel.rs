//! The front panel: a rotary encoder with a switch, four buttons and an LED,
//! all wired to an MCP23S17 I/O expander.
use vstd::prelude::*;

use crate::mcp23s17::{InterruptMode, Mcp23s17SpiError, PinMode};

verus! {

/// Expander pin of the rotary encoder's A signal.
pub const ROT_A: u8 = 0;
/// Expander pin of the rotary encoder's B signal.
pub const ROT_B: u8 = 1;
/// Expander pin of the rotary encoder's switch.
pub const ROT_SW: u8 = 2;
/// Expander pin of button 1.
pub const BTN_1: u8 = 3;
/// Expander pin of button 2.
pub const BTN_2: u8 = 4;
/// Expander pin of button 3.
pub const BTN_3: u8 = 5;
/// Expander pin of button 4.
pub const BTN_4: u8 = 6;
/// Expander pin of the LED.
pub const LED: u8 = 8;

/// The buttons/switches on the front panel
#[derive(Debug, Clone, Copy, PartialEq, Eq, Structural)]
pub enum Buttons {
    RotaryEncoderSwitch,
    Button1,
    Button2,
    Button3,
    Button4,
    NoButton,
    Unknown,
}

/// The rotary encoder direction is either `Clockwise`, `CounterClockwise`,
/// or no movement.
#[derive(Debug, Clone, Copy, PartialEq, Eq, Structural)]
pub enum Direction {
    Clockwise,
    CounterClockwise,
    NoMovement,
}

/// Failures of the front panel.
#[derive(Debug, Clone, Copy, PartialEq, Eq, Structural)]
pub enum FrontPanelError {
    Spi,
    UnknownInputControl,
    CannotGetMutex,
}

impl From<Mcp23s17SpiError> for FrontPanelError {
    fn from(_err: Mcp23s17SpiError) -> (r: FrontPanelError) {
        FrontPanelError::Spi
    }
}

impl vstd::std_specs::convert::FromSpecImpl<Mcp23s17SpiError> for FrontPanelError {
    open spec fn obeys_from_spec() -> bool {
        true
    }

    open spec fn from_spec(v: Mcp23s17SpiError) -> FrontPanelError {
        FrontPanelError::Spi
    }
}

/// One configuration step of the panel's expander.
#[derive(Debug, Clone, Copy, PartialEq, Eq, Structural)]
pub enum PanelSetup {
    /// Configure a pin with a mode.
    Pin(u8, PinMode),
    /// Set the interrupt mode of a pin.
    Interrupt(u8, InterruptMode),
}

/// The configuration of the panel, in order: the encoder signals and the
/// buttons are pulled-up inputs, the encoder switch (pulled down on the
/// board) a floating input, the LED an output; then interrupts on the
/// active-low inputs when they go low and on the switch when it goes high.
pub open spec fn panel_setup() -> Seq<PanelSetup> {
    seq![
        PanelSetup::Pin(ROT_A, PinMode::InputPullup),
        PanelSetup::Pin(ROT_B, PinMode::InputPullup),
        PanelSetup::Pin(ROT_SW, PinMode::InputFloating),
        PanelSetup::Pin(BTN_1, PinMode::InputPullup),
        PanelSetup::Pin(BTN_2, PinMode::InputPullup),
        PanelSetup::Pin(BTN_3, PinMode::InputPullup),
        PanelSetup::Pin(BTN_4, PinMode::InputPullup),
        PanelSetup::Pin(LED, PinMode::Output),
        PanelSetup::Interrupt(ROT_A, InterruptMode::ActiveLow),
        PanelSetup::Interrupt(ROT_B, InterruptMode::ActiveLow),
        PanelSetup::Interrupt(ROT_SW, InterruptMode::ActiveHigh),
        PanelSetup::Interrupt(BTN_1, InterruptMode::ActiveLow),
        PanelSetup::Interrupt(BTN_2, InterruptMode::ActiveLow),
        PanelSetup::Interrupt(BTN_3, InterruptMode::ActiveLow),
        PanelSetup::Interrupt(BTN_4, InterruptMode::ActiveLow),
    ]
}

/// The direction a filtered encoder reading stands for: `0x17` is a step
/// counter-clockwise, `0x2B` one clockwise.
pub open spec fn phase_of(s: u8) -> Direction {
    if s == 0x17 {
        Direction::CounterClockwise
    } else if s == 0x2B {
        Direction::Clockwise
    } else {
        Direction::NoMovement
    }
}

/// Whether a 4-bit (previous, next) pair of A/B readings is a transition the
/// encoder can make; the others are contact bounce.
pub open spec fn is_valid_transition(prev_next: u8) -> bool {
    prev_next == 1 || prev_next == 2 || prev_next == 4 || prev_next == 7 || prev_next == 8
        || prev_next == 11 || prev_next == 13 || prev_next == 14
}

/// The (previous, next) pair of readings: the last reading, kept in the two
/// low bits of the state, and the new one, A in bit 0 and B in bit 1.
pub open spec fn prev_next_of(state: u8, a: bool, b: bool) -> u8 {
    ((((state << 2u8) as u8) & 0xFu8) | (if a { 1u8 } else { 0u8 }) | (if b { 2u8 } else { 0u8 })) as u8
}

/// One step of the encoder filter: the new state and the direction seen.
/// A valid transition is recorded in both halves of the state and, with
/// the last valid transition (the high half), decides the direction; an
/// invalid one only replaces the low half and reports no movement.
pub open spec fn rotary_step(state: u8, a: bool, b: bool) -> (u8, Direction) {
    let pn = prev_next_of(state, a, b);
    if is_valid_transition(pn) {
        ((((pn << 4u8) as u8) | pn) as u8, phase_of(((state & 0xF0u8) | pn) as u8))
    } else {
        (((state & 0xF0u8) | pn) as u8, Direction::NoMovement)
    }
}

/// The button that a reading of port A shows pressed: the buttons (pins 3
/// to 6) are active low, the encoder switch (pin 2) active high, the
/// encoder signals (pins 0 and 1) are ignored; of several, the lowest pin
/// wins, and pin 7 is no known control.
pub open spec fn pressed_button(port_a: u8) -> Result<Buttons, FrontPanelError> {
    let p = ((port_a ^ 0b0111_1000u8) & 0b1111_1100u8) as u8;
    if p & 0x04 != 0 {
        Ok(Buttons::RotaryEncoderSwitch)
    } else if p & 0x08 != 0 {
        Ok(Buttons::Button1)
    } else if p & 0x10 != 0 {
        Ok(Buttons::Button2)
    } else if p & 0x20 != 0 {
        Ok(Buttons::Button3)
    } else if p & 0x40 != 0 {
        Ok(Buttons::Button4)
    } else if p & 0x80 != 0 {
        Err(FrontPanelError::UnknownInputControl)
    } else {
        Ok(Buttons::NoButton)
    }
}

/// The expander pin of a button, if it has one.
pub open spec fn button_pin_of(button: Buttons) -> Option<u8> {
    match button {
        Buttons::RotaryEncoderSwitch => Some(ROT_SW),
        Buttons::Button1 => Some(BTN_1),
        Buttons::Button2 => Some(BTN_2),
        Buttons::Button3 => Some(BTN_3),
        Buttons::Button4 => Some(BTN_4),
        Buttons::NoButton => None,
        Buttons::Unknown => None,
    }
}

/// The front panel's decisions; the expander itself is driven elsewhere.
pub struct FrontPanel {}

impl FrontPanel {
    /// The direction a filtered encoder reading stands for; see [`phase_of`].
    pub fn phase(s: u8) -> (d: Direction)
        ensures
            d == phase_of(s),
    {
        match s {
            0x17 => Direction::CounterClockwise,
            0x2B => Direction::Clockwise,
            _ => Direction::NoMovement,
        }
    }

    /// One step of the encoder filter; see [`rotary_step`].
    pub fn decode_rotary_step(state: u8, a: bool, b: bool) -> (r: (u8, Direction))
        ensures
            r == rotary_step(state, a, b),
    {
        let mut prev_next: u8 = (state << 2u8) & 0xF;
        if a {
            prev_next = prev_next | 0x01;
        }
        if b {
            prev_next = prev_next | 0x02;
        }
        assert(prev_next == prev_next_of(state, a, b)) by (bit_vector)
            requires
                prev_next == (if b { (if a { ((state << 2u8) & 0xFu8) | 1u8 } else { (state << 2u8) & 0xFu8 }) | 2u8 } else { (if a { ((state << 2u8) & 0xFu8) | 1u8 } else { (state << 2u8) & 0xFu8 }) }),
        ;
        match prev_next {
            1 | 2 | 4 | 7 | 8 | 11 | 13 | 14 => {
                let result = (state & 0xF0) | prev_next;
                ((prev_next << 4u8) | prev_next, Self::phase(result))
            },
            _ => ((state & 0xF0) | prev_next, Direction::NoMovement),
        }
    }

    /// Which button a reading of port A shows pressed; see [`pressed_button`].
    pub fn button_from_port(port_a: u8) -> (r: Result<Buttons, FrontPanelError>)
        ensures
            r == pressed_button(port_a),
    {
        let p = (port_a ^ 0b0111_1000) & 0b1111_1100;
        if p & 0x04 != 0 {
            Ok(Buttons::RotaryEncoderSwitch)
        } else if p & 0x08 != 0 {
            Ok(Buttons::Button1)
        } else if p & 0x10 != 0 {
            Ok(Buttons::Button2)
        } else if p & 0x20 != 0 {
            Ok(Buttons::Button3)
        } else if p & 0x40 != 0 {
            Ok(Buttons::Button4)
        } else if p & 0x80 != 0 {
            Err(FrontPanelError::UnknownInputControl)
        } else {
            Ok(Buttons::NoButton)
        }
    }

    /// The expander pin of a button, if it has one.
    pub fn button_pin(button: Buttons) -> (r: Option<u8>)
        ensures
            r == button_pin_of(button),
    {
        match button {
            Buttons::RotaryEncoderSwitch => Some(ROT_SW),
            Buttons::Button1 => Some(BTN_1),
            Buttons::Button2 => Some(BTN_2),
            Buttons::Button3 => Some(BTN_3),
            Buttons::Button4 => Some(BTN_4),
            Buttons::NoButton => None,
            Buttons::Unknown => None,
        }
    }

    /// Whether a button reads as pressed at pin level `level` (`true` is
    /// high): the encoder switch is pulled down on the board and so active
    /// high, the four buttons are active low, and controls without a pin
    /// never read as pressed.
    pub fn button_is_pressed(button: Buttons, level: bool) -> (r: bool)
        ensures
            r == (button_pin_of(button) is Some && if button == Buttons::RotaryEncoderSwitch {
                level
            } else {
                !level
            }),
    {
        match button {
            Buttons::RotaryEncoderSwitch => level,
            Buttons::Button1 | Buttons::Button2 | Buttons::Button3 | Buttons::Button4 => !level,
            Buttons::NoButton | Buttons::Unknown => false,
        }
    }

    /// The configuration of the panel's expander; see [`panel_setup`].
    pub fn setup() -> (r: Vec<PanelSetup>)
        ensures
            r@ == panel_setup(),
    {
        let mut r: Vec<PanelSetup> = Vec::new();
        r.push(PanelSetup::Pin(ROT_A, PinMode::InputPullup));
        r.push(PanelSetup::Pin(ROT_B, PinMode::InputPullup));
        r.push(PanelSetup::Pin(ROT_SW, PinMode::InputFloating));
        r.push(PanelSetup::Pin(BTN_1, PinMode::InputPullup));
        r.push(PanelSetup::Pin(BTN_2, PinMode::InputPullup));
        r.push(PanelSetup::Pin(BTN_3, PinMode::InputPullup));
        r.push(PanelSetup::Pin(BTN_4, PinMode::InputPullup));
        r.push(PanelSetup::Pin(LED, PinMode::Output));
        r.push(PanelSetup::Interrupt(ROT_A, InterruptMode::ActiveLow));
        r.push(PanelSetup::Interrupt(ROT_B, InterruptMode::ActiveLow));
        r.push(PanelSetup::Interrupt(ROT_SW, InterruptMode::ActiveHigh));
        r.push(PanelSetup::Interrupt(BTN_1, InterruptMode::ActiveLow));
        r.push(PanelSetup::Interrupt(BTN_2, InterruptMode::ActiveLow));
        r.push(PanelSetup::Interrupt(BTN_3, InterruptMode::ActiveLow));
        r.push(PanelSetup::Interrupt(BTN_4, InterruptMode::ActiveLow));
        assert(r@ =~= panel_setup());
        r
    }
}

/// The encoder signals (pins 0 and 1) never change which button a reading
/// of port A shows pressed.
pub proof fn lemma_encoder_signals_ignored(port_a: u8, signals: u8)
    requires
        signals <= 3,
    ensures
        pressed_button(port_a ^ signals) == pressed_button(port_a),
{
    let p = ((port_a ^ 0b0111_1000u8) & 0b1111_1100u8) as u8;
    let q = (((port_a ^ signals) ^ 0b0111_1000u8) & 0b1111_1100u8) as u8;
    assert(p == q) by (bit_vector)
        requires
            signals <= 3,
            p == ((port_a ^ 0b0111_1000u8) & 0b1111_1100u8),
            q == (((port_a ^ signals) ^ 0b0111_1000u8) & 0b1111_1100u8),
    ;
}

/// Contact bounce is filtered: an invalid transition reports no movement
/// and keeps the last valid transition in the high half of the state, and
/// only a valid transition can report a direction.
pub proof fn lemma_bounce_is_filtered(state: u8, a: bool, b: bool)
    ensures
        !is_valid_transition(prev_next_of(state, a, b)) ==> rotary_step(state, a, b).1
            == Direction::NoMovement && rotary_step(state, a, b).0 & 0xF0u8 == state & 0xF0u8,
{
    let pn = prev_next_of(state, a, b);
    assert(pn <= 15) by (bit_vector)
        requires
            pn == ((((state << 2u8) as u8) & 0xFu8) | (if a { 1u8 } else { 0u8 }) | (if b { 2u8 } else { 0u8 })),
    ;
    assert((((state & 0xF0u8) | pn) as u8) & 0xF0u8 == state & 0xF0u8) by (bit_vector)
        requires
            pn <= 15,
    ;
}

/// The button that a reading of port A shows pressed reads as pressed at
/// its own pin's level in that reading: the port decoder and
/// [`FrontPanel::button_is_pressed`] agree on which pins are active high.
pub proof fn lemma_reported_button_reads_pressed(port_a: u8)
    ensures
        pressed_button(port_a) matches Ok(b) ==> (button_pin_of(b) matches Some(pin) ==> (if b
            == Buttons::RotaryEncoderSwitch {
            (port_a >> pin) & 1u8 == 1u8
        } else {
            (port_a >> pin) & 1u8 == 0u8
        })),
{
    let p = ((port_a ^ 0b0111_1000u8) & 0b1111_1100u8) as u8;
    assert((p & 0x04u8 != 0 ==> (port_a >> 2u8) & 1u8 == 1u8) && (p & 0x08u8 != 0 ==> (port_a >> 3u8)
        & 1u8 == 0u8) && (p & 0x10u8 != 0 ==> (port_a >> 4u8) & 1u8 == 0u8) && (p & 0x20u8 != 0 ==> (
    port_a >> 5u8) & 1u8 == 0u8) && (p & 0x40u8 != 0 ==> (port_a >> 6u8) & 1u8 == 0u8)) by (bit_vector)
        requires
            p == ((port_a ^ 0b0111_1000u8) & 0b1111_1100u8),
    ;
}

/// The two-bit value of an encoder reading: A in bit 0, B in bit 1.
pub open spec fn reading_bits(a: bool, b: bool) -> u8 {
    ((if b { 2u8 } else { 0u8 }) | (if a { 1u8 } else { 0u8 })) as u8
}

/// Law: the filter always remembers the reading it was just given, valid
/// transition or not: the low two bits of the new state are that reading,
/// so the next step compares its reading with this one.
pub proof fn lemma_filter_remembers_reading(state: u8, a: bool, b: bool, a2: bool, b2: bool)
    ensures
        rotary_step(state, a, b).0 & 3u8 == reading_bits(a, b),
        (prev_next_of(rotary_step(state, a, b).0, a2, b2) >> 2u8) == reading_bits(a, b),
{
    let pn = prev_next_of(state, a, b);
    let r = reading_bits(a, b);
    assert(pn & 3u8 == r && pn <= 15 && r <= 3) by (bit_vector)
        requires
            pn == ((((state << 2u8) as u8) & 0xFu8) | (if a { 1u8 } else { 0u8 }) | (if b { 2u8 } else { 0u8 })),
            r == ((if b { 2u8 } else { 0u8 }) | (if a { 1u8 } else { 0u8 })),
    ;
    let ns = rotary_step(state, a, b).0;
    assert(ns & 3u8 == r) by (bit_vector)
        requires
            pn & 3u8 == r,
            pn <= 15,
            ns == (((pn << 4u8) as u8) | pn) || ns == ((state & 0xF0u8) | pn),
    ;
    let pn2 = prev_next_of(ns, a2, b2);
    assert((pn2 >> 2u8) == r) by (bit_vector)
        requires
            ns & 3u8 == r,
            r <= 3,
            pn2 == ((((ns << 2u8) as u8) & 0xFu8) | (if a2 { 1u8 } else { 0u8 }) | (if b2 { 2u8 } else { 0u8 })),
    ;
}

/// Law: the encoder reports a turn only when both signals come high: a
/// clockwise step when B came high first (the last reading had only B
/// high) and the last remembered transition was B rising from both low
/// (`0b0010` in the high half of the state); a counter-clockwise step when A
/// came high first (the last reading had only A high) after A rose from both
/// low (`0b0001`). Any other reading reports no movement.
pub proof fn lemma_direction_of_readings(state: u8, a: bool, b: bool)
    ensures
        rotary_step(state, a, b).1 == Direction::Clockwise <==> (state & 3u8 == 0b10u8 && reading_bits(
            a,
            b,
        ) == 0b11u8 && state >> 4u8 == 0b0010u8),
        rotary_step(state, a, b).1 == Direction::CounterClockwise <==> (state & 3u8 == 0b01u8
            && reading_bits(a, b) == 0b11u8 && state >> 4u8 == 0b0001u8),
{
    let pn = prev_next_of(state, a, b);
    let r = reading_bits(a, b);
    let x = ((state & 0xF0u8) | pn) as u8;
    assert(pn == ((((state & 3u8) << 2u8) as u8) | r) && pn <= 15 && r <= 3) by (bit_vector)
        requires
            pn == ((((state << 2u8) as u8) & 0xFu8) | (if a { 1u8 } else { 0u8 }) | (if b { 2u8 } else { 0u8 })),
            r == ((if b { 2u8 } else { 0u8 }) | (if a { 1u8 } else { 0u8 })),
    ;
    assert((x == 0x2Bu8 ==> pn == 11u8) && (x == 0x17u8 ==> pn == 7u8) && (x == 0x2Bu8 <==> (state & 3u8 == 0b10u8 && r == 0b11u8 && state >> 4u8 == 0b0010u8)) && (x
        == 0x17u8 <==> (state & 3u8 == 0b01u8 && r == 0b11u8 && state >> 4u8 == 0b0001u8))) by (bit_vector)
        requires
            pn == ((((state & 3u8) << 2u8) as u8) | r),
            r <= 3,
            x == ((state & 0xF0u8) | pn),
    ;
}

} // verus!
