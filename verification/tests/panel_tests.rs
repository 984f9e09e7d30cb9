use rusty_radio::front_panel::{
    Buttons, Direction, FrontPanel, FrontPanelError, PanelSetup, BTN_1, BTN_4, LED, ROT_A,
    ROT_SW,
};
use rusty_radio::mcp23s17::{
    bit_is_set, clear_bits_value, gpio_register, modified, pin_mask, set_bits_value,
    InterruptMode, Mcp23s17SpiError, Mcp23s17State, PinMode, RegisterAddress, RegisterOp, Step,
};

#[test]
fn phase_values() {
    assert_eq!(FrontPanel::phase(0x17), Direction::CounterClockwise);
    assert_eq!(FrontPanel::phase(0x2B), Direction::Clockwise);
    assert_eq!(FrontPanel::phase(0x7E), Direction::NoMovement);
}

/// Runs the encoder filter over readings of (A, B) from a given state.
fn turn(mut state: u8, readings: &[(bool, bool)]) -> (u8, Vec<Direction>) {
    let mut seen = Vec::new();
    for &(a, b) in readings {
        let (next, d) = FrontPanel::decode_rotary_step(state, a, b);
        state = next;
        seen.push(d);
    }
    (state, seen)
}

#[test]
fn rotary_detents() {
    // From rest with both signals high, a full cycle each way.
    let cw = [(true, false), (false, false), (false, true), (true, true)];
    let (state, seen) = turn(0xFF, &cw);
    assert_eq!(seen, vec![Direction::NoMovement, Direction::NoMovement, Direction::NoMovement, Direction::Clockwise]);
    let ccw = [(false, true), (false, false), (true, false), (true, true)];
    let (_, seen) = turn(state, &ccw);
    assert_eq!(seen, vec![Direction::NoMovement, Direction::NoMovement, Direction::NoMovement, Direction::CounterClockwise]);
}

#[test]
fn rotary_bounce_is_ignored() {
    // 00 -> 11 is no valid transition.
    let (state, d) = FrontPanel::decode_rotary_step(0x44, true, true);
    assert_eq!(d, Direction::NoMovement);
    assert_eq!(state & 0xF0, 0x40);
}

#[test]
fn buttons_from_port() {
    // Idle: buttons high (not pressed), switch low.
    assert_eq!(FrontPanel::button_from_port(0b0111_1000), Ok(Buttons::NoButton));
    assert_eq!(FrontPanel::button_from_port(0b0111_1100), Ok(Buttons::RotaryEncoderSwitch));
    assert_eq!(FrontPanel::button_from_port(0b0111_0000), Ok(Buttons::Button1));
    assert_eq!(FrontPanel::button_from_port(0b0110_1000), Ok(Buttons::Button2));
    assert_eq!(FrontPanel::button_from_port(0b0101_1000), Ok(Buttons::Button3));
    assert_eq!(FrontPanel::button_from_port(0b0011_1000), Ok(Buttons::Button4));
    assert_eq!(
        FrontPanel::button_from_port(0b1111_1000),
        Err(FrontPanelError::UnknownInputControl)
    );
    // Two buttons: the lowest pin wins; encoder signals do not count.
    assert_eq!(FrontPanel::button_from_port(0b0010_0011), Ok(Buttons::Button1));
}

#[test]
fn button_pins() {
    assert_eq!(FrontPanel::button_pin(Buttons::RotaryEncoderSwitch), Some(ROT_SW));
    assert_eq!(FrontPanel::button_pin(Buttons::Button1), Some(BTN_1));
    assert_eq!(FrontPanel::button_pin(Buttons::Button4), Some(BTN_4));
    assert_eq!(FrontPanel::button_pin(Buttons::NoButton), None);
    assert!(FrontPanel::button_is_pressed(Buttons::Button2, false));
    assert!(!FrontPanel::button_is_pressed(Buttons::Button2, true));
    assert!(!FrontPanel::button_is_pressed(Buttons::Unknown, false));
    assert!(FrontPanel::button_is_pressed(Buttons::RotaryEncoderSwitch, true));
    assert!(!FrontPanel::button_is_pressed(Buttons::RotaryEncoderSwitch, false));
    assert!(!FrontPanel::button_is_pressed(Buttons::NoButton, false));
}

#[test]
fn panel_configuration() {
    let steps = FrontPanel::setup();
    assert_eq!(steps.len(), 15);
    assert_eq!(steps[0], PanelSetup::Pin(ROT_A, PinMode::InputPullup));
    assert_eq!(steps[7], PanelSetup::Pin(LED, PinMode::Output));
    assert_eq!(steps[10], PanelSetup::Interrupt(ROT_SW, InterruptMode::ActiveHigh));
    assert_eq!(FrontPanelError::from(Mcp23s17SpiError {}), FrontPanelError::Spi);
}

#[test]
fn register_addresses_and_bits() {
    assert_eq!(RegisterAddress::IODIRA.addr(), 0x00);
    assert_eq!(RegisterAddress::IOCON.addr(), 0x0A);
    assert_eq!(RegisterAddress::OLATB.addr(), 0x15);
    assert_eq!(pin_mask(0), 1);
    assert_eq!(pin_mask(7), 0x80);
    assert_eq!(set_bits_value(0b0101, 0b0011), 0b0111);
    assert_eq!(clear_bits_value(0b0101, 0b0011), 0b0100);
    assert!(bit_is_set(0x80, 7));
    assert!(!bit_is_set(0x7F, 7));
    assert_eq!(gpio_register(3), RegisterAddress::GPIOA);
    assert_eq!(gpio_register(8), RegisterAddress::GPIOB);
    assert_eq!(modified(RegisterOp::SetBit(RegisterAddress::GPIOA, 2), 0x01), 0x05);
    assert_eq!(modified(RegisterOp::ClearBit(RegisterAddress::GPIOA, 0), 0x01), 0x00);
}

/// Carries out a plan on a simulated device: registers as bytes, every
/// transfer succeeding.
fn run(state: &mut Mcp23s17State, regs: &mut [u8; 22], plan: &[Step]) {
    for step in plan {
        match *step {
            Step::Spi(RegisterOp::WritePair(r, a, b)) => {
                regs[r.addr() as usize] = a;
                regs[r.addr() as usize + 1] = b;
            }
            Step::Spi(op) => {
                let r = match op {
                    RegisterOp::SetBit(r, _) | RegisterOp::ClearBit(r, _) | RegisterOp::SetBits(r, _) => r,
                    RegisterOp::WritePair(r, _, _) => r,
                };
                regs[r.addr() as usize] = modified(op, regs[r.addr() as usize]);
            }
            Step::Remember(s) => *state = s,
        }
    }
}

/// The registers after a reset of the device: every pin an input.
fn reset_registers() -> [u8; 22] {
    let mut regs = [0u8; 22];
    regs[RegisterAddress::IODIRA.addr() as usize] = 0xff;
    regs[RegisterAddress::IODIRB.addr() as usize] = 0xff;
    regs
}

#[test]
fn driver_creation_addresses_the_device() {
    let mut state = Mcp23s17State::initial();
    let mut regs = reset_registers();
    run(&mut state, &mut regs, &Mcp23s17State::new_plan(0b011));
    assert_eq!(regs[0x0A] & 0b0000_1000, 0b0000_1000);
    assert_eq!(state.spi_read_control_byte, 0b0100_0111);
    assert_eq!(state.spi_write_control_byte, 0b0100_0110);
    assert_eq!(state.read_frame(RegisterAddress::GPIOA), vec![0x47, 0x12, 0]);
    assert_eq!(state.write_pair_frame(RegisterAddress::GPIOA, 1, 2), vec![0x46, 0x12, 1, 2]);
}

#[test]
fn configuring_the_panel() {
    let mut state = Mcp23s17State::initial();
    let mut regs = reset_registers();
    for setup in FrontPanel::setup() {
        let plan = match setup {
            PanelSetup::Pin(pin, mode) => state.pin_mode(pin, mode),
            PanelSetup::Interrupt(pin, mode) => state.set_interrupt_mode(pin, mode),
        };
        run(&mut state, &mut regs, &plan);
    }
    assert_eq!(state.pin_io_configurations_a, 0xff);
    assert_eq!(state.pin_io_configurations_b, 0b1111_1110);
    assert_eq!(state.pin_interrupt_configurations_a, 0b0111_1111);
    assert_eq!(regs[RegisterAddress::IODIRA.addr() as usize], 0xff);
    assert_eq!(regs[RegisterAddress::IODIRB.addr() as usize], 0b1111_1110);
    assert_eq!(regs[RegisterAddress::GPPUA.addr() as usize], 0b0111_1011);
    assert_eq!(regs[RegisterAddress::GPINTENA.addr() as usize], 0b0111_1111);
    assert_eq!(regs[RegisterAddress::INTCONA.addr() as usize], 0b0111_1111);
    assert_eq!(regs[RegisterAddress::DEFVALA.addr() as usize], 0b0111_1011);
}

#[test]
fn output_pin_loses_nothing_else() {
    let mut state = Mcp23s17State::initial();
    let mut regs = reset_registers();
    let plan = state.pin_mode(1, PinMode::InputPullup);
    run(&mut state, &mut regs, &plan);
    let plan = state.set_interrupt_mode(1, InterruptMode::BothEdges);
    run(&mut state, &mut regs, &plan);
    let plan = state.pin_mode(1, PinMode::InputFloating);
    run(&mut state, &mut regs, &plan);
    assert_eq!(state.pin_interrupt_configurations_a, 0);
    assert_eq!(regs[RegisterAddress::GPINTENA.addr() as usize], 0);
    let plan = state.set_high(1);
    run(&mut state, &mut regs, &plan);
    assert_eq!(state.pin_io_configurations_a, 0b1111_1101);
    assert_eq!(regs[RegisterAddress::GPIOA.addr() as usize], 0b10);
    let plan = state.set_low(1);
    run(&mut state, &mut regs, &plan);
    assert_eq!(regs[RegisterAddress::GPIOA.addr() as usize], 0);
}

#[test]
fn set_high_on_a_fresh_driver_makes_an_output() {
    let mut state = Mcp23s17State::initial();
    let mut regs = reset_registers();
    run(&mut state, &mut regs, &Mcp23s17State::new_plan(0));
    let plan = state.set_high(11);
    assert_eq!(plan.len(), 5);
    run(&mut state, &mut regs, &plan);
    assert_eq!(regs[RegisterAddress::IODIRB.addr() as usize], 0b1111_0111);
    assert_eq!(regs[RegisterAddress::GPIOB.addr() as usize], 0b0000_1000);
    assert_eq!(state.pin_io_configurations_b, 0b1111_0111);
    assert_eq!(state.set_high(11).len(), 1);
}

#[test]
fn all_pins_at_once() {
    let mut state = Mcp23s17State::initial();
    let mut regs = reset_registers();
    let plan = state.pin_mode_all(PinMode::InputPullup);
    run(&mut state, &mut regs, &plan);
    assert_eq!((state.pin_io_configurations_a, state.pin_io_configurations_b), (0xff, 0xff));
    let plan = state.set_all_high();
    assert_eq!(plan.len(), 4);
    run(&mut state, &mut regs, &plan);
    assert_eq!((regs[0x12], regs[0x13]), (0xff, 0xff));
    assert_eq!(state.set_all_low().len(), 1);
}

#[test]
fn encoder_signals_never_change_the_button() {
    for port in 0..=255u8 {
        for signals in 0..=3u8 {
            assert_eq!(
                FrontPanel::button_from_port(port ^ signals),
                FrontPanel::button_from_port(port)
            );
        }
    }
}
