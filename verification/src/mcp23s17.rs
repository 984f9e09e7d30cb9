//! The register logic of the MCP23S17 I/O expander, which is reached over an
//! SPI bus: which registers each operation reads and writes, which bits it
//! changes, and what the driver remembers of the pins' configuration.
//!
//! Every operation is a plan: a list of steps that the SPI side carries out
//! in order, stopping at the first failing transfer. A step is a
//! read-modify-write of one register, a write of a register pair, or the
//! driver's new memory of the pins.
use vstd::prelude::*;

verus! {

/// The register addresses within the device, in the interleaved layout
/// (`IOCON.BANK` = 0).
#[allow(non_camel_case_types)]
#[derive(Clone, Copy, PartialEq, Eq, Debug, Structural)]
pub enum RegisterAddress {
    /// I/O direction A
    IODIRA,
    /// I/O direction B
    IODIRB,
    /// I/O polarity A
    IPOLA,
    /// I/O polarity B
    IPOLB,
    /// interrupt enable A
    GPINTENA,
    /// interrupt enable B
    GPINTENB,
    /// register default value A (interrupts)
    DEFVALA,
    /// register default value B (interrupts)
    DEFVALB,
    /// interrupt control A
    INTCONA,
    /// interrupt control B
    INTCONB,
    /// I/O config (also at 0xB)
    IOCON,
    /// I/O config (duplicate)
    IOCON2,
    /// port A pull-ups
    GPPUA,
    /// port B pull-ups
    GPPUB,
    /// interrupt flag A (where the interrupt came from)
    INTFA,
    /// interrupt flag B
    INTFB,
    /// interrupt capture A (value at interrupt is saved here)
    INTCAPA,
    /// interrupt capture B
    INTCAPB,
    /// port A
    GPIOA,
    /// port B
    GPIOB,
    /// output latch A
    OLATA,
    /// output latch B
    OLATB,
}

/// The address of each register.
pub open spec fn register_address(r: RegisterAddress) -> u8 {
    match r {
        RegisterAddress::IODIRA => 0x0,
        RegisterAddress::IODIRB => 0x1,
        RegisterAddress::IPOLA => 0x2,
        RegisterAddress::IPOLB => 0x3,
        RegisterAddress::GPINTENA => 0x4,
        RegisterAddress::GPINTENB => 0x5,
        RegisterAddress::DEFVALA => 0x6,
        RegisterAddress::DEFVALB => 0x7,
        RegisterAddress::INTCONA => 0x8,
        RegisterAddress::INTCONB => 0x9,
        RegisterAddress::IOCON => 0xA,
        RegisterAddress::IOCON2 => 0xB,
        RegisterAddress::GPPUA => 0xC,
        RegisterAddress::GPPUB => 0xD,
        RegisterAddress::INTFA => 0xE,
        RegisterAddress::INTFB => 0xF,
        RegisterAddress::INTCAPA => 0x10,
        RegisterAddress::INTCAPB => 0x11,
        RegisterAddress::GPIOA => 0x12,
        RegisterAddress::GPIOB => 0x13,
        RegisterAddress::OLATA => 0x14,
        RegisterAddress::OLATB => 0x15,
    }
}

impl RegisterAddress {
    /// The register's address.
    pub fn addr(self) -> (a: u8)
        ensures
            a == register_address(self),
    {
        match self {
            RegisterAddress::IODIRA => 0x0,
            RegisterAddress::IODIRB => 0x1,
            RegisterAddress::IPOLA => 0x2,
            RegisterAddress::IPOLB => 0x3,
            RegisterAddress::GPINTENA => 0x4,
            RegisterAddress::GPINTENB => 0x5,
            RegisterAddress::DEFVALA => 0x6,
            RegisterAddress::DEFVALB => 0x7,
            RegisterAddress::INTCONA => 0x8,
            RegisterAddress::INTCONB => 0x9,
            RegisterAddress::IOCON => 0xA,
            RegisterAddress::IOCON2 => 0xB,
            RegisterAddress::GPPUA => 0xC,
            RegisterAddress::GPPUB => 0xD,
            RegisterAddress::INTFA => 0xE,
            RegisterAddress::INTFB => 0xF,
            RegisterAddress::INTCAPA => 0x10,
            RegisterAddress::INTCAPB => 0x11,
            RegisterAddress::GPIOA => 0x12,
            RegisterAddress::GPIOB => 0x13,
            RegisterAddress::OLATA => 0x14,
            RegisterAddress::OLATB => 0x15,
        }
    }
}

/// `IOCON` bit: the registers of each port are in separate banks.
pub const IOCON_BANK: u8 = 0b1000_0000;
/// `IOCON` bit: the `INT` pins are internally connected.
pub const IOCON_MIRROR: u8 = 0b0100_0000;
/// `IOCON` bit: sequential operation disabled.
pub const IOCON_SEQOP: u8 = 0b0010_0000;
/// `IOCON` bit: slew rate control disabled.
pub const IOCON_DISSLW: u8 = 0b0001_0000;
/// `IOCON` bit: the hardware address pins are enabled.
pub const IOCON_HAEN: u8 = 0b0000_1000;
/// `IOCON` bit: the `INT` pin is an open-drain output.
pub const IOCON_ODR: u8 = 0b0000_0100;
/// `IOCON` bit: the `INT` pin is active-high.
pub const IOCON_INTPOL: u8 = 0b0000_0010;

/// The only error that operation of the MCP23S17 can raise, because of an
/// internal `SPI` error.
#[derive(Debug, Clone, Copy, PartialEq, Eq, Structural)]
pub struct Mcp23s17SpiError {}

/// The possible configurations of a pin. [`PinMode::InputPullup`] uses a
/// 100k internal pullup resistor.
#[derive(Debug, Clone, Copy, PartialEq, Eq, Structural)]
pub enum PinMode {
    /// Floating input
    InputFloating,
    /// Pulled-up input
    InputPullup,
    /// Digital output.
    Output,
}

/// Interrupt input trigger modes that every pin configured as input supports.
#[derive(Debug, Clone, Copy, PartialEq, Eq, Structural)]
pub enum InterruptMode {
    /// Interrupts are disabled.
    NoInterrupt,
    /// Interrupts are raised when the input is different from a `LOW`
    /// default, on the `LOW` to `HIGH` transition.
    ActiveHigh,
    /// Interrupts are raised when the input is different from a `HIGH`
    /// default, on the `HIGH` to `LOW` transition.
    ActiveLow,
    /// Interrupts are raised on both transitions.
    BothEdges,
}

/// The bit of a pin within its port.
pub open spec fn mask_of(pin_num: u8) -> u8 {
    (1u8 << pin_num) as u8
}

/// The bit of pin `pin_num` (0 to 7) within its port.
pub fn pin_mask(pin_num: u8) -> (m: u8)
    requires
        pin_num < 8,
    ensures
        m == mask_of(pin_num),
{
    1u8 << pin_num
}

/// A register value with the bits of `data` set.
pub fn set_bits_value(current: u8, data: u8) -> (r: u8)
    ensures
        r == current | data,
{
    current | data
}

/// A register value with the bits of `data` cleared.
pub fn clear_bits_value(current: u8, data: u8) -> (r: u8)
    ensures
        r == current & !data,
{
    current & !data
}

/// Whether bit `bit` (0 to 7) of a register value is set.
pub fn bit_is_set(value: u8, bit: u8) -> (r: bool)
    requires
        bit < 8,
    ensures
        r == (value & mask_of(bit) > 0),
{
    value & pin_mask(bit) > 0
}

/// One register access of a plan.
#[derive(Debug, Clone, Copy, PartialEq, Eq, Structural)]
pub enum RegisterOp {
    /// Read the register and write it back with bit `.1` set.
    SetBit(RegisterAddress, u8),
    /// Read the register and write it back with bit `.1` cleared.
    ClearBit(RegisterAddress, u8),
    /// Read the register and write it back with the bits of `.1` set.
    SetBits(RegisterAddress, u8),
    /// Write the register and the one after it, the first byte first.
    WritePair(RegisterAddress, u8, u8),
}

/// What the driver remembers: the control bytes that address the device,
/// which pins are inputs (a set bit) and which have interrupts enabled.
#[derive(Debug, Clone, Copy, PartialEq, Eq, Structural)]
pub struct Mcp23s17State {
    pub spi_read_control_byte: u8,
    pub spi_write_control_byte: u8,
    pub pin_io_configurations_a: u8,
    pub pin_io_configurations_b: u8,
    pub pin_interrupt_configurations_a: u8,
    pub pin_interrupt_configurations_b: u8,
}

/// A step of a plan.
#[derive(Debug, Clone, Copy, PartialEq, Eq, Structural)]
pub enum Step {
    /// An SPI register access.
    Spi(RegisterOp),
    /// The driver's memory becomes this.
    Remember(Mcp23s17State),
}

/// The control byte for a device address: `0100 A2 A1 A0 R/W`.
pub open spec fn control_byte(address: u8, read: bool) -> u8 {
    (0x40u8 | ((address << 1u8) as u8) | (if read { 1u8 } else { 0u8 })) as u8
}

/// The state of a driver before it has addressed its device: the control
/// bytes of address 0, every pin an input (as `IODIRA` and `IODIRB` are
/// after a reset of the device) and no interrupts.
pub open spec fn initial_state() -> Mcp23s17State {
    Mcp23s17State {
        spi_read_control_byte: 0x41,
        spi_write_control_byte: 0x40,
        pin_io_configurations_a: 0xff,
        pin_io_configurations_b: 0xff,
        pin_interrupt_configurations_a: 0,
        pin_interrupt_configurations_b: 0,
    }
}

/// Creating a driver: enable the hardware address pins of all devices on
/// the bus (`IOCON.HAEN`), then use `address` in the control bytes.
pub open spec fn new_plan(address: u8) -> Seq<Step> {
    seq![
        Step::Spi(RegisterOp::SetBits(RegisterAddress::IOCON, IOCON_HAEN)),
        Step::Remember(
            Mcp23s17State {
                spi_read_control_byte: control_byte(address, true),
                spi_write_control_byte: control_byte(address, false),
                ..initial_state()
            },
        ),
    ]
}

/// The driver's memory with the interrupt bit of `pin` set or cleared.
pub open spec fn with_interrupt(s: Mcp23s17State, pin: u8, enabled: bool) -> Mcp23s17State {
    let m = mask_of(pin % 8);
    if pin < 8 {
        Mcp23s17State {
            pin_interrupt_configurations_a: if enabled {
                s.pin_interrupt_configurations_a | m
            } else {
                s.pin_interrupt_configurations_a & !m
            },
            ..s
        }
    } else {
        Mcp23s17State {
            pin_interrupt_configurations_b: if enabled {
                s.pin_interrupt_configurations_b | m
            } else {
                s.pin_interrupt_configurations_b & !m
            },
            ..s
        }
    }
}

/// The driver's memory with `pin` recorded as an input or an output.
pub open spec fn with_direction(s: Mcp23s17State, pin: u8, input: bool) -> Mcp23s17State {
    let m = mask_of(pin % 8);
    if pin < 8 {
        Mcp23s17State {
            pin_io_configurations_a: if input {
                s.pin_io_configurations_a | m
            } else {
                s.pin_io_configurations_a & !m
            },
            ..s
        }
    } else {
        Mcp23s17State {
            pin_io_configurations_b: if input {
                s.pin_io_configurations_b | m
            } else {
                s.pin_io_configurations_b & !m
            },
            ..s
        }
    }
}

/// Whether the driver remembers `pin` as an input.
pub open spec fn is_input(s: Mcp23s17State, pin: u8) -> bool {
    if pin < 8 {
        s.pin_io_configurations_a & mask_of(pin % 8) > 0
    } else {
        s.pin_io_configurations_b & mask_of(pin % 8) > 0
    }
}

/// Whether the driver remembers an interrupt on `pin`.
pub open spec fn has_interrupt(s: Mcp23s17State, pin: u8) -> bool {
    if pin < 8 {
        s.pin_interrupt_configurations_a & mask_of(pin % 8) > 0
    } else {
        s.pin_interrupt_configurations_b & mask_of(pin % 8) > 0
    }
}

/// Pins 0 to 7 are on port A; all others count as port B.
pub open spec fn port_register(pin: u8, a: RegisterAddress, b: RegisterAddress) -> RegisterAddress {
    if pin < 8 {
        a
    } else {
        b
    }
}

/// Setting the interrupt mode of `pin` (the `GPINTEN`, `INTCON` and
/// `DEFVAL` bits of the table in the datasheet), enabling the interrupt
/// last, then remembering it.
pub open spec fn interrupt_plan(s: Mcp23s17State, pin: u8, mode: InterruptMode) -> Seq<Step> {
    let n = pin % 8;
    let gpinten = port_register(pin, RegisterAddress::GPINTENA, RegisterAddress::GPINTENB);
    let intcon = port_register(pin, RegisterAddress::INTCONA, RegisterAddress::INTCONB);
    let defval = port_register(pin, RegisterAddress::DEFVALA, RegisterAddress::DEFVALB);
    match mode {
        InterruptMode::NoInterrupt => seq![
            Step::Spi(RegisterOp::ClearBit(gpinten, n)),
            Step::Remember(with_interrupt(s, pin, false)),
        ],
        InterruptMode::ActiveHigh => seq![
            Step::Spi(RegisterOp::SetBit(intcon, n)),
            Step::Spi(RegisterOp::ClearBit(defval, n)),
            Step::Spi(RegisterOp::SetBit(gpinten, n)),
            Step::Remember(with_interrupt(s, pin, true)),
        ],
        InterruptMode::ActiveLow => seq![
            Step::Spi(RegisterOp::SetBit(intcon, n)),
            Step::Spi(RegisterOp::SetBit(defval, n)),
            Step::Spi(RegisterOp::SetBit(gpinten, n)),
            Step::Remember(with_interrupt(s, pin, true)),
        ],
        InterruptMode::BothEdges => seq![
            Step::Spi(RegisterOp::ClearBit(intcon, n)),
            Step::Spi(RegisterOp::SetBit(gpinten, n)),
            Step::Remember(with_interrupt(s, pin, true)),
        ],
    }
}

/// Configuring `pin`: its pull-up first, then its direction; an input that
/// had an interrupt loses it, an output starts low. The direction is
/// remembered last.
pub open spec fn pin_mode_plan(s: Mcp23s17State, pin: u8, mode: PinMode) -> Seq<Step> {
    let n = pin % 8;
    let direction = port_register(pin, RegisterAddress::IODIRA, RegisterAddress::IODIRB);
    let pullup = port_register(pin, RegisterAddress::GPPUA, RegisterAddress::GPPUB);
    let gpio = port_register(pin, RegisterAddress::GPIOA, RegisterAddress::GPIOB);
    let pull = match mode {
        PinMode::InputPullup => Step::Spi(RegisterOp::SetBit(pullup, n)),
        _ => Step::Spi(RegisterOp::ClearBit(pullup, n)),
    };
    match mode {
        PinMode::Output => seq![
            pull,
            Step::Spi(RegisterOp::ClearBit(direction, n)),
            Step::Spi(RegisterOp::ClearBit(gpio, n)),
            Step::Remember(with_direction(s, pin, false)),
        ],
        _ => if has_interrupt(s, pin) {
            seq![pull, Step::Spi(RegisterOp::SetBit(direction, n))] + interrupt_plan(
                s,
                pin,
                InterruptMode::NoInterrupt,
            ) + seq![Step::Remember(with_direction(with_interrupt(s, pin, false), pin, true))]
        } else {
            seq![
                pull,
                Step::Spi(RegisterOp::SetBit(direction, n)),
                Step::Remember(with_direction(s, pin, true)),
            ]
        },
    }
}

/// Configuring all pins at once: pull-ups, then directions, then the
/// driver's memory.
pub open spec fn pin_mode_all_plan(s: Mcp23s17State, mode: PinMode) -> Seq<Step> {
    let (pullups, directions) = match mode {
        PinMode::InputFloating => (0x00u8, 0xffu8),
        PinMode::InputPullup => (0xffu8, 0xffu8),
        PinMode::Output => (0x00u8, 0x00u8),
    };
    seq![
        Step::Spi(RegisterOp::WritePair(RegisterAddress::GPPUA, pullups, pullups)),
        Step::Spi(RegisterOp::WritePair(RegisterAddress::IODIRA, directions, directions)),
        Step::Remember(
            Mcp23s17State {
                pin_io_configurations_a: directions,
                pin_io_configurations_b: directions,
                ..s
            },
        ),
    ]
}

/// Setting all pins to `(port A, port B)`, after making them all outputs
/// unless they all are already.
pub open spec fn set_all_value_plan(s: Mcp23s17State, value: (u8, u8)) -> Seq<Step> {
    let write = seq![Step::Spi(RegisterOp::WritePair(RegisterAddress::GPIOA, value.0, value.1))];
    if s.pin_io_configurations_a != 0 || s.pin_io_configurations_b != 0 {
        pin_mode_all_plan(s, PinMode::Output) + write
    } else {
        write
    }
}

/// Driving `pin` high or low, after making it an output if it is an input.
pub open spec fn set_level_plan(s: Mcp23s17State, pin: u8, high: bool) -> Seq<Step> {
    let n = pin % 8;
    let gpio = port_register(pin, RegisterAddress::GPIOA, RegisterAddress::GPIOB);
    let op = if high {
        RegisterOp::SetBit(gpio, n)
    } else {
        RegisterOp::ClearBit(gpio, n)
    };
    if is_input(s, pin) {
        pin_mode_plan(s, pin, PinMode::Output) + seq![Step::Spi(op)]
    } else {
        seq![Step::Spi(op)]
    }
}

impl Mcp23s17State {
    /// The state before the device is addressed; see [`initial_state`].
    pub fn initial() -> (s: Mcp23s17State)
        ensures
            s == initial_state(),
    {
        Mcp23s17State {
            spi_read_control_byte: 0x41,
            spi_write_control_byte: 0x40,
            pin_io_configurations_a: 0xff,
            pin_io_configurations_b: 0xff,
            pin_interrupt_configurations_a: 0,
            pin_interrupt_configurations_b: 0,
        }
    }

    /// The steps that create a driver for the device at `address`; see
    /// [`new_plan`].
    pub fn new_plan(address: u8) -> (r: Vec<Step>)
        ensures
            r@ == new_plan(address),
    {
        let s0 = Self::initial();
        let mut r: Vec<Step> = Vec::new();
        r.push(Step::Spi(RegisterOp::SetBits(RegisterAddress::IOCON, IOCON_HAEN)));
        r.push(
            Step::Remember(
                Mcp23s17State {
                    spi_read_control_byte: 0x40u8 | address << 1u8 | 1u8,
                    spi_write_control_byte: 0x40u8 | address << 1u8 | 0u8,
                    ..s0
                },
            ),
        );
        assert(r@ =~= new_plan(address));
        r
    }

    /// The driver's memory with the interrupt bit of `pin` set or cleared.
    fn with_interrupt(&self, pin: u8, enabled: bool) -> (r: Mcp23s17State)
        ensures
            r == with_interrupt(*self, pin, enabled),
    {
        let m = pin_mask(pin % 8);
        if pin < 8 {
            Mcp23s17State {
                pin_interrupt_configurations_a: if enabled {
                    self.pin_interrupt_configurations_a | m
                } else {
                    self.pin_interrupt_configurations_a & !m
                },
                ..*self
            }
        } else {
            Mcp23s17State {
                pin_interrupt_configurations_b: if enabled {
                    self.pin_interrupt_configurations_b | m
                } else {
                    self.pin_interrupt_configurations_b & !m
                },
                ..*self
            }
        }
    }

    /// The driver's memory with `pin` recorded as an input or an output.
    fn with_direction(&self, pin: u8, input: bool) -> (r: Mcp23s17State)
        ensures
            r == with_direction(*self, pin, input),
    {
        let m = pin_mask(pin % 8);
        if pin < 8 {
            Mcp23s17State {
                pin_io_configurations_a: if input {
                    self.pin_io_configurations_a | m
                } else {
                    self.pin_io_configurations_a & !m
                },
                ..*self
            }
        } else {
            Mcp23s17State {
                pin_io_configurations_b: if input {
                    self.pin_io_configurations_b | m
                } else {
                    self.pin_io_configurations_b & !m
                },
                ..*self
            }
        }
    }

    /// The number of `pin` within its port, its port's `GPIO` register, and
    /// whether the driver remembers it as an input.
    pub fn get_num_mask_register_config(&self, pin: u8) -> (r: (u8, RegisterAddress, bool))
        ensures
            r == (pin % 8, port_register(pin, RegisterAddress::GPIOA, RegisterAddress::GPIOB), is_input(*self, pin)),
    {
        let pin_num = pin % 8;
        let mask = pin_mask(pin_num);
        if pin < 8 {
            (pin_num, RegisterAddress::GPIOA, self.pin_io_configurations_a & mask > 0)
        } else {
            (pin_num, RegisterAddress::GPIOB, self.pin_io_configurations_b & mask > 0)
        }
    }

    /// The steps that set the interrupt mode of `pin`; see [`interrupt_plan`].
    pub fn set_interrupt_mode(&self, pin: u8, mode: InterruptMode) -> (r: Vec<Step>)
        ensures
            r@ == interrupt_plan(*self, pin, mode),
    {
        let n = pin % 8;
        let (gpinten, intcon, defval) = if pin < 8 {
            (RegisterAddress::GPINTENA, RegisterAddress::INTCONA, RegisterAddress::DEFVALA)
        } else {
            (RegisterAddress::GPINTENB, RegisterAddress::INTCONB, RegisterAddress::DEFVALB)
        };
        let mut r: Vec<Step> = Vec::new();
        match mode {
            InterruptMode::NoInterrupt => {
                r.push(Step::Spi(RegisterOp::ClearBit(gpinten, n)));
                r.push(Step::Remember(self.with_interrupt(pin, false)));
            },
            InterruptMode::ActiveHigh => {
                r.push(Step::Spi(RegisterOp::SetBit(intcon, n)));
                r.push(Step::Spi(RegisterOp::ClearBit(defval, n)));
                r.push(Step::Spi(RegisterOp::SetBit(gpinten, n)));
                r.push(Step::Remember(self.with_interrupt(pin, true)));
            },
            InterruptMode::ActiveLow => {
                r.push(Step::Spi(RegisterOp::SetBit(intcon, n)));
                r.push(Step::Spi(RegisterOp::SetBit(defval, n)));
                r.push(Step::Spi(RegisterOp::SetBit(gpinten, n)));
                r.push(Step::Remember(self.with_interrupt(pin, true)));
            },
            InterruptMode::BothEdges => {
                r.push(Step::Spi(RegisterOp::ClearBit(intcon, n)));
                r.push(Step::Spi(RegisterOp::SetBit(gpinten, n)));
                r.push(Step::Remember(self.with_interrupt(pin, true)));
            },
        }
        assert(r@ =~= interrupt_plan(*self, pin, mode));
        r
    }

    /// The steps that configure `pin` with `mode`; see [`pin_mode_plan`].
    pub fn pin_mode(&self, pin: u8, mode: PinMode) -> (r: Vec<Step>)
        ensures
            r@ == pin_mode_plan(*self, pin, mode),
    {
        let n = pin % 8;
        let mask = pin_mask(n);
        let (direction, pullup, gpio, interrupt) = if pin < 8 {
            (
                RegisterAddress::IODIRA,
                RegisterAddress::GPPUA,
                RegisterAddress::GPIOA,
                self.pin_interrupt_configurations_a & mask > 0,
            )
        } else {
            (
                RegisterAddress::IODIRB,
                RegisterAddress::GPPUB,
                RegisterAddress::GPIOB,
                self.pin_interrupt_configurations_b & mask > 0,
            )
        };
        let mut r: Vec<Step> = Vec::new();
        match mode {
            PinMode::InputPullup => r.push(Step::Spi(RegisterOp::SetBit(pullup, n))),
            _ => r.push(Step::Spi(RegisterOp::ClearBit(pullup, n))),
        }
        match mode {
            PinMode::Output => {
                r.push(Step::Spi(RegisterOp::ClearBit(direction, n)));
                r.push(Step::Spi(RegisterOp::ClearBit(gpio, n)));
                r.push(Step::Remember(self.with_direction(pin, false)));
            },
            _ => {
                r.push(Step::Spi(RegisterOp::SetBit(direction, n)));
                if interrupt {
                    let mut disable = self.set_interrupt_mode(pin, InterruptMode::NoInterrupt);
                    r.append(&mut disable);
                    let after = self.with_interrupt(pin, false);
                    r.push(Step::Remember(after.with_direction(pin, true)));
                } else {
                    r.push(Step::Remember(self.with_direction(pin, true)));
                }
            },
        }
        assert(r@ =~= pin_mode_plan(*self, pin, mode));
        r
    }

    /// The steps that configure all pins with `mode`; see
    /// [`pin_mode_all_plan`].
    pub fn pin_mode_all(&self, mode: PinMode) -> (r: Vec<Step>)
        ensures
            r@ == pin_mode_all_plan(*self, mode),
    {
        let (pullups, directions) = match mode {
            PinMode::InputFloating => (0x00u8, 0xffu8),
            PinMode::InputPullup => (0xffu8, 0xffu8),
            PinMode::Output => (0x00u8, 0x00u8),
        };
        let mut r: Vec<Step> = Vec::new();
        r.push(Step::Spi(RegisterOp::WritePair(RegisterAddress::GPPUA, pullups, pullups)));
        r.push(Step::Spi(RegisterOp::WritePair(RegisterAddress::IODIRA, directions, directions)));
        r.push(
            Step::Remember(
                Mcp23s17State {
                    pin_io_configurations_a: directions,
                    pin_io_configurations_b: directions,
                    ..*self
                },
            ),
        );
        assert(r@ =~= pin_mode_all_plan(*self, mode));
        r
    }

    /// The steps that set all pins to `(port A, port B)`; see
    /// [`set_all_value_plan`].
    pub fn set_all_value(&self, value: (u8, u8)) -> (r: Vec<Step>)
        ensures
            r@ == set_all_value_plan(*self, value),
    {
        let mut r: Vec<Step> = if self.pin_io_configurations_a != 0x00
            || self.pin_io_configurations_b != 0x00 {
            self.pin_mode_all(PinMode::Output)
        } else {
            Vec::new()
        };
        r.push(Step::Spi(RegisterOp::WritePair(RegisterAddress::GPIOA, value.0, value.1)));
        assert(r@ =~= set_all_value_plan(*self, value));
        r
    }

    /// The steps that set all pins high.
    pub fn set_all_high(&self) -> (r: Vec<Step>)
        ensures
            r@ == set_all_value_plan(*self, (0xffu8, 0xffu8)),
    {
        self.set_all_value((0xff, 0xff))
    }

    /// The steps that set all pins low.
    pub fn set_all_low(&self) -> (r: Vec<Step>)
        ensures
            r@ == set_all_value_plan(*self, (0x00u8, 0x00u8)),
    {
        self.set_all_value((0x00, 0x00))
    }

    /// The steps that drive `pin` high or low; see [`set_level_plan`].
    pub fn set_value(&self, pin: u8, value: bool) -> (r: Vec<Step>)
        ensures
            r@ == set_level_plan(*self, pin, value),
    {
        let (pin_num, gpio_register, input) = self.get_num_mask_register_config(pin);
        let mut r: Vec<Step> = if input {
            self.pin_mode(pin, PinMode::Output)
        } else {
            Vec::new()
        };
        if value {
            r.push(Step::Spi(RegisterOp::SetBit(gpio_register, pin_num)));
        } else {
            r.push(Step::Spi(RegisterOp::ClearBit(gpio_register, pin_num)));
        }
        assert(r@ =~= set_level_plan(*self, pin, value));
        r
    }

    /// The steps that drive `pin` high.
    pub fn set_high(&self, pin: u8) -> (r: Vec<Step>)
        ensures
            r@ == set_level_plan(*self, pin, true),
    {
        self.set_value(pin, true)
    }

    /// The steps that drive `pin` low.
    pub fn set_low(&self, pin: u8) -> (r: Vec<Step>)
        ensures
            r@ == set_level_plan(*self, pin, false),
    {
        self.set_value(pin, false)
    }

    /// The SPI frame that reads `register`: control byte, address, and a
    /// byte to clock the value in.
    pub fn read_frame(&self, register: RegisterAddress) -> (r: Vec<u8>)
        ensures
            r@ == seq![self.spi_read_control_byte, register_address(register), 0u8],
    {
        let mut r: Vec<u8> = Vec::new();
        r.push(self.spi_read_control_byte);
        r.push(register.addr());
        r.push(0);
        assert(r@ =~= seq![self.spi_read_control_byte, register_address(register), 0u8]);
        r
    }

    /// The SPI frame that reads `register` and the one after it.
    pub fn read_pair_frame(&self, register: RegisterAddress) -> (r: Vec<u8>)
        ensures
            r@ == seq![self.spi_read_control_byte, register_address(register), 0u8, 0u8],
    {
        let mut r = self.read_frame(register);
        r.push(0);
        assert(r@ =~= seq![self.spi_read_control_byte, register_address(register), 0u8, 0u8]);
        r
    }

    /// The SPI frame that writes `data` to `register`.
    pub fn write_frame(&self, register: RegisterAddress, data: u8) -> (r: Vec<u8>)
        ensures
            r@ == seq![self.spi_write_control_byte, register_address(register), data],
    {
        let mut r: Vec<u8> = Vec::new();
        r.push(self.spi_write_control_byte);
        r.push(register.addr());
        r.push(data);
        assert(r@ =~= seq![self.spi_write_control_byte, register_address(register), data]);
        r
    }

    /// The SPI frame that writes `first` to `register` and `second` to the
    /// register after it.
    pub fn write_pair_frame(&self, register: RegisterAddress, first: u8, second: u8) -> (r: Vec<u8>)
        ensures
            r@ == seq![self.spi_write_control_byte, register_address(register), first, second],
    {
        let mut r = self.write_frame(register, first);
        r.push(second);
        assert(r@ =~= seq![self.spi_write_control_byte, register_address(register), first, second]);
        r
    }
}

/// The `GPIO` register that holds the level of `pin`.
pub fn gpio_register(pin: u8) -> (r: RegisterAddress)
    ensures
        r == port_register(pin, RegisterAddress::GPIOA, RegisterAddress::GPIOB),
{
    if pin < 8 {
        RegisterAddress::GPIOA
    } else {
        RegisterAddress::GPIOB
    }
}

/// The value a read-modify-write step writes back, given the value read.
pub open spec fn modified_value(op: RegisterOp, current: u8) -> u8 {
    match op {
        RegisterOp::SetBit(_, bit) => current | mask_of(bit),
        RegisterOp::ClearBit(_, bit) => current & !mask_of(bit),
        RegisterOp::SetBits(_, data) => current | data,
        RegisterOp::WritePair(_, first, _) => first,
    }
}

/// The value a read-modify-write step writes back after reading `current`.
pub fn modified(op: RegisterOp, current: u8) -> (r: u8)
    requires
        op matches RegisterOp::SetBit(_, bit) ==> bit < 8,
        op matches RegisterOp::ClearBit(_, bit) ==> bit < 8,
    ensures
        r == modified_value(op, current),
{
    match op {
        RegisterOp::SetBit(_, bit) => set_bits_value(current, pin_mask(bit)),
        RegisterOp::ClearBit(_, bit) => clear_bits_value(current, pin_mask(bit)),
        RegisterOp::SetBits(_, data) => set_bits_value(current, data),
        RegisterOp::WritePair(_, first, _) => first,
    }
}

/// Whether two pin numbers name the same pin: the same port and the same
/// bit in it.
pub open spec fn same_pin(p: u8, q: u8) -> bool {
    (p < 8) == (q < 8) && p % 8 == q % 8
}

proof fn lemma_mask_bits(x: u8, n: u8, k: u8)
    requires
        n < 8,
        k < 8,
    ensures
        (x | mask_of(n)) & mask_of(n) > 0,
        (x & !mask_of(n)) & mask_of(n) == 0,
        n != k ==> ((x | mask_of(n)) & mask_of(k) > 0) == (x & mask_of(k) > 0),
        n != k ==> ((x & !mask_of(n)) & mask_of(k) > 0) == (x & mask_of(k) > 0),
{
    assert((x | ((1u8 << n) as u8)) & ((1u8 << n) as u8) > 0) by (bit_vector)
        requires
            n < 8,
    ;
    assert((x & !((1u8 << n) as u8)) & ((1u8 << n) as u8) == 0) by (bit_vector)
        requires
            n < 8,
    ;
    assert(n != k ==> (((x | ((1u8 << n) as u8)) & ((1u8 << k) as u8) > 0) == (x & ((1u8 << k) as u8) > 0)))
        by (bit_vector)
        requires
            n < 8,
            k < 8,
    ;
    assert(n != k ==> (((x & !((1u8 << n) as u8)) & ((1u8 << k) as u8) > 0) == (x & ((1u8 << k) as u8)
        > 0)))
        by (bit_vector)
        requires
            n < 8,
            k < 8,
    ;
}

/// After a pin is configured, the driver remembers it as an input exactly
/// when the mode is an input mode, and an input no longer has an interrupt;
/// what it remembers of every other pin is unchanged.
pub proof fn lemma_pin_mode_remembers(s: Mcp23s17State, pin: u8, mode: PinMode, other: u8)
    requires
        !same_pin(pin, other),
    ensures
        pin_mode_plan(s, pin, mode).last() matches Step::Remember(s2) && {
            &&& is_input(s2, pin) == (mode != PinMode::Output)
            &&& (mode != PinMode::Output ==> !has_interrupt(s2, pin))
            &&& (mode == PinMode::Output ==> has_interrupt(s2, pin) == has_interrupt(s, pin))
            &&& is_input(s2, other) == is_input(s, other)
            &&& has_interrupt(s2, other) == has_interrupt(s, other)
            &&& s2.spi_read_control_byte == s.spi_read_control_byte
            &&& s2.spi_write_control_byte == s.spi_write_control_byte
        },
{
    let n = pin % 8;
    let k = other % 8;
    lemma_mask_bits(s.pin_io_configurations_a, n, k);
    lemma_mask_bits(s.pin_io_configurations_b, n, k);
    lemma_mask_bits(s.pin_interrupt_configurations_a, n, k);
    lemma_mask_bits(s.pin_interrupt_configurations_b, n, k);
    let s1 = with_interrupt(s, pin, false);
    lemma_mask_bits(s1.pin_io_configurations_a, n, k);
    lemma_mask_bits(s1.pin_io_configurations_b, n, k);
}

/// After the interrupt mode of a pin is set, the driver remembers an
/// interrupt on it exactly when the mode enables one; what it remembers of
/// the pins' directions and of every other pin's interrupt is unchanged.
pub proof fn lemma_interrupt_mode_remembers(s: Mcp23s17State, pin: u8, mode: InterruptMode, other: u8)
    requires
        !same_pin(pin, other),
    ensures
        interrupt_plan(s, pin, mode).last() matches Step::Remember(s2) && {
            &&& has_interrupt(s2, pin) == (mode != InterruptMode::NoInterrupt)
            &&& has_interrupt(s2, other) == has_interrupt(s, other)
            &&& s2.pin_io_configurations_a == s.pin_io_configurations_a
            &&& s2.pin_io_configurations_b == s.pin_io_configurations_b
        },
{
    let n = pin % 8;
    let k = other % 8;
    lemma_mask_bits(s.pin_interrupt_configurations_a, n, k);
    lemma_mask_bits(s.pin_interrupt_configurations_b, n, k);
}

/// Bit `k` (0 to 7) of a register value.
pub open spec fn bit(v: u8, k: int) -> bool {
    (v >> (k as u8)) & 1u8 == 1u8
}

/// The address of a port register: `port_a` for a pin of port A (0 to 7),
/// the address after it for a pin of port B (the interleaved layout).
pub open spec fn reg_of_port(pin: u8, port_a: int) -> int {
    if pin < 8 {
        port_a
    } else {
        port_a + 1
    }
}

/// The address of the register an access works on.
pub open spec fn op_register(op: RegisterOp) -> int {
    match op {
        RegisterOp::SetBit(r, _) => register_address(r) as int,
        RegisterOp::ClearBit(r, _) => register_address(r) as int,
        RegisterOp::SetBits(r, _) => register_address(r) as int,
        RegisterOp::WritePair(r, _, _) => register_address(r) as int,
    }
}

/// What a step does to the device's register file (the value of each
/// register, by address): a read-modify-write changes its register, a pair
/// write sets a register and the one after it, and the driver's memory
/// changes no register.
pub open spec fn apply_step(regs: Seq<u8>, step: Step) -> Seq<u8> {
    match step {
        Step::Spi(op) => match op {
            RegisterOp::WritePair(_, first, second) => regs.update(op_register(op), first).update(
                op_register(op) + 1,
                second,
            ),
            _ => regs.update(op_register(op), modified_value(op, regs[op_register(op)])),
        },
        Step::Remember(_) => regs,
    }
}

/// The register file after the first `i` steps of a plan.
pub open spec fn run_steps(regs: Seq<u8>, plan: Seq<Step>, i: nat) -> Seq<u8>
    decreases i,
{
    if i == 0 {
        regs
    } else {
        apply_step(run_steps(regs, plan, (i - 1) as nat), plan[i - 1])
    }
}

/// The register file after a whole plan.
pub open spec fn run_plan(regs: Seq<u8>, plan: Seq<Step>) -> Seq<u8> {
    run_steps(regs, plan, plan.len())
}

proof fn lemma_bit_ops(x: u8, n: u8, k: u8)
    requires
        n < 8,
        k < 8,
    ensures
        bit(x | mask_of(n), k as int) == (k == n || bit(x, k as int)),
        bit(x & !mask_of(n), k as int) == (k != n && bit(x, k as int)),
{
    assert(((x | ((1u8 << n) as u8)) >> k) & 1u8 == 1u8 <==> (k == n || (x >> k) & 1u8 == 1u8)) by (bit_vector)
        requires
            n < 8,
            k < 8,
    ;
    assert(((x & !((1u8 << n) as u8)) >> k) & 1u8 == 1u8 <==> (k != n && (x >> k) & 1u8 == 1u8)) by (bit_vector)
        requires
            n < 8,
            k < 8,
    ;
}

/// Law: configuring all pins at once leaves the pull-up registers
/// (`GPPUA`, `GPPUB` at 0x0C, 0x0D) all ones exactly for pulled-up inputs
/// and all zeros otherwise, and the direction registers (`IODIRA`, `IODIRB`
/// at 0x00, 0x01) all zeros exactly for outputs and all ones (inputs)
/// otherwise; no other register changes.
pub proof fn lemma_pin_mode_all_effect(s: Mcp23s17State, mode: PinMode, regs: Seq<u8>)
    requires
        regs.len() == 22,
    ensures
        run_plan(regs, pin_mode_all_plan(s, mode)).len() == 22,
        run_plan(regs, pin_mode_all_plan(s, mode))[0x0C] == (if mode == PinMode::InputPullup { 0xffu8 } else { 0x00u8 }),
        run_plan(regs, pin_mode_all_plan(s, mode))[0x0D] == (if mode == PinMode::InputPullup { 0xffu8 } else { 0x00u8 }),
        run_plan(regs, pin_mode_all_plan(s, mode))[0x00] == (if mode == PinMode::Output { 0x00u8 } else { 0xffu8 }),
        run_plan(regs, pin_mode_all_plan(s, mode))[0x01] == (if mode == PinMode::Output { 0x00u8 } else { 0xffu8 }),
        forall|a: int|
            0 <= a < 22 && a != 0x00 && a != 0x01 && a != 0x0C && a != 0x0D ==> #[trigger] run_plan(
                regs,
                pin_mode_all_plan(s, mode),
            )[a] == regs[a],
{
    reveal_with_fuel(run_steps, 4);
    let plan = pin_mode_all_plan(s, mode);
    assert(plan.len() == 3);
}

/// Law: carrying out the plan that sets `pin`'s interrupt mode enables the
/// pin's interrupt (its bit of `GPINTEN`, at 0x04/0x05) exactly when the mode
/// is not `NoInterrupt`. On both edges the pin is compared with its previous
/// value (its `INTCON` bit, at 0x08/0x09, is 0); active high and active low
/// compare it with a default (`INTCON` bit 1) that is low and high
/// respectively (its `DEFVAL` bit, at 0x06/0x07, is 0 and 1). Disabling
/// leaves `INTCON` and `DEFVAL` as they were, both edges leave `DEFVAL` as it
/// was, and no other bit of any register changes.
pub proof fn lemma_interrupt_plan_effect(s: Mcp23s17State, pin: u8, mode: InterruptMode, regs: Seq<u8>)
    requires
        regs.len() == 22,
    ensures
        ({
            let after = run_plan(regs, interrupt_plan(s, pin, mode));
            let n = (pin % 8) as int;
            let gpinten = reg_of_port(pin, 0x04);
            let intcon = reg_of_port(pin, 0x08);
            let defval = reg_of_port(pin, 0x06);
            &&& after.len() == 22
            &&& bit(after[gpinten], n) == (mode != InterruptMode::NoInterrupt)
            &&& mode == InterruptMode::BothEdges ==> !bit(after[intcon], n) && bit(after[defval], n)
                == bit(regs[defval], n)
            &&& mode == InterruptMode::ActiveHigh ==> bit(after[intcon], n) && !bit(after[defval], n)
            &&& mode == InterruptMode::ActiveLow ==> bit(after[intcon], n) && bit(after[defval], n)
            &&& mode == InterruptMode::NoInterrupt ==> bit(after[intcon], n) == bit(regs[intcon], n)
                && bit(after[defval], n) == bit(regs[defval], n)
            &&& forall|a: int, k: int|
                0 <= a < 22 && 0 <= k < 8 && (k != n || (a != gpinten && a != intcon && a != defval))
                    ==> #[trigger] bit(after[a], k) == bit(regs[a], k)
        }),
{
    reveal_with_fuel(run_steps, 5);
    let n = pin % 8;
    let plan = interrupt_plan(s, pin, mode);
    let gpinten = reg_of_port(pin, 0x04);
    let intcon = reg_of_port(pin, 0x08);
    let defval = reg_of_port(pin, 0x06);
    let after = run_plan(regs, plan);
    assert forall|a: int, k: int| 0 <= a < 22 && 0 <= k < 8 implies #[trigger] bit(regs[a] | mask_of(n), k)
        == (k == n || bit(regs[a], k)) by {
        lemma_bit_ops(regs[a], n, k as u8);
    }
    assert forall|a: int, k: int| 0 <= a < 22 && 0 <= k < 8 implies #[trigger] bit(regs[a] & !mask_of(n), k)
        == (k != n && bit(regs[a], k)) by {
        lemma_bit_ops(regs[a], n, k as u8);
    }
    match mode {
        InterruptMode::NoInterrupt => {
            assert(after == regs.update(gpinten, regs[gpinten] & !mask_of(n)));
        },
        InterruptMode::ActiveHigh => {
            let r1 = regs.update(intcon, regs[intcon] | mask_of(n));
            let r2 = r1.update(defval, r1[defval] & !mask_of(n));
            assert(after == r2.update(gpinten, r2[gpinten] | mask_of(n)));
        },
        InterruptMode::ActiveLow => {
            let r1 = regs.update(intcon, regs[intcon] | mask_of(n));
            let r2 = r1.update(defval, r1[defval] | mask_of(n));
            assert(after == r2.update(gpinten, r2[gpinten] | mask_of(n)));
        },
        InterruptMode::BothEdges => {
            let r1 = regs.update(intcon, regs[intcon] & !mask_of(n));
            assert(after == r1.update(gpinten, r1[gpinten] | mask_of(n)));
        },
    }
}

/// Law: carrying out the plan that configures `pin` makes it an input (its
/// `IODIR` bit, at 0x00/0x01, is 1) exactly for the input modes, with its
/// pull-up (its `GPPU` bit, at 0x0C/0x0D) on exactly for a pulled-up input.
/// A new output starts low (its `GPIO` latch bit, at 0x12/0x13, is 0); an
/// input keeps its latch bit, and loses its interrupt (its `GPINTEN` bit, at
/// 0x04/0x05, becomes 0) if the driver remembers one, keeping that bit
/// otherwise, as an output does. No other bit of any register changes.
pub proof fn lemma_pin_mode_effect(s: Mcp23s17State, pin: u8, mode: PinMode, regs: Seq<u8>)
    requires
        regs.len() == 22,
    ensures
        ({
            let after = run_plan(regs, pin_mode_plan(s, pin, mode));
            let n = (pin % 8) as int;
            let iodir = reg_of_port(pin, 0x00);
            let gppu = reg_of_port(pin, 0x0C);
            let gpio = reg_of_port(pin, 0x12);
            let gpinten = reg_of_port(pin, 0x04);
            &&& after.len() == 22
            &&& bit(after[iodir], n) == (mode != PinMode::Output)
            &&& bit(after[gppu], n) == (mode == PinMode::InputPullup)
            &&& mode == PinMode::Output ==> !bit(after[gpio], n)
            &&& mode != PinMode::Output ==> bit(after[gpio], n) == bit(regs[gpio], n)
            &&& mode != PinMode::Output && has_interrupt(s, pin) ==> !bit(after[gpinten], n)
            &&& (mode == PinMode::Output || !has_interrupt(s, pin)) ==> bit(after[gpinten], n) == bit(
                regs[gpinten],
                n,
            )
            &&& forall|a: int, k: int|
                0 <= a < 22 && 0 <= k < 8 && (k != n || (a != iodir && a != gppu && a != gpio && a
                    != gpinten)) ==> #[trigger] bit(after[a], k) == bit(regs[a], k)
        }),
{
    reveal_with_fuel(run_steps, 6);
    let n = pin % 8;
    let plan = pin_mode_plan(s, pin, mode);
    let iodir = reg_of_port(pin, 0x00);
    let gppu = reg_of_port(pin, 0x0C);
    let gpio = reg_of_port(pin, 0x12);
    let gpinten = reg_of_port(pin, 0x04);
    let after = run_plan(regs, plan);
    assert forall|a: int, k: int| 0 <= a < 22 && 0 <= k < 8 implies #[trigger] bit(regs[a] | mask_of(n), k)
        == (k == n || bit(regs[a], k)) by {
        lemma_bit_ops(regs[a], n, k as u8);
    }
    assert forall|a: int, k: int| 0 <= a < 22 && 0 <= k < 8 implies #[trigger] bit(regs[a] & !mask_of(n), k)
        == (k != n && bit(regs[a], k)) by {
        lemma_bit_ops(regs[a], n, k as u8);
    }
    let r1 = if mode == PinMode::InputPullup {
        regs.update(gppu, regs[gppu] | mask_of(n))
    } else {
        regs.update(gppu, regs[gppu] & !mask_of(n))
    };
    if mode == PinMode::Output {
        let r2 = r1.update(iodir, r1[iodir] & !mask_of(n));
        assert(plan.len() == 4);
        assert(after == r2.update(gpio, r2[gpio] & !mask_of(n)));
    } else {
        let r2 = r1.update(iodir, r1[iodir] | mask_of(n));
        if has_interrupt(s, pin) {
            assert(plan.len() == 5);
            assert(plan[2] == Step::Spi(RegisterOp::ClearBit(port_register(pin, RegisterAddress::GPINTENA, RegisterAddress::GPINTENB), n)));
            assert(after == r2.update(gpinten, r2[gpinten] & !mask_of(n)));
        } else {
            assert(plan.len() == 3);
            assert(after == r2);
        }
    }
}

/// Law: carrying out the plan that drives `pin` high or low sets its `GPIO`
/// latch bit (at 0x12/0x13) to the level. A pin the driver remembers as an
/// input is first made an output without pull-up (its `IODIR` and `GPPU`
/// bits, at 0x00/0x01 and 0x0C/0x0D, become 0); one remembered as an output
/// keeps them. No other bit of any register changes.
pub proof fn lemma_set_level_effect(s: Mcp23s17State, pin: u8, high: bool, regs: Seq<u8>)
    requires
        regs.len() == 22,
    ensures
        ({
            let after = run_plan(regs, set_level_plan(s, pin, high));
            let n = (pin % 8) as int;
            let iodir = reg_of_port(pin, 0x00);
            let gppu = reg_of_port(pin, 0x0C);
            let gpio = reg_of_port(pin, 0x12);
            &&& after.len() == 22
            &&& bit(after[gpio], n) == high
            &&& is_input(s, pin) ==> !bit(after[iodir], n) && !bit(after[gppu], n)
            &&& !is_input(s, pin) ==> bit(after[iodir], n) == bit(regs[iodir], n) && bit(after[gppu], n)
                == bit(regs[gppu], n)
            &&& forall|a: int, k: int|
                0 <= a < 22 && 0 <= k < 8 && (k != n || (a != iodir && a != gppu && a != gpio))
                    ==> #[trigger] bit(after[a], k) == bit(regs[a], k)
        }),
{
    reveal_with_fuel(run_steps, 6);
    let n = pin % 8;
    let plan = set_level_plan(s, pin, high);
    let iodir = reg_of_port(pin, 0x00);
    let gppu = reg_of_port(pin, 0x0C);
    let gpio = reg_of_port(pin, 0x12);
    let after = run_plan(regs, plan);
    assert forall|a: int, k: int| 0 <= a < 22 && 0 <= k < 8 implies #[trigger] bit(regs[a] | mask_of(n), k)
        == (k == n || bit(regs[a], k)) by {
        lemma_bit_ops(regs[a], n, k as u8);
    }
    assert forall|a: int, k: int| 0 <= a < 22 && 0 <= k < 8 implies #[trigger] bit(regs[a] & !mask_of(n), k)
        == (k != n && bit(regs[a], k)) by {
        lemma_bit_ops(regs[a], n, k as u8);
    }
    if is_input(s, pin) {
        let r1 = regs.update(gppu, regs[gppu] & !mask_of(n));
        let r2 = r1.update(iodir, r1[iodir] & !mask_of(n));
        let r3 = r2.update(gpio, r2[gpio] & !mask_of(n));
        assert(plan.len() == 5);
        assert(run_steps(regs, plan, 4) == r3);
        if high {
            assert(after == r3.update(gpio, r3[gpio] | mask_of(n)));
        } else {
            assert(after == r3.update(gpio, r3[gpio] & !mask_of(n)));
        }
        lemma_bit_ops(r3[gpio], n, n);
        assert(bit(after[gpio], n as int) == high);
        assert(!bit(after[iodir], n as int));
        assert(!bit(after[gppu], n as int));
        assert forall|a: int, k: int|
            0 <= a < 22 && 0 <= k < 8 && (k != n || (a != iodir && a != gppu && a != gpio))
                implies #[trigger] bit(after[a], k) == bit(regs[a], k) by {
            if a == gpio {
                lemma_bit_ops(r3[gpio], n, k as u8);
                lemma_bit_ops(regs[gpio], n, k as u8);
                assert(bit(r3[gpio], k) == bit(regs[gpio], k));
            }
        }
    } else {
        assert(plan.len() == 1);
        if high {
            assert(after == regs.update(gpio, regs[gpio] | mask_of(n)));
        } else {
            assert(after == regs.update(gpio, regs[gpio] & !mask_of(n)));
        }
    }
}

/// Law: carrying out the plan that sets all pins writes the two levels to
/// `GPIOA` and `GPIOB` (0x12, 0x13). Unless the driver remembers every pin
/// as an output, all pins are first made outputs without pull-ups (`IODIRA`,
/// `IODIRB`, `GPPUA`, `GPPUB` at 0x00, 0x01, 0x0C, 0x0D become 0); otherwise
/// those registers keep their values. No other register changes.
pub proof fn lemma_set_all_value_effect(s: Mcp23s17State, value: (u8, u8), regs: Seq<u8>)
    requires
        regs.len() == 22,
    ensures
        ({
            let after = run_plan(regs, set_all_value_plan(s, value));
            let reconfigure = s.pin_io_configurations_a != 0 || s.pin_io_configurations_b != 0;
            &&& after.len() == 22
            &&& after[0x12] == value.0 && after[0x13] == value.1
            &&& reconfigure ==> after[0x00] == 0 && after[0x01] == 0 && after[0x0C] == 0 && after[0x0D]
                == 0
            &&& !reconfigure ==> after[0x00] == regs[0x00] && after[0x01] == regs[0x01] && after[0x0C]
                == regs[0x0C] && after[0x0D] == regs[0x0D]
            &&& forall|a: int|
                0 <= a < 22 && a != 0x00 && a != 0x01 && a != 0x0C && a != 0x0D && a != 0x12 && a
                    != 0x13 ==> #[trigger] after[a] == regs[a]
        }),
{
    reveal_with_fuel(run_steps, 5);
    let plan = set_all_value_plan(s, value);
    if s.pin_io_configurations_a != 0 || s.pin_io_configurations_b != 0 {
        assert(plan.len() == 4);
    } else {
        assert(plan.len() == 1);
    }
}

} // verus!
