//! The tuner of the user interface: preset buttons, and a rotary encoder
//! read like the tuning dial of an old analog radio.
use vstd::prelude::*;

use crate::front_panel::{button_pin_of, Buttons, Direction};

verus! {

/// The id of a radio station: its place in the station list.
pub type RadioStationId = usize;

/// The number of preset buttons.
pub const NUMBER_PRESETS: usize = 4;

/// The stretch of the dial on which a station is heard.
pub const VALID_WINDOW: usize = 5;

/// The stretch of the dial between two stations.
pub const INVALID_WINDOW: usize = 10;

/// The dial position after a step up from `value` on a dial whose highest
/// position is `max`: one more, but never past `max`.
pub open spec fn step_up(value: nat, max: nat) -> nat {
    if value < max {
        value + 1
    } else {
        max
    }
}

/// The dial position after a step down from `value` (above 0).
pub open spec fn step_down(value: nat) -> nat {
    (value - 1) as nat
}

/// A dial position from 0 up to a maximum.
pub struct TuningScale {
    value: usize,
    max: usize,
}

impl TuningScale {
    /// The position.
    pub closed spec fn value(&self) -> nat {
        self.value as nat
    }

    /// The highest position.
    pub closed spec fn max(&self) -> nat {
        self.max as nat
    }

    /// The position is on the dial, and the dial ends below `usize::MAX`.
    pub closed spec fn wf(&self) -> bool {
        self.value <= self.max < usize::MAX
    }

    /// A dial with `max` positions, at position 0.
    pub fn new(max: usize) -> (s: TuningScale)
        requires
            max >= 1,
        ensures
            s.wf(),
            s.value() == 0,
            s.max() == max - 1,
    {
        TuningScale { value: 0, max: max - 1 }
    }

    /// Moves to `value`, or to the highest position if `value` is beyond
    /// it, and returns the new position.
    pub fn set(&mut self, value: usize) -> (r: usize)
        requires
            old(self).wf(),
        ensures
            final(self).wf(),
            final(self).max() == old(self).max(),
            final(self).value() == if value <= old(self).max() {
                value as nat
            } else {
                old(self).max()
            },
            r == final(self).value(),
    {
        if value <= self.max {
            self.value = value;
        } else {
            self.value = self.max;
        }
        self.value
    }

    /// The position.
    pub fn get(&self) -> (r: usize)
        ensures
            r == self.value(),
            self.wf() ==> r <= self.max(),
    {
        self.value
    }

    /// A well-formed dial is at a position from 0 up to its highest, which
    /// is below `usize::MAX`.
    pub proof fn lemma_value_on_dial(&self)
        requires
            self.wf(),
        ensures
            self.value() <= self.max(),
            self.max() < usize::MAX,
    {
    }

    /// Moves one position up, unless at the highest position.
    pub fn increment(&mut self) -> (r: usize)
        requires
            old(self).wf(),
        ensures
            final(self).wf(),
            final(self).max() == old(self).max(),
            final(self).value() == step_up(old(self).value(), old(self).max()),
            r == final(self).value(),
    {
        let value = self.get() + 1;
        self.set(value)
    }

    /// Moves one position down; there is none below position 0.
    pub fn decrement(&mut self) -> (r: usize)
        requires
            old(self).wf(),
            old(self).value() > 0,
        ensures
            final(self).wf(),
            final(self).max() == old(self).max(),
            final(self).value() == step_down(old(self).value()),
            r == final(self).value(),
    {
        let value = self.get() - 1;
        self.set(value)
    }
}

/// Moving the dial down undoes moving it up, below the highest position;
/// moving it up undoes moving it down, above position 0.
pub proof fn lemma_dial_steps_undo(value: nat, max: nat)
    requires
        value <= max,
    ensures
        value < max ==> step_up(value, max) > 0 && step_down(step_up(value, max)) == value,
        value > 0 ==> step_up(step_down(value), max) == value,
{
}

/// What the user interface knows of the station list: how many stations
/// there are, and the station of each preset button, if presets are set.
pub struct StationConfig {
    pub number_stations: usize,
    pub presets: Option<[RadioStationId; NUMBER_PRESETS]>,
}

/// The station of a preset button.
pub open spec fn preset_station(presets: Option<[RadioStationId; NUMBER_PRESETS]>, preset_number: usize) -> Option<
    RadioStationId,
> {
    match presets {
        Some(p) => if preset_number < NUMBER_PRESETS {
            Some(p@[preset_number as int])
        } else {
            None
        },
        None => None,
    }
}

impl StationConfig {
    /// Get the station id from the preset number. For instance, if the
    /// presets were `[2, 5, 12, 6]` then `map_preset(2)` would return the
    /// station id `Some(12)`. If no presets have been set, or the preset
    /// number is out of range, then it returns `None`.
    pub fn map_preset(&self, preset_number: usize) -> (r: Option<RadioStationId>)
        ensures
            r == preset_station(self.presets, preset_number),
    {
        match &self.presets {
            Some(p) => if preset_number < NUMBER_PRESETS {
                Some(p[preset_number])
            } else {
                None
            },
            None => None,
        }
    }

    /// The station to start with: the first preset, if presets are set, else
    /// the first station.
    pub fn initial_station(&self) -> (r: RadioStationId)
        ensures
            r == match self.presets {
                Some(p) => p@[0],
                None => 0,
            },
    {
        match &self.presets {
            Some(p) => p[0],
            None => 0,
        }
    }
}

/// The preset that a button selects.
pub open spec fn button_preset(button: Buttons) -> Option<usize> {
    match button {
        Buttons::Button1 => Some(0usize),
        Buttons::Button2 => Some(1usize),
        Buttons::Button3 => Some(2usize),
        Buttons::Button4 => Some(3usize),
        _ => None,
    }
}

/// Law: the preset buttons, wired to expander pins 3 to 6 in order, select
/// presets 0 to 3 in that order: a button's preset is its pin less 3, the
/// pin of the first button. The encoder switch and the other controls
/// select no preset.
pub proof fn lemma_button_selects_preset_in_pin_order(button: Buttons)
    ensures
        button_preset(button) == match button_pin_of(button) {
            Some(pin) => if pin >= 3 {
                Some((pin - 3) as usize)
            } else {
                None
            },
            None => None,
        },
{
}

/// The tuner's memory between two polls of the front panel.
pub struct Tuner {
    last_button_pressed: Buttons,
    last_station_id: Option<RadioStationId>,
    tuning_scale: TuningScale,
}

impl Tuner {
    /// The button seen at the last poll.
    pub closed spec fn last_button(&self) -> Buttons {
        self.last_button_pressed
    }

    /// The station last chosen with the dial.
    pub closed spec fn last_station(&self) -> Option<RadioStationId> {
        self.last_station_id
    }

    /// The dial position.
    pub closed spec fn dial(&self) -> nat {
        self.tuning_scale.value()
    }

    /// The highest dial position.
    pub closed spec fn dial_max(&self) -> nat {
        self.tuning_scale.max()
    }

    /// The tuner's dial is well formed.
    pub closed spec fn wf(&self) -> bool {
        self.tuning_scale.wf()
    }

    /// A tuner for `number_stations` stations: a dial with a stretch of
    /// [`VALID_WINDOW`] + [`INVALID_WINDOW`] positions per station, at
    /// position 0, with no button and no station seen yet.
    pub fn new(number_stations: usize) -> (t: Tuner)
        requires
            number_stations >= 1,
            number_stations * (VALID_WINDOW + INVALID_WINDOW) <= usize::MAX,
        ensures
            t.wf(),
            t.dial() == 0,
            t.dial_max() == number_stations * (VALID_WINDOW + INVALID_WINDOW) - 1,
            t.last_button() == Buttons::NoButton,
            t.last_station() == None::<RadioStationId>,
    {
        assert(number_stations * (VALID_WINDOW + INVALID_WINDOW) >= 1) by (nonlinear_arith)
            requires
                number_stations >= 1,
        ;
        Tuner {
            last_button_pressed: Buttons::NoButton,
            last_station_id: None,
            tuning_scale: TuningScale::new(number_stations * (VALID_WINDOW + INVALID_WINDOW)),
        }
    }

    /// A poll of the buttons. When the button differs from the last one
    /// seen, it is remembered, and a preset button selects the station of its
    /// preset, which is returned. An unknown control is never reported by
    /// the front panel.
    pub fn on_button(&mut self, button: Buttons, config: &StationConfig) -> (r: Option<RadioStationId>)
        requires
            old(self).wf(),
            button != old(self).last_button() ==> button != Buttons::Unknown,
        ensures
            final(self).wf(),
            final(self).last_button() == button,
            final(self).last_station() == old(self).last_station(),
            final(self).dial() == old(self).dial(),
            final(self).dial_max() == old(self).dial_max(),
            button == old(self).last_button() ==> r is None,
            button != old(self).last_button() ==> r == match button_preset(button) {
                Some(p) => preset_station(config.presets, p),
                None => None,
            },
            button != old(self).last_button() && button == Buttons::Button1 ==> r == preset_station(
                config.presets,
                0,
            ),
            button != old(self).last_button() && button == Buttons::Button2 ==> r == preset_station(
                config.presets,
                1,
            ),
            button != old(self).last_button() && button == Buttons::Button3 ==> r == preset_station(
                config.presets,
                2,
            ),
            button != old(self).last_button() && button == Buttons::Button4 ==> r == preset_station(
                config.presets,
                3,
            ),
    {
        if button == self.last_button_pressed {
            return None;
        }
        self.last_button_pressed = button;
        match button {
            Buttons::Button1 => config.map_preset(0),
            Buttons::Button2 => config.map_preset(1),
            Buttons::Button3 => config.map_preset(2),
            Buttons::Button4 => config.map_preset(3),
            _ => None,
        }
    }

    /// After a preset is selected, the dial moves to `scale_value`, the
    /// dial position of its station, so that later turns start from there.
    pub fn preset_selected(&mut self, scale_value: usize)
        requires
            old(self).wf(),
        ensures
            final(self).wf(),
            final(self).last_button() == old(self).last_button(),
            final(self).last_station() == old(self).last_station(),
            final(self).dial_max() == old(self).dial_max(),
            final(self).dial() == if scale_value <= old(self).dial_max() {
                scale_value as nat
            } else {
                old(self).dial_max()
            },
    {
        self.tuning_scale.set(scale_value);
    }

    /// A reading of the rotary encoder: a turn moves the dial a position up
    /// (clockwise) or down, and the new position is returned, for the caller
    /// to find the station there. There is no position below 0.
    pub fn on_rotation(&mut self, direction: Direction) -> (r: Option<usize>)
        requires
            old(self).wf(),
            direction == Direction::CounterClockwise ==> old(self).dial() > 0,
        ensures
            final(self).wf(),
            final(self).last_button() == old(self).last_button(),
            final(self).last_station() == old(self).last_station(),
            final(self).dial_max() == old(self).dial_max(),
            direction == Direction::Clockwise ==> final(self).dial() == step_up(
                old(self).dial(),
                old(self).dial_max(),
            ),
            direction == Direction::CounterClockwise ==> final(self).dial() == step_down(old(self).dial()),
            direction == Direction::NoMovement ==> final(self).dial() == old(self).dial() && r is None,
            direction != Direction::NoMovement ==> r == Some(final(self).dial() as usize),
    {
        match direction {
            Direction::Clockwise => Some(self.tuning_scale.increment()),
            Direction::CounterClockwise => Some(self.tuning_scale.decrement()),
            Direction::NoMovement => None,
        }
    }

    /// The station found at the dial position after a turn (`None` between
    /// stations). When it differs from the station last chosen with the dial,
    /// it is remembered and returned, to be announced.
    pub fn on_mapped(&mut self, station_id: Option<RadioStationId>) -> (r: Option<Option<RadioStationId>>)
        requires
            old(self).wf(),
        ensures
            final(self).wf(),
            final(self).last_button() == old(self).last_button(),
            final(self).dial() == old(self).dial(),
            final(self).dial_max() == old(self).dial_max(),
            final(self).last_station() == station_id,
            station_id == old(self).last_station() ==> r is None,
            station_id != old(self).last_station() ==> r == Some(station_id),
    {
        if station_id == self.last_station_id {
            return None;
        }
        self.last_station_id = station_id;
        Some(station_id)
    }

    /// The dial position.
    pub fn dial_position(&self) -> (r: usize)
        ensures
            r == self.dial(),
            self.wf() ==> r <= self.dial_max(),
    {
        self.tuning_scale.get()
    }

    /// A well-formed tuner's dial is at a position from 0 up to its
    /// highest, which is below `usize::MAX`.
    pub proof fn lemma_dial_on_scale(&self)
        requires
            self.wf(),
        ensures
            self.dial() <= self.dial_max(),
            self.dial_max() < usize::MAX,
    {
    }
}

/// The direction the tuner knob was turned.
#[derive(Debug, Clone, Copy, PartialEq, Eq, Hash, Structural)]
pub enum TunerDirection {
    Clockwise,
    CounterClockwise,
}

/// Messages from the user interface to the radio.
#[derive(Debug, Clone, Copy, PartialEq, Eq, Hash, Structural)]
pub enum UiCommand {
    /// Indicates if the wifi is connected
    WiFiConnected(bool),
    /// The selected station id
    StationSelect(usize),
    /// If the user has turned the tuner knob
    TunerMoved(TunerDirection),
}

} // verus!
