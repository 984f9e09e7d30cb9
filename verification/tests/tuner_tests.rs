use rusty_radio::devices::{AsyncDelay, SpiDeviceAdapter, Vs1053Driver};
use rusty_radio::front_panel::{Buttons, Direction};
use rusty_radio::tuner::{StationConfig, Tuner, TunerDirection, TuningScale, UiCommand};

#[test]
fn tuning_scale_clamps() {
    let mut scale = TuningScale::new(10);
    assert_eq!(scale.get(), 0);
    assert_eq!(scale.set(5), 5);
    assert_eq!(scale.set(20), 9);
    assert_eq!(scale.increment(), 9);
    assert_eq!(scale.decrement(), 8);
    assert_eq!(scale.increment(), 9);
}

#[test]
fn dial_steps_undo_each_other() {
    let mut scale = TuningScale::new(100);
    scale.set(40);
    scale.increment();
    assert_eq!(scale.decrement(), 40);
    scale.decrement();
    assert_eq!(scale.increment(), 40);
}

#[test]
fn map_preset_doc_example() {
    let config = StationConfig { number_stations: 20, presets: Some([2, 5, 12, 6]) };
    assert_eq!(config.map_preset(2), Some(12));
    assert_eq!(config.map_preset(4), None);
    assert_eq!(config.initial_station(), 2);
    let config = StationConfig { number_stations: 20, presets: None };
    assert_eq!(config.map_preset(0), None);
    assert_eq!(config.initial_station(), 0);
}

#[test]
fn tuner_buttons_select_presets_once() {
    let config = StationConfig { number_stations: 3, presets: Some([2, 0, 1, 1]) };
    let mut tuner = Tuner::new(3);
    assert_eq!(tuner.on_button(Buttons::NoButton, &config), None);
    assert_eq!(tuner.on_button(Buttons::Button1, &config), Some(2));
    // Still held: nothing new.
    assert_eq!(tuner.on_button(Buttons::Button1, &config), None);
    assert_eq!(tuner.on_button(Buttons::RotaryEncoderSwitch, &config), None);
    assert_eq!(tuner.on_button(Buttons::Button3, &config), Some(1));
}

#[test]
fn tuner_dial() {
    let mut tuner = Tuner::new(2);
    assert_eq!(tuner.on_rotation(Direction::NoMovement), None);
    assert_eq!(tuner.on_rotation(Direction::Clockwise), Some(1));
    assert_eq!(tuner.on_rotation(Direction::CounterClockwise), Some(0));
    tuner.preset_selected(100);
    assert_eq!(tuner.dial_position(), 29);
    assert_eq!(tuner.on_rotation(Direction::Clockwise), Some(29));
    assert_eq!(tuner.on_mapped(Some(1)), Some(Some(1)));
    assert_eq!(tuner.on_mapped(Some(1)), None);
    assert_eq!(tuner.on_mapped(None), Some(None));
}

#[test]
fn ui_messages() {
    let c = UiCommand::TunerMoved(TunerDirection::Clockwise);
    assert_eq!(c, UiCommand::TunerMoved(TunerDirection::Clockwise));
    assert_ne!(c, UiCommand::StationSelect(1));
    assert_ne!(UiCommand::WiFiConnected(true), UiCommand::WiFiConnected(false));
}

#[test]
fn devices() {
    let driver = Vs1053Driver::new(1u8, 2u8, 3u8, 4u8).ok().unwrap();
    assert_eq!((driver.spi, driver.mp3cs, driver.xdcs, driver.dreq), (1, 2, 3, 4));
    let mut adapter = SpiDeviceAdapter::new(7u32);
    *adapter.wrapped() += 1;
    assert_eq!(*adapter.wrapped(), 8);
    let _delay = AsyncDelay::new();
    assert_eq!(AsyncDelay::millis_for_ns(1_999_999), 2);
    assert_eq!(AsyncDelay::millis_for_ns(999_999), 1);
    assert_eq!(AsyncDelay::millis_for_ns(500_000), 1);
    assert_eq!(AsyncDelay::millis_for_ns(2_000_000), 2);
    assert_eq!(AsyncDelay::millis_for_ns(0), 0);
    assert_eq!(AsyncDelay::millis_for_ns(u32::MAX), 4295);
}
