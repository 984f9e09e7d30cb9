use rusty_radio::stations::{
    load_radio_stations, RadioStationError, RecordCursor, StationError, Stations,
};

const MAX_STATION_NAME_LEN: usize = 32;
const MAX_STATION_URL_LEN: usize = 256;
const NUMBER_PRESETS: usize = 4;

type TestStations = Stations<MAX_STATION_NAME_LEN, MAX_STATION_URL_LEN, NUMBER_PRESETS>;

#[test]
fn test_add_and_get_station() {
    let mut stations = TestStations::new();

    stations
        .add_station("FFH".as_bytes(), "http://www.ffh.de/stream.mp3".as_bytes())
        .unwrap();
    stations
        .add_station("SWR3".as_bytes(), "http://www.swr.de/stream/3/music.mp3".as_bytes())
        .unwrap();
    stations
        .add_station("SWR1".as_bytes(), "http://www.swr.de/stream/1/music.mp3".as_bytes())
        .unwrap();
    stations
        .add_station(
            "Classic".as_bytes(),
            "http://www.my_classics.de/stream//music.mp3".as_bytes(),
        )
        .unwrap();

    assert_eq!(stations.number_stations(), 4);

    let station = stations.get_station(1).unwrap();

    if let Some(station) = station {
        assert_eq!(station.name(), "SWR3");
        assert_eq!(station.url(), "http://www.swr.de/stream/3/music.mp3");
    } else {
        assert!(false, "Station not found");
    }

    // No station
    let station = stations.get_station(4).unwrap();
    assert!(station.is_none());
}

#[test]
fn test_returning_station_id_after_add() {
    let mut stations = TestStations::new();
    let station_id = stations
        .add_station("FFH".as_bytes(), "http://www.ffh.de/stream.mp3".as_bytes())
        .unwrap();
    assert_eq!(station_id, 0);

    let station_id = stations
        .add_station("SWR3".as_bytes(), "http://www.swr.de/stream/3/music.mp3".as_bytes())
        .unwrap();
    assert_eq!(station_id, 1);

    let station_id = stations
        .add_station("SWR1".as_bytes(), "http://www.swr.de/stream/1/music.mp3".as_bytes())
        .unwrap();
    assert_eq!(station_id, 2);

    let station_id = stations
        .add_station(
            "Classic".as_bytes(),
            "http://www.my_classics.de/stream//music.mp3".as_bytes(),
        )
        .unwrap();
    assert_eq!(station_id, 3);
}

#[test]
fn test_preset() {
    let mut stations = TestStations::new();
    stations
        .add_station("FFH".as_bytes(), "http://www.ffh.de/stream.mp3".as_bytes())
        .unwrap();

    let station_id = stations
        .add_station("SWR3".as_bytes(), "http://www.swr.de/stream/3/music.mp3".as_bytes())
        .unwrap();
    stations.set_preset(station_id, 0).unwrap();

    stations
        .add_station("SWR1".as_bytes(), "http://www.swr.de/stream/1/music.mp3".as_bytes())
        .unwrap();

    let station_id = stations
        .add_station(
            "Classic".as_bytes(),
            "http://www.my_classics.de/stream//music.mp3".as_bytes(),
        )
        .unwrap();

    stations.set_preset(station_id, 1).unwrap();

    let station = stations.preset(0).unwrap();
    if let Some(station) = station {
        assert_eq!(station.name(), "SWR3");
        assert_eq!(station.url(), "http://www.swr.de/stream/3/music.mp3")
    }

    let station = stations.preset(3).unwrap();

    if let Some(station) = station {
        assert_eq!(station.name(), "Classic");
        assert_eq!(station.url(), "http://www.my_classics.de/stream//music.mp3")
    }
}

#[test]
fn test_extract_prefix_slot() {
    let value = "PREFIX:3";

    let slot = TestStations::extract_prefix_slot(value).unwrap();

    assert_eq!(slot, 3);
}

#[test]
fn lib_test_load() {
    let data = "RPR1,http://streams.rpr1.de/rpr-kaiserslautern-128-mp3,Favorites,Pop
Absolute Oldies- Best of the 80s,http://streams.rpr1.de/rpr-80er-128-mp3,Favorites,Oldies
SWR3,https://liveradio.swr.de/sw331ch/swr3,Favorites,Pop
BBC Radio 1,http://stream.live.vc.bbcmedia.co.uk/bbc_radio_one,UK,Pop
";

    let stations = TestStations::load(data.as_bytes());

    assert!(stations.is_ok());

    let stations = stations.unwrap();

    let station = stations.get_station(2).unwrap();

    if let Some(station) = station {
        assert_eq!(station.name(), "SWR3");
        assert_eq!(station.url(), "https://liveradio.swr.de/sw331ch/swr3");
    } else {
        panic!("Station not found");
    }
}

#[test]
fn test_load_with_presets() {
    let data = "RPR1,http://streams.rpr1.de/rpr-kaiserslautern-128-mp3,Favorites,Pop
Absolute Oldies- Best of the 80s,http://streams.rpr1.de/rpr-80er-128-mp3,Favorites,Oldies, PRESET:0
SWR3,https://liveradio.swr.de/sw331ch/swr3,Favorites,Pop
BBC Radio 1,http://stream.live.vc.bbcmedia.co.uk/bbc_radio_one,UK,Pop, PRESET:1
";

    let stations = TestStations::load(data.as_bytes());

    assert!(stations.is_ok());

    let stations = stations.unwrap();

    let station = stations.preset(0).unwrap();

    if let Some(station) = station {
        assert_eq!(station.name(), "Absolute Oldies- Best of the 80s");
        assert_eq!(station.url(), "http://streams.rpr1.de/rpr-80er-128-mp3");
    } else {
        panic!("Station not found");
    }

    let station = stations.preset(1).unwrap();

    if let Some(station) = station {
        assert_eq!(station.name(), "BBC Radio 1");
        assert_eq!(
            station.url(),
            "http://stream.live.vc.bbcmedia.co.uk/bbc_radio_one"
        );
    } else {
        panic!("Station not found");
    }

    let station = stations.preset(2).unwrap();
    assert!(station.is_none());
}

#[test]
fn test_name_error() {
    let data = "Antenne,http://mp3channels.webradio.antenne.de/antenne,Pop".as_bytes();

    // Small name length
    let stations = Stations::<4, MAX_STATION_URL_LEN, NUMBER_PRESETS>::load(data);

    assert!(stations.is_err());

    // Name just at limit
    let stations = Stations::<7, MAX_STATION_URL_LEN, NUMBER_PRESETS>::load(data);

    assert!(stations.is_ok());
}

#[test]
fn test_url_error() {
    let data = "Antenne,http://ir.de/m.mp3,Pop".as_bytes();

    // Small name length
    let stations = Stations::<64, 17, NUMBER_PRESETS>::load(data);

    assert!(stations.is_err());

    // Name just at limit
    let stations = Stations::<7, 18, NUMBER_PRESETS>::load(data);

    assert!(stations.is_ok());
}

#[test]
fn add_then_get_returns_the_station() {
    let mut stations = TestStations::default();
    let id = stations.add_station(b"Radio 1", b"http://radio1.example/stream").unwrap();
    let station = stations.get_station(id).unwrap().unwrap();
    assert_eq!(station.name(), "Radio 1");
    assert_eq!(station.url(), "http://radio1.example/stream");
}

#[test]
fn readme_usage() {
    let mut stations = Stations::<32, 256, 4>::new();
    stations.add_station(b"Radio 1", b"http://radio1.example/stream").unwrap();
    stations.add_station(b"Radio 2", b"http://radio2.example/stream").unwrap();
    stations.set_preset(1, 0).unwrap();
    let station = stations.get_station(0).unwrap().unwrap();
    assert_eq!(station.name(), "Radio 1");
    let preset_station = stations.preset(0).unwrap().unwrap();
    assert_eq!(preset_station.name(), "Radio 2");
}

#[test]
fn add_station_errors() {
    let mut stations = TestStations::new();
    assert_eq!(stations.add_station(b"\xff", b"http://a"), Err(StationError::NameNotUtf8));
    assert_eq!(stations.add_station(b"A", b"\xc3"), Err(StationError::UrlNotUtf8));
    assert_eq!(stations.number_stations(), 0);
    let long = vec![b'u'; 257];
    assert_eq!(stations.add_station(b"A", &long), Err(StationError::UrlTooLong));
    let long_name = vec![b'n'; 33];
    assert_eq!(stations.add_station(&long_name, b"u"), Err(StationError::NameTooLong));
    assert_eq!(stations.number_stations(), 0);
}

#[test]
fn station_pool_is_limited() {
    let mut stations = TestStations::new();
    let name = vec![b'n'; 32];
    let url = vec![b'u'; 256];
    for i in 0..14 {
        assert_eq!(stations.add_station(&name, &url), Ok(i));
    }
    assert_eq!(stations.add_station(&name, &url), Err(StationError::TooManyStations));
    assert_eq!(stations.number_stations(), 14);
}

#[test]
fn station_list_is_limited_to_64() {
    let mut stations = TestStations::new();
    for i in 0..64 {
        assert_eq!(stations.add_station(b"n", b"u"), Ok(i));
    }
    assert_eq!(stations.add_station(b"n", b"u"), Err(StationError::TooManyStations));
    assert_eq!(stations.number_stations(), 64);
}

#[test]
fn add_station_refuses_what_a_station_cannot_hold() {
    let mut stations = Stations::<2, 4, 1>::new();
    assert_eq!(stations.add_station(b"abc", b"u"), Err(StationError::NameTooLong));
    assert_eq!(stations.add_station(b"ab", b"uvwxy"), Err(StationError::UrlTooLong));
    assert_eq!(stations.number_stations(), 0);
    assert_eq!(stations.add_station(b"ab", b"uvwx"), Ok(0));
    let station = stations.get_station(0).unwrap().unwrap();
    assert_eq!((station.name(), station.url()), ("ab", "uvwx"));
}

#[test]
fn preset_errors() {
    let mut stations = TestStations::new();
    assert!(matches!(stations.set_preset(0, 4), Err(StationError::TooManyPresets)));
    assert!(matches!(stations.set_preset(0, 0), Err(StationError::StationNonExistent)));
    assert!(matches!(stations.preset(4), Err(StationError::InvalidPreset)));
    assert!(matches!(stations.preset(0), Ok(None)));
}

#[test]
fn current_station() {
    let mut stations = TestStations::new();
    assert_eq!(stations.set_current_station(0), Err(StationError::StationNonExistent));
    stations.add_station(b"A", b"B").unwrap();
    assert_eq!(stations.set_current_station(0), Ok(()));
    stations.reset_current_station();
}

#[test]
fn extract_prefix_slot_cases() {
    assert_eq!(TestStations::extract_prefix_slot("PRESET: 2 "), Ok(2));
    assert_eq!(TestStations::extract_prefix_slot("PRESET:+1"), Ok(1));
    assert_eq!(TestStations::extract_prefix_slot("PRESET:4"), Err(StationError::InvalidPreset));
    assert_eq!(TestStations::extract_prefix_slot("PRESET:x"), Err(StationError::InvalidPreset));
    assert_eq!(TestStations::extract_prefix_slot("PRESET:"), Err(StationError::InvalidPreset));
    assert_eq!(TestStations::extract_prefix_slot("7"), Err(StationError::InvalidPreset));
    assert_eq!(TestStations::extract_prefix_slot("a:b:0"), Ok(0));
}

#[test]
fn load_errors() {
    let long_field = format!("A,{}\n", "x".repeat(1100));
    assert_eq!(
        TestStations::load(long_field.as_bytes()).err(),
        Some(StationError::CsvFieldTooLong)
    );
    assert_eq!(
        TestStations::load(b"A,B,\xff\n").err(),
        Some(StationError::CsvFieldNotUtf8)
    );
    assert_eq!(
        TestStations::load(b"A,B,PRESET:9\n").err(),
        Some(StationError::InvalidPreset)
    );
    assert_eq!(TestStations::load(b"\xff,B,C\n").err(), Some(StationError::NameNotUtf8));
}

#[test]
fn load_two_field_records_are_stations() {
    let stations = TestStations::load(b"A,a-url\nB,b-url,x\nC,c-url,y\n").unwrap();
    assert_eq!(stations.number_stations(), 3);
    assert_eq!(stations.get_station(1).unwrap().unwrap().name(), "B");
    assert_eq!(stations.get_station(2).unwrap().unwrap().url(), "c-url");
}

#[test]
fn load_csv_example_assigns_preset_of_last_field() {
    let csv = b"Radio1,http://radio1.example/stream\nRadio2,http://radio2.example/stream,PRESET:0";
    let stations = Stations::<32, 256, 4>::load(csv).unwrap();
    assert_eq!(stations.number_stations(), 2);
    let preset = stations.preset(0).unwrap().unwrap();
    assert_eq!(preset.name(), "Radio2");
    assert_eq!(preset.url(), "http://radio2.example/stream");
    assert!(stations.preset(1).unwrap().is_none());
}

#[test]
fn load_ignores_middle_fields() {
    let stations = TestStations::load(b"A,a-url,PRESET:1,Pop\nB,b-url,\xff,PRESET:2\n").unwrap();
    assert_eq!(stations.number_stations(), 2);
    assert!(stations.preset(1).unwrap().is_none());
    assert_eq!(stations.preset(2).unwrap().unwrap().name(), "B");
}

#[test]
fn load_last_field_without_newline() {
    let stations = TestStations::load(b"A,a-url,Pop").unwrap();
    assert_eq!(stations.number_stations(), 1);
    let stations = TestStations::load(b"A,a-url").unwrap();
    assert_eq!(stations.get_station(0).unwrap().unwrap().url(), "a-url");
}

#[test]
fn apply_field_steps() {
    let mut stations = TestStations::new();
    let mut cursor = RecordCursor::new();
    stations.apply_field(&mut cursor, b"Name", false).unwrap();
    assert_eq!(cursor.field_index, 1);
    assert_eq!(cursor.name, b"Name".to_vec());
    stations.apply_field(&mut cursor, b"http://u", false).unwrap();
    assert_eq!(cursor.field_index, 2);
    assert_eq!(cursor.station_id, 0);
    stations.apply_field(&mut cursor, b"PRESET:1", false).unwrap();
    assert_eq!(cursor.field_index, 3);
    assert!(stations.preset(1).unwrap().is_none());
    stations.apply_field(&mut cursor, b" PRESET:3 ", true).unwrap();
    assert_eq!(cursor.field_index, 0);
    assert_eq!(stations.preset(3).unwrap().unwrap().name(), "Name");
}

#[test]
fn load_radio_stations_maps_errors() {
    assert!(load_radio_stations(b"A,http://a\n").is_ok());
    assert_eq!(
        load_radio_stations(b"\xff,http://a\n").err(),
        Some(RadioStationError::StationConstruction(StationError::NameNotUtf8))
    );
}

/// A station list in the layout of the radio's stations file: name, URL,
/// group and genre, one station per line.
const STATIONS_FILE: &str = "RPR1,http://streams.rpr1.de/rpr-kaiserslautern-128-mp3,Favorites,Pop
Absolute Oldies- Best of the 80s,http://streams.rpr1.de/rpr-80er-128-mp3,Favorites,Oldies
SWR3,https://liveradio.swr.de/sw331ch/swr3,Favorites,Pop
BBC Radio 1,http://stream.live.vc.bbcmedia.co.uk/bbc_radio_one,UK,Pop
BBC Radio 2,http://stream.live.vc.bbcmedia.co.uk/bbc_radio_two,UK,Pop
BBC Radio 3,http://stream.live.vc.bbcmedia.co.uk/bbc_radio_three,UK,Classical
BBC Radio 4,http://stream.live.vc.bbcmedia.co.uk/bbc_radio_fourfm,UK,Talk
";

#[test]
fn integration_test_test_load() {
    let data = STATIONS_FILE.as_bytes();

    let stations =
        Stations::<MAX_STATION_NAME_LEN, MAX_STATION_URL_LEN, NUMBER_PRESETS>::load(data).unwrap();
    let station = stations.get_station(5).unwrap().unwrap();

    // BBC Radio 3,http://stream.live.vc.bbcmedia.co.uk/bbc_radio_three,UK,Classical
    assert_eq!("BBC Radio 3", station.name());
    assert_eq!(
        "http://stream.live.vc.bbcmedia.co.uk/bbc_radio_three",
        station.url()
    );
}
