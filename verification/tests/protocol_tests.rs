use rusty_radio::protocol::{
    command_frame_bytes, config_request, number_stations_from_reply, preset_request,
    station_name_from_reply, station_request, Command, RadioControlProtocolError,
    ResponseReader, UartHandlerError,
};

/// Reads a reply from `bytes` as the UART handler does, a byte at a time,
/// until the reader is done; returns the outcome and the bytes it took.
fn receive(bytes: &[u8]) -> (Option<Result<Vec<String>, UartHandlerError>>, usize) {
    let mut reader = ResponseReader::new();
    for (i, &b) in bytes.iter().enumerate() {
        assert!(reader.accepts(b), "reply does not fit the reader");
        if let Some(result) = reader.feed(b) {
            return (Some(result), i + 1);
        }
    }
    (None, bytes.len())
}

fn receive_response(bytes: &[u8]) -> Result<Vec<String>, UartHandlerError> {
    receive(bytes).0.expect("reply incomplete")
}

#[test]
fn test_set_station() {
    let tx_message = "STA:5;";
    let rx_message = "ACK:SWR3;";
    assert_eq!(station_request(5), tx_message.as_bytes().to_vec());
    let station_name = station_name_from_reply(receive_response(rx_message.as_bytes()))
        .expect("Error in setting station");
    assert_eq!("SWR3", station_name);
}

#[test]
fn test_set_station_with_error() {
    let tx_message = "STA:5;";
    let rx_message = "ERR:001;";
    assert_eq!(station_request(5), tx_message.as_bytes().to_vec());
    let result = station_name_from_reply(receive_response(rx_message.as_bytes()));
    assert_eq!(
        Err(RadioControlProtocolError::Uart(
            UartHandlerError::ClientCannotHandleCommand
        )),
        result
    );
}

#[test]
fn test_set_preset() {
    let tx_message = "PRE:2;";
    let rx_message = "ACK:RPR1;";
    assert_eq!(preset_request(2), tx_message.as_bytes().to_vec());
    let station_name = station_name_from_reply(receive_response(rx_message.as_bytes()))
        .expect("Error in setting preset");
    assert_eq!("RPR1", station_name);
}

#[test]
fn test_query_config() {
    let tx_message = "CFG:;";
    let rx_message = "ACK:42;";
    assert_eq!(config_request(), tx_message.as_bytes().to_vec());
    let number_stations = number_stations_from_reply(receive_response(rx_message.as_bytes()))
        .expect("Error in setting config");
    assert_eq!(number_stations, 42);
}

#[test]
fn test_query_config_with_parameter_error() {
    let tx_message = "CFG:;";
    let rx_message = "ACK:;";
    assert_eq!(config_request(), tx_message.as_bytes().to_vec());
    let r = number_stations_from_reply(receive_response(rx_message.as_bytes()));
    assert_eq!(
        r,
        Err(RadioControlProtocolError::IncorrectNumberParametersReturned)
    );
}

#[test]
fn test_query_config_with_parse_error() {
    let tx_message = "CFG:;";
    let rx_message = "ACK:XXX;";
    assert_eq!(config_request(), tx_message.as_bytes().to_vec());
    let r = number_stations_from_reply(receive_response(rx_message.as_bytes()));
    assert_eq!(r, Err(RadioControlProtocolError::ParseParameter));
}

#[test]
fn test_send_command() {
    let tx_message = "STA:5;";
    let parameters = vec!["5"];
    let r = command_frame_bytes(Command::Station, &parameters);
    assert_eq!(r, tx_message.as_bytes().to_vec());
}

#[test]
fn test_receive_response_with_single_parameter() {
    let rx_message = "ACK:SWR3;";
    let r = receive_response(rx_message.as_bytes());
    assert!(r.is_ok());
    let parameters = r.unwrap();
    assert_eq!(1, parameters.len());
    assert_eq!("SWR3", parameters[0].as_str());
}

#[test]
fn test_receive_response_with_many_parameters() {
    let rx_message = "ACK:value1,value2,value3;";
    let r = receive_response(rx_message.as_bytes());
    assert!(r.is_ok());
    let parameters = r.unwrap();
    assert_eq!(3, parameters.len());
    assert_eq!("value1", parameters[0].as_str());
    assert_eq!("value2", parameters[1].as_str());
    assert_eq!("value3", parameters[2].as_str());
}

#[test]
fn test_receive_response_with_no_parameters() {
    let rx_message = "ACK:;";
    let r = receive_response(rx_message.as_bytes());
    assert!(r.is_ok());
    assert_eq!(0, r.unwrap().len());
}

#[test]
fn test_receive_response_with_error() {
    let rx_message = "ERR:001;";
    let r = receive_response(rx_message.as_bytes());
    assert!(r.is_err());
    if let Err(error_code) = r {
        assert_eq!(UartHandlerError::ClientCannotHandleCommand, error_code)
    };
}

#[test]
fn test_receive_response_with_unknown_error() {
    let rx_message = "ERR:999;";
    let r = receive_response(rx_message.as_bytes());
    assert!(r.is_err());
    if let Err(error_code) = r {
        assert_eq!(UartHandlerError::ClientSentUnknownErrorCode, error_code)
    };
}

#[test]
fn test_receive_ill_formed_response() {
    let rx_message = "ACK;";
    let r = receive_response(rx_message.as_bytes());
    assert!(r.is_err());
    if let Err(error_code) = r {
        assert_eq!(UartHandlerError::IllFormedReponse, error_code)
    };
}

#[test]
fn test_command_conversion_to_str() {
    let cmd = Command::Station;
    let cmd_str: String = cmd.stringify();
    assert_eq!("STA", cmd_str);
}

#[test]
fn command_texts() {
    assert_eq!(Command::Preset.stringify(), "PRE");
    assert_eq!(Command::Config.stringify(), "CFG");
    assert_eq!(Command::Undefined.stringify(), "UND");
}

#[test]
fn frame_with_several_parameters() {
    let r = command_frame_bytes(Command::Undefined, &["a", "", "bc"]);
    assert_eq!(r, b"UND:a,,bc;".to_vec());
}

#[test]
fn numbers_in_decimal() {
    assert_eq!(station_request(0), b"STA:0;".to_vec());
    assert_eq!(station_request(255), b"STA:255;".to_vec());
    assert_eq!(preset_request(10), b"PRE:10;".to_vec());
}

#[test]
fn reader_stops_at_first_semicolon() {
    let (r, taken) = receive(b"ACK:a;b;");
    assert_eq!(taken, 6);
    assert_eq!(r, Some(Ok(vec![String::from("a")])));
}

#[test]
fn empty_pieces_before_the_last_are_kept() {
    assert_eq!(
        receive_response(b"ACK:a,,b,;"),
        Ok(vec![String::from("a"), String::new(), String::from("b")])
    );
}

#[test]
fn bytes_become_characters_of_the_same_number() {
    let r = receive_response(b"ACK:\xe9t\xe9;").unwrap();
    assert_eq!(r[0], "\u{e9}t\u{e9}");
}

#[test]
fn reader_limits() {
    let mut reader = ResponseReader::new();
    for &b in b"ACK:a,b,c,d,e," {
        assert!(reader.accepts(b));
        assert!(reader.feed(b).is_none());
    }
    assert!(reader.accepts(b';'));
    assert!(reader.accepts(b'f'));
    assert!(reader.feed(b'f').is_none());
    assert!(!reader.accepts(b','));
    assert!(!reader.accepts(b';'));

    let mut reader = ResponseReader::new();
    for &b in b"ERR:123" {
        assert!(reader.accepts(b));
        assert!(reader.feed(b).is_none());
    }
    assert!(!reader.accepts(b'4'));

    let mut reader = ResponseReader::new();
    for &b in b"ACK:" {
        reader.feed(b);
    }
    for _ in 0..40 {
        assert!(reader.accepts(b'x'));
        reader.feed(b'x');
    }
    assert!(!reader.accepts(b'x'));

    let mut reader = ResponseReader::new();
    reader.feed(0xc3);
    reader.feed(0xa9);
    assert!(!reader.accepts(0xe9));
}

#[test]
fn uart_errors_are_wrapped() {
    assert_eq!(
        station_name_from_reply(Err(UartHandlerError::IllFormedReponse)),
        Err(RadioControlProtocolError::Uart(UartHandlerError::IllFormedReponse))
    );
    assert_eq!(
        number_stations_from_reply(Err(UartHandlerError::ClientSentUnknownErrorCode)),
        Err(RadioControlProtocolError::Uart(UartHandlerError::ClientSentUnknownErrorCode))
    );
    assert_eq!(station_name_from_reply(Ok(vec![])), Err(RadioControlProtocolError::StationNameNotReceived));
}
