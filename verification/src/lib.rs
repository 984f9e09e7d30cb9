//! Verified core logic of an embedded internet radio: playlist and HTTP
//! parsing, the station list, the UART control protocol between the two
//! processors, the I/O-expander register logic and the front-panel decoding.

pub mod devices;
pub mod front_panel;
pub mod http_request;
pub mod http_response;
pub mod m3u;
pub mod mcp23s17;
pub mod protocol;
pub mod text;
pub mod tuner;
pub mod stations;
pub mod stream;
