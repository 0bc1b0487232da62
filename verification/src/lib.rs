//! CEF is an extensible, text-based format designed to support multiple device types by offerring the
//! most relevant information. Message syntaxes are reduced to work with ESM normalization.
//! Specifically, CEF defines a syntax for log records comprised of a standard header and a variable
//! extension, formatted as key-value pairs.
//!
//! ```text
//! Sep 19 08:26:10 host CEF:0|Security|threatmanager|1.0|100|worm successfully stopped|10|src=10.0.0.1 dst=2.1.2.2 spt=1232
//! ```
//!
//! # Quickstart
//!
//! ```rust
//! use serde_cef::{from_str, to_string, CefSeverity, CefValue};
//!
//! let line = "CEF:0|Fake|Product|0.1|0|Nothing|6|a=subtest b=695217";
//! let record = from_str(line).unwrap();
//! assert_eq!(record.severity, CefSeverity::U8(6));
//! assert_eq!(record.extensions[1].value, CefValue::U64(695217));
//! assert_eq!(to_string(&record).unwrap(), line);
//! ```
//!
//! What reading and writing do is stated over sequences of characters: see
//! `de::parse_line` and `ser::line_of`. The module `laws` proves what holds
//! of the two together.

pub use de::{from_str, parse_extensions};
pub use record::{CefRecord, CefSeverity, CefSignatureId, Extension};
pub use result::{CefError, CefResult};
pub use ser::{to_string, value2str};
pub use utils::{
    extract_hostname_from_headers, extract_ts_from_headers, first_reading, now, parse_ts,
    try_detect_type, unix_strtime_to_unix, PreciseTimestamp, Timestamp,
};
pub use value::CefValue;

pub mod de;
pub mod laws;
pub mod number;
pub mod record;
pub mod result;
pub mod ser;
pub mod text;
pub mod utils;
pub mod value;
