//! A record: its header fields and its extensions.

use vstd::prelude::*;
use vstd::std_specs::convert::{FromSpecImpl, TryFromSpecImpl};
use crate::number::{decimal_text, parse_unsigned, push_decimal, text_to_u64, text_to_u8};
use crate::result::{CefError, CefResult, ErrorModel};
use crate::text::{chars_of, is_text};
use crate::utils::{
    date_part, dated, dated_header, extract_hostname_from_headers, hostname_of, native_reading,
    native_to_unix, reading_model, PreciseTimestamp,
};
use crate::value::{CefValue, ValueModel};

verus! {

/// Severity is a string or integer and reflects the importance of the event.
///
/// The valid string values are:
/// * `Unknown`
/// * `Low`
/// * `Medium`
/// * `High`
/// * `Very-High`
///
/// The valid integer values are:
/// * `0-3`  = `Low`
/// * `4-6`  = `Medium`
/// * `7-8`  = `High`
/// * `9-10` = `Very-High`
#[derive(Debug, PartialEq)]
pub enum CefSeverity {
    String(String),
    U8(u8),
}

/// A `CefSeverity` with its text as a sequence of characters.
pub enum SeverityModel {
    String(Seq<char>),
    U8(u8),
}

impl View for CefSeverity {
    type V = SeverityModel;

    open spec fn view(&self) -> SeverityModel {
        match self {
            CefSeverity::String(text) => SeverityModel::String(text@),
            CefSeverity::U8(level) => SeverityModel::U8(*level),
        }
    }
}

impl Clone for CefSeverity {
    fn clone(&self) -> (r: Self)
        ensures
            r@ == self@,
    {
        match self {
            CefSeverity::String(text) => CefSeverity::String(text.clone()),
            CefSeverity::U8(level) => CefSeverity::U8(*level),
        }
    }
}

/// Whether `text` is one of the five names of a severity.
pub open spec fn is_severity_name(text: Seq<char>) -> bool {
    text == "Unknown"@ || text == "Low"@ || text == "Medium"@ || text == "High"@ || text
        == "Very-High"@
}

/// What is said of a severity number above ten.
pub open spec fn severity_range_message() -> Seq<char> {
    "Invalid Cef Level, MUST be between 0 to 10"@
}

/// What is said of a severity that is neither a number nor one of the names.
pub open spec fn severity_name_message() -> Seq<char> {
    "Invalid Cef Level, MUST be between Unknown, Low, Medium, High or Very-High"@
}

/// The severity that the text `raw` stands for: a number from 0 to 10, or
/// one of the five names; else the reason why it is none.
pub open spec fn severity_of(raw: Seq<char>) -> Result<SeverityModel, ErrorModel> {
    match text_to_u8(raw) {
        Some(level) => if level > 10 {
            Err(ErrorModel::ValidationError(severity_range_message()))
        } else {
            Ok(SeverityModel::U8(level))
        },
        None => if is_severity_name(raw) {
            Ok(SeverityModel::String(raw))
        } else {
            Err(ErrorModel::ValidationError(severity_name_message()))
        },
    }
}

/// Whether a severity is one that the format allows: a number up to ten, or
/// one of the five names.
pub open spec fn is_valid_severity(severity: SeverityModel) -> bool {
    match severity {
        SeverityModel::U8(level) => level <= 10,
        SeverityModel::String(text) => is_severity_name(text),
    }
}

/// The number of a severity: the lowest of the range that a name stands for,
/// and 0 for a text that is no name.
pub open spec fn severity_level(severity: SeverityModel) -> u8 {
    match severity {
        SeverityModel::String(text) => if text == "Unknown"@ {
            0
        } else if text == "Low"@ {
            1
        } else if text == "Medium"@ {
            4
        } else if text == "High"@ {
            7
        } else if text == "Very-High"@ {
            9
        } else {
            0
        },
        SeverityModel::U8(level) => level,
    }
}

/// How a severity is written in a line: a number in decimal, a name as it is.
pub open spec fn severity_text(severity: SeverityModel) -> Seq<char> {
    match severity {
        SeverityModel::String(text) => text,
        SeverityModel::U8(level) => decimal_text(level as nat),
    }
}

impl<'a> TryFrom<&'a str> for CefSeverity {
    type Error = CefError;

    /// Reads a severity: a number from 0 to 10, or one of the five names.
    fn try_from(raw: &'a str) -> (r: Result<CefSeverity, CefError>)
        ensures
            match r {
                Ok(severity) => severity_of(raw@) == Ok::<SeverityModel, ErrorModel>(severity@)
                    && is_valid_severity(severity@),
                Err(err) => severity_of(raw@) == Err::<SeverityModel, ErrorModel>(err@),
            },
    {
        let chars = chars_of(raw);
        match parse_unsigned(&chars, 255) {
            Some(data) => {
                if data > 10 {
                    Err(
                        CefError::ValidationError(
                            String::from_str("Invalid Cef Level, MUST be between 0 to 10"),
                        ),
                    )
                } else {
                    Ok(CefSeverity::U8(data as u8))
                }
            },
            None => {
                if is_text(&chars, "Unknown") || is_text(&chars, "Low") || is_text(
                    &chars,
                    "Medium",
                ) || is_text(&chars, "High") || is_text(&chars, "Very-High") {
                    Ok(CefSeverity::String(String::from_str(raw)))
                } else {
                    Err(
                        CefError::ValidationError(
                            String::from_str(
                                "Invalid Cef Level, MUST be between Unknown, Low, Medium, High or Very-High",
                            ),
                        ),
                    )
                }
            },
        }
    }
}

/// The severity that is read holds a new string, which no specification
/// function can name: what it holds is said by the `ensures` of `try_from`.
impl<'a> TryFromSpecImpl<&'a str> for CefSeverity {
    open spec fn obeys_try_from_spec() -> bool {
        false
    }

    open spec fn try_from_spec(raw: &'a str) -> Result<CefSeverity, CefError> {
        arbitrary()
    }
}

impl From<CefSeverity> for u8 {
    /// The number of a severity.
    fn from(severity: CefSeverity) -> (level: u8) {
        match severity {
            CefSeverity::String(desc) => {
                let chars = chars_of(desc.as_str());
                if is_text(&chars, "Unknown") {
                    0
                } else if is_text(&chars, "Low") {
                    1
                } else if is_text(&chars, "Medium") {
                    4
                } else if is_text(&chars, "High") {
                    7
                } else if is_text(&chars, "Very-High") {
                    9
                } else {
                    0
                }
            },
            CefSeverity::U8(level) => level,
        }
    }
}

impl FromSpecImpl<CefSeverity> for u8 {
    open spec fn obeys_from_spec() -> bool {
        true
    }

    open spec fn from_spec(severity: CefSeverity) -> u8 {
        severity_level(severity@)
    }
}

impl CefSeverity {
    /// The severity as it is written in a line.
    pub fn to_string(&self) -> (text: String)
        ensures
            text@ == severity_text(self@),
    {
        match self {
            CefSeverity::String(data) => data.clone(),
            CefSeverity::U8(data) => {
                let mut text = String::new();
                push_decimal(&mut text, *data as u64);
                text
            },
        }
    }
}

/// Device Event Class ID is a unique identifier per event-type.
///
/// This can be a string or an integer.
/// Device Event Class ID identifies the type of event reported. In the intrusion detection system (IDS)
/// world, each signature or rule that detects certain activity has a unique Device Event Class ID
/// assigned. This is a requirement for other types of devices as well, and helps correlation engines
/// process the events. Also known as Signature ID.
#[derive(Debug, PartialEq)]
pub enum CefSignatureId {
    String(String),
    U64(u64),
}

/// A `CefSignatureId` with its text as a sequence of characters.
pub enum SignatureIdModel {
    String(Seq<char>),
    U64(u64),
}

impl View for CefSignatureId {
    type V = SignatureIdModel;

    open spec fn view(&self) -> SignatureIdModel {
        match self {
            CefSignatureId::String(text) => SignatureIdModel::String(text@),
            CefSignatureId::U64(id) => SignatureIdModel::U64(*id),
        }
    }
}

impl Clone for CefSignatureId {
    fn clone(&self) -> (r: Self)
        ensures
            r@ == self@,
    {
        match self {
            CefSignatureId::String(text) => CefSignatureId::String(text.clone()),
            CefSignatureId::U64(id) => CefSignatureId::U64(*id),
        }
    }
}

/// The signature id that the text `raw` stands for: a number where it reads
/// as a `u64`, else the text itself.
pub open spec fn signature_id_of(raw: Seq<char>) -> SignatureIdModel {
    match text_to_u64(raw) {
        Some(id) => SignatureIdModel::U64(id),
        None => SignatureIdModel::String(raw),
    }
}

/// How a signature id is written in a line: a number in decimal, a text as
/// it is.
pub open spec fn signature_id_text(id: SignatureIdModel) -> Seq<char> {
    match id {
        SignatureIdModel::String(text) => text,
        SignatureIdModel::U64(id) => decimal_text(id as nat),
    }
}

impl<'a> From<&'a str> for CefSignatureId {
    /// Reads a signature id.
    fn from(raw: &'a str) -> (id: CefSignatureId)
        ensures
            id@ == signature_id_of(raw@),
    {
        let chars = chars_of(raw);
        match parse_unsigned(&chars, u64::MAX) {
            Some(data) => CefSignatureId::U64(data),
            None => CefSignatureId::String(String::from_str(raw)),
        }
    }
}

/// The signature id that is read may hold a new string, which no
/// specification function can name: what it holds is said by the `ensures`
/// of `from`.
impl<'a> FromSpecImpl<&'a str> for CefSignatureId {
    open spec fn obeys_from_spec() -> bool {
        false
    }

    open spec fn from_spec(raw: &'a str) -> CefSignatureId {
        arbitrary()
    }
}

impl CefSignatureId {
    /// The signature id as it is written in a line.
    pub fn to_string(&self) -> (text: String)
        ensures
            text@ == signature_id_text(self@),
    {
        match self {
            CefSignatureId::String(data) => data.clone(),
            CefSignatureId::U64(data) => {
                let mut text = String::new();
                push_decimal(&mut text, *data);
                text
            },
        }
    }
}

/// One extension of a record: a key and its typed value.
#[derive(Debug, PartialEq)]
pub struct Extension {
    pub key: String,
    pub value: CefValue,
}

impl View for Extension {
    type V = (Seq<char>, ValueModel);

    open spec fn view(&self) -> (Seq<char>, ValueModel) {
        (self.key@, self.value@)
    }
}

impl Clone for Extension {
    fn clone(&self) -> (r: Self)
        ensures
            r@ == self@,
    {
        Extension { key: self.key.clone(), value: self.value.clone() }
    }
}

/// The keys and values that a list of extensions holds.
pub open spec fn extensions_model(extensions: Seq<Extension>) -> Seq<(Seq<char>, ValueModel)> {
    Seq::new(extensions.len(), |i: int| extensions[i]@)
}

/// One record of the CEF format: the fields of its header and its extensions.
#[derive(Debug, PartialEq)]
pub struct CefRecord<T: ?Sized> {
    /// Optional Syslog headers
    pub headers: Option<String>,
    /// An integer which identifies the version of the CEF format. The current CEF version is `0`.
    pub version: u8,
    /// Identify the device vendor.
    pub device_vendor: String,
    /// Identify the device name.
    pub device_product: String,
    /// Identify the device version.
    pub device_version: String,
    /// Signature ID also known as _Device Event Class ID_ identifies the type of event reported.
    pub signature_id: CefSignatureId,
    /// Representing a human-readable and understandable description of the event.
    pub signature: String,
    /// Reflects the importance of the event.
    ///
    /// The valid string values are `Unknown`, `Low`, `Medium`, `High`, and `Very-High`.
    /// The valid integer values are `0-3`=`Low`, `4-6`=`Medium`,`7-8`=`High`, and `9-10`=`Very-High`.
    pub severity: CefSeverity,
    /// Contains a collection of key-value pairs. The keys are part of a predefined set.
    pub extensions: T,
}

impl<T: Clone> Clone for CefRecord<T> {
    /// A record with the same header, and a clone of the extensions.
    fn clone(&self) -> (r: Self)
        ensures
            r.headers == self.headers,
            r.version == self.version,
            r.device_vendor == self.device_vendor,
            r.device_product == self.device_product,
            r.device_version == self.device_version,
            r.signature_id@ == self.signature_id@,
            r.signature == self.signature,
            r.severity@ == self.severity@,
    {
        CefRecord {
            headers: match &self.headers {
                Some(text) => Some(text.clone()),
                None => None,
            },
            version: self.version,
            device_vendor: self.device_vendor.clone(),
            device_product: self.device_product.clone(),
            device_version: self.device_version.clone(),
            signature_id: self.signature_id.clone(),
            signature: self.signature.clone(),
            severity: self.severity.clone(),
            extensions: self.extensions.clone(),
        }
    }
}

/// A record with each text as a sequence of characters.
pub struct RecordModel {
    pub headers: Option<Seq<char>>,
    pub version: u8,
    pub device_vendor: Seq<char>,
    pub device_product: Seq<char>,
    pub device_version: Seq<char>,
    pub signature_id: SignatureIdModel,
    pub signature: Seq<char>,
    pub severity: SeverityModel,
    pub extensions: Seq<(Seq<char>, ValueModel)>,
}

impl View for CefRecord<Vec<Extension>> {
    type V = RecordModel;

    open spec fn view(&self) -> RecordModel {
        RecordModel {
            headers: match self.headers {
                Some(text) => Some(text@),
                None => None,
            },
            version: self.version,
            device_vendor: self.device_vendor@,
            device_product: self.device_product@,
            device_version: self.device_version@,
            signature_id: self.signature_id@,
            signature: self.signature@,
            severity: self.severity@,
            extensions: extensions_model(self.extensions@),
        }
    }
}

/// The date in the Syslog header `headers`, read in the native format with
/// the year `year` before it.
pub open spec fn header_date(headers: Seq<char>, year: int) -> Result<
    PreciseTimestamp,
    ErrorModel,
> {
    native_reading(dated(year, date_part(headers)))
}

impl<T: ?Sized> CefRecord<T> {
    /// Reads the date of a Syslog header, with `year` for the year that
    /// Syslog leaves out.
    pub fn extract_ts_from_headers(headers: &str, year: i32) -> (r: CefResult<PreciseTimestamp>)
        ensures
            reading_model(r) == header_date(headers@, year as int),
    {
        let data = dated_header(headers, year);
        native_to_unix(data.as_str())
    }

    /// Extract hostname from Syslog headers, given as a whole line or as
    /// the prefix of one.
    pub fn extract_hostname_from_headers(headers: &str) -> (r: CefResult<String>)
        ensures
            match r {
                Ok(host) => hostname_of(headers@) == Some(host@),
                Err(err) => hostname_of(headers@) is None && err@ == ErrorModel::NoneError,
            },
    {
        extract_hostname_from_headers(headers)
    }
}

} // verus!
