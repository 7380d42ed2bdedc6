use vstd::prelude::*;

verus! {

#[verifier::external_type_specification]
#[verifier::external_body]
pub struct ExJsonError(serde_json::Error);

/// The `u64` that serde_json reads from a whole text, if it reads one.
pub uninterp spec fn json_u64_of(s: Seq<char>) -> Option<u64>;

pub open spec fn is_digit(c: char) -> bool {
    '0' <= c && c <= '9'
}

/// A decimal numeral without sign, leading zero or surrounding text.
pub open spec fn is_plain_decimal(s: Seq<char>) -> bool {
    &&& s.len() > 0
    &&& forall|i: int| 0 <= i < s.len() ==> is_digit(#[trigger] s[i])
    &&& s[0] == '0' ==> s.len() == 1
}

pub open spec fn decimal_value(s: Seq<char>) -> nat
    decreases s.len(),
{
    if s.len() == 0 {
        0
    } else {
        (decimal_value(s.drop_last()) * 10 + (s.last() as u32 - '0' as u32)) as nat
    }
}

/// Relies on `serde_json::from_str::<u64>`: its result depends on the text
/// alone, and a plain decimal numeral that fits in a `u64` reads as its value
/// (`Deserializer::parse_integer` keeps such a numeral as a `u64`, and
/// `Deserializer::end` accepts the end of the text after it).
#[verifier::external_body]
fn read_json_u64(text: &str) -> (r: Result<u64, serde_json::Error>)
    ensures
        r is Ok <==> json_u64_of(text@) is Some,
        r is Ok ==> json_u64_of(text@) == Some(r->Ok_0),
        is_plain_decimal(text@) && decimal_value(text@) <= u64::MAX ==> (r is Ok && r->Ok_0
            == decimal_value(text@)),
{
    serde_json::from_str::<u64>(text)
}

/// The start-up settings of the exporter.
#[derive(Clone, Debug)]
pub struct Config {
    /// The address the scrape endpoint binds to.
    pub bind_address: String,
    /// Seconds between two polls.
    pub period_secs: u64,
    /// The device's status endpoint.
    pub status_url: String,
}

/// Why the exporter cannot start.
#[derive(Clone, Copy, Debug, PartialEq, Eq, Structural)]
pub enum ConfigError {
    /// No device base URL was given.
    MissingDeviceUrl,
    /// The poll period is not a whole number of seconds.
    InvalidPeriod,
}

pub open spec fn port_text(port: Option<String>) -> Seq<char> {
    match port {
        Some(p) => p@,
        None => "9185"@,
    }
}

pub open spec fn period_text(period: Option<String>) -> Seq<char> {
    match period {
        Some(p) => p@,
        None => "60"@,
    }
}

pub open spec fn bind_address_of(port: Seq<char>) -> Seq<char> {
    "0.0.0.0:"@ + port
}

pub open spec fn status_url_of(device_url: Seq<char>) -> Seq<char> {
    device_url + "/rpc/Shelly.GetStatus"@
}

/// The settings for a port (the default when absent), a poll period already
/// read as seconds, and a device base URL.
pub fn config_from(port: Option<String>, period_secs: u64, device_url: String) -> (r: Config)
    ensures
        r.bind_address@ == bind_address_of(port_text(port)),
        r.period_secs == period_secs,
        r.status_url@ == status_url_of(device_url@),
{
    let port_str: &str = match &port {
        Some(p) => p.as_str(),
        None => "9185",
    };
    let bind_address = String::from_str("0.0.0.0:").concat(port_str);
    let status_url = device_url.concat("/rpc/Shelly.GetStatus");
    Config { bind_address, period_secs, status_url }
}

/// Reads the settings from the optional values of the port, the poll period
/// and the device base URL. The port defaults to 9185 and the period to 60.
pub fn configure(port: Option<String>, period: Option<String>, device_url: Option<String>) -> (r:
    Result<Config, ConfigError>)
    ensures
        device_url is None ==> r == Err::<Config, ConfigError>(ConfigError::MissingDeviceUrl),
        device_url is Some && json_u64_of(period_text(period)) is None ==> r == Err::<
            Config,
            ConfigError,
        >(ConfigError::InvalidPeriod),
        device_url is Some && json_u64_of(period_text(period)) is Some ==> r is Ok,
        device_url is Some && is_plain_decimal(period_text(period)) && decimal_value(
            period_text(period),
        ) <= u64::MAX ==> (r is Ok && r->Ok_0.period_secs == decimal_value(period_text(period))),
        r is Ok ==> ({
            let c = r->Ok_0;
            &&& c.bind_address@ == bind_address_of(port_text(port))
            &&& Some(c.period_secs) == json_u64_of(period_text(period))
            &&& c.status_url@ == status_url_of(device_url->Some_0@)
        }),
{
    let device_url = match device_url {
        Some(u) => u,
        None => return Err(ConfigError::MissingDeviceUrl),
    };
    let period_str: &str = match &period {
        Some(p) => p.as_str(),
        None => "60",
    };
    match read_json_u64(period_str) {
        Ok(secs) => Ok(config_from(port, secs, device_url)),
        Err(_) => Err(ConfigError::InvalidPeriod),
    }
}

} // verus!
