use vstd::prelude::*;

verus! {

/// The fields of one device status reply that the exporter publishes.
///
/// The readings are the bit patterns of the IEEE-754 doubles the device
/// reported; they are published unchanged.
#[derive(Clone, Debug)]
pub struct Snapshot {
    pub mac: String,
    pub output: bool,
    pub apower: u64,
    pub voltage: u64,
    pub current: u64,
    pub aenergy_total: u64,
    pub temperature: u64,
    /// The pending stable firmware version, present iff an update is available.
    pub stable_update: Option<String>,
}

/// Why a poll cycle produced no snapshot.
#[derive(Clone, Debug)]
pub enum PollError {
    /// The request could not be made or its reply could not be read.
    Transport(String),
    /// The device answered with a status outside 200..=299.
    Status(u16),
    /// The reply lacked a required field or held one of the wrong type.
    Decode(String),
}

/// The version label under which update availability is published:
/// the pending version, or `current` when the device is up to date.
pub open spec fn update_label(s: Snapshot) -> Seq<char> {
    match s.stable_update {
        Some(v) => v@,
        None => "current"@,
    }
}

/// Accepts a reply status of the 2xx range and turns any other into an error.
pub fn check_status(code: u16) -> (r: Result<(), PollError>)
    ensures
        r is Ok <==> 200 <= code <= 299,
        r is Err ==> (r->Err_0 matches PollError::Status(c) && c == code),
{
    if 200 <= code && code <= 299 {
        Ok(())
    } else {
        Err(PollError::Status(code))
    }
}

} // verus!
