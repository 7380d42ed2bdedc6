use vstd::prelude::*;

verus! {

/// The instruments that the exporter publishes.
#[derive(Clone, Copy, Debug, PartialEq, Eq, Structural)]
pub enum Metric {
    Apower,
    Voltage,
    Current,
    AenergyTotal,
    Temperature,
    Output,
    AvailableUpdatesInfo,
    LastUpdated,
    ProcessStartTime,
}

/// A value held by a gauge.
///
/// Device readings are carried verbatim as the bit pattern of the IEEE-754
/// double the device reported; every other value the exporter writes is a
/// whole number (a flag, a marker or a Unix time in seconds).
#[derive(Clone, Copy, Debug, PartialEq, Eq, Structural)]
pub enum GaugeValue {
    Reading(u64),
    Whole(u64),
}

impl Metric {
    /// The name under which the instrument is exposed.
    pub open spec fn spec_name(self) -> Seq<char> {
        match self {
            Metric::Apower => "shellyplug_apower"@,
            Metric::Voltage => "shellyplug_voltage"@,
            Metric::Current => "shellyplug_current"@,
            Metric::AenergyTotal => "shellyplug_aenergy_total"@,
            Metric::Temperature => "shellyplug_temperature"@,
            Metric::Output => "shellyplug_output"@,
            Metric::AvailableUpdatesInfo => "shellyplug_available_updates_info"@,
            Metric::LastUpdated => "shellyplug_last_updated"@,
            Metric::ProcessStartTime => "process_start_time_seconds"@,
        }
    }

    /// The label names of the instrument, in order.
    pub open spec fn spec_label_names(self) -> Seq<Seq<char>> {
        match self {
            Metric::ProcessStartTime => Seq::empty(),
            Metric::AvailableUpdatesInfo => seq!["mac"@, "version"@],
            _ => seq!["mac"@],
        }
    }

    pub fn name(self) -> (r: &'static str)
        ensures
            r@ == self.spec_name(),
    {
        match self {
            Metric::Apower => "shellyplug_apower",
            Metric::Voltage => "shellyplug_voltage",
            Metric::Current => "shellyplug_current",
            Metric::AenergyTotal => "shellyplug_aenergy_total",
            Metric::Temperature => "shellyplug_temperature",
            Metric::Output => "shellyplug_output",
            Metric::AvailableUpdatesInfo => "shellyplug_available_updates_info",
            Metric::LastUpdated => "shellyplug_last_updated",
            Metric::ProcessStartTime => "process_start_time_seconds",
        }
    }

    pub fn label_names(self) -> (r: Vec<&'static str>)
        ensures
            r@.len() == self.spec_label_names().len(),
            forall|i: int| 0 <= i < r@.len() ==> #[trigger] r@[i]@ == self.spec_label_names()[i],
    {
        match self {
            Metric::ProcessStartTime => Vec::new(),
            Metric::AvailableUpdatesInfo => vec!["mac", "version"],
            _ => vec!["mac"],
        }
    }

    /// The help text shown beside the instrument.
    pub fn help(self) -> &'static str {
        match self {
            Metric::Apower => "Instantaneous power in W",
            Metric::Voltage => "Voltage in V",
            Metric::Current => "Current in A",
            Metric::AenergyTotal => "Total energy so far in Wh",
            Metric::Temperature => "Temperature of Shellyplug in °C",
            Metric::Output => "true if output channel is currently on, false otherwise",
            Metric::AvailableUpdatesInfo => "Information about available updates",
            Metric::LastUpdated => "Last update of Shellyplug",
            Metric::ProcessStartTime => "Start time of the process",
        }
    }

    /// Every instrument, each once.
    pub fn all() -> (r: Vec<Metric>)
        ensures
            r@ == seq![
                Metric::Apower,
                Metric::Voltage,
                Metric::Current,
                Metric::AenergyTotal,
                Metric::Temperature,
                Metric::Output,
                Metric::AvailableUpdatesInfo,
                Metric::LastUpdated,
                Metric::ProcessStartTime,
            ],
    {
        let r = vec![
            Metric::Apower,
            Metric::Voltage,
            Metric::Current,
            Metric::AenergyTotal,
            Metric::Temperature,
            Metric::Output,
            Metric::AvailableUpdatesInfo,
            Metric::LastUpdated,
            Metric::ProcessStartTime,
        ];
        assert(r@ =~= seq![
            Metric::Apower,
            Metric::Voltage,
            Metric::Current,
            Metric::AenergyTotal,
            Metric::Temperature,
            Metric::Output,
            Metric::AvailableUpdatesInfo,
            Metric::LastUpdated,
            Metric::ProcessStartTime,
        ]);
        r
    }
}

} // verus!
