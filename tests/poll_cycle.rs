use shellyplug_exporter::config::{configure, Config};
use shellyplug_exporter::cycle::{cycle_commands, Exporter};
use shellyplug_exporter::metrics::{GaugeValue, Metric};
use shellyplug_exporter::registry::{Command, Registry};
use shellyplug_exporter::snapshot::{check_status, PollError, Snapshot};

fn labels(items: &[&str]) -> Vec<String> {
    items.iter().map(|s| s.to_string()).collect()
}

fn plug(update: Option<&str>) -> Snapshot {
    Snapshot {
        mac: "AABBCC".to_string(),
        output: true,
        apower: 12.5f64.to_bits(),
        voltage: 230.1f64.to_bits(),
        current: 0.054f64.to_bits(),
        aenergy_total: 1042.3f64.to_bits(),
        temperature: 41.2f64.to_bits(),
        stable_update: update.map(|v| v.to_string()),
    }
}

fn exporter(started_at: u64) -> Exporter {
    let config = Config {
        bind_address: "0.0.0.0:9185".to_string(),
        period_secs: 60,
        status_url: "http://plug/rpc/Shelly.GetStatus".to_string(),
    };
    let (exporter, cmds) = Exporter::start(config, started_at);
    assert_eq!(cmds.len(), 1);
    exporter
}

fn value(e: &Exporter, metric: Metric, l: &[&str]) -> Option<GaugeValue> {
    e.registry().value(metric, &labels(l))
}

#[test]
fn snapshot_without_update_is_published() {
    let mut e = exporter(1_700_000_000);
    let cmds = e.record(&Ok(plug(None)), 1_700_000_060);
    assert_eq!(cmds.len(), 9);
    assert_eq!(value(&e, Metric::Output, &["AABBCC"]), Some(GaugeValue::Whole(1)));
    assert_eq!(value(&e, Metric::Apower, &["AABBCC"]), Some(GaugeValue::Reading(12.5f64.to_bits())));
    assert_eq!(
        value(&e, Metric::AvailableUpdatesInfo, &["AABBCC", "current"]),
        Some(GaugeValue::Whole(1))
    );
}

#[test]
fn every_reading_is_published_unchanged() {
    let mut e = exporter(10);
    e.record(&Ok(plug(None)), 20);
    assert_eq!(value(&e, Metric::Voltage, &["AABBCC"]), Some(GaugeValue::Reading(230.1f64.to_bits())));
    assert_eq!(value(&e, Metric::Current, &["AABBCC"]), Some(GaugeValue::Reading(0.054f64.to_bits())));
    assert_eq!(
        value(&e, Metric::AenergyTotal, &["AABBCC"]),
        Some(GaugeValue::Reading(1042.3f64.to_bits()))
    );
    assert_eq!(value(&e, Metric::Temperature, &["AABBCC"]), Some(GaugeValue::Reading(41.2f64.to_bits())));
    assert_eq!(value(&e, Metric::LastUpdated, &["AABBCC"]), Some(GaugeValue::Whole(20)));
    assert_eq!(value(&e, Metric::ProcessStartTime, &[]), Some(GaugeValue::Whole(10)));
    // start time, six per-device gauges, update information, last update
    assert_eq!(e.registry().len(), 9);
}

#[test]
fn output_off_is_published_as_zero() {
    let mut e = exporter(10);
    let mut s = plug(None);
    s.output = false;
    e.record(&Ok(s), 20);
    assert_eq!(value(&e, Metric::Output, &["AABBCC"]), Some(GaugeValue::Whole(0)));
}

#[test]
fn pending_update_replaces_current_label() {
    let mut e = exporter(10);
    e.record(&Ok(plug(None)), 20);
    e.record(&Ok(plug(Some("1.2.3"))), 80);
    assert_eq!(
        value(&e, Metric::AvailableUpdatesInfo, &["AABBCC", "1.2.3"]),
        Some(GaugeValue::Whole(1))
    );
    assert_eq!(value(&e, Metric::AvailableUpdatesInfo, &["AABBCC", "current"]), None);
    assert_eq!(e.registry().len(), 9);
}

#[test]
fn returning_to_current_drops_version_label() {
    let mut e = exporter(10);
    e.record(&Ok(plug(Some("1.2.3"))), 20);
    e.record(&Ok(plug(None)), 80);
    assert_eq!(value(&e, Metric::AvailableUpdatesInfo, &["AABBCC", "1.2.3"]), None);
    assert_eq!(
        value(&e, Metric::AvailableUpdatesInfo, &["AABBCC", "current"]),
        Some(GaugeValue::Whole(1))
    );
}

#[test]
fn http_error_changes_nothing() {
    let mut e = exporter(10);
    e.record(&Ok(plug(None)), 20);
    let failure = check_status(500).unwrap_err();
    assert!(matches!(failure, PollError::Status(500)));
    let cmds = e.record(&Err(failure), 80);
    assert!(cmds.is_empty());
    assert_eq!(value(&e, Metric::LastUpdated, &["AABBCC"]), Some(GaugeValue::Whole(20)));
    assert_eq!(value(&e, Metric::Apower, &["AABBCC"]), Some(GaugeValue::Reading(12.5f64.to_bits())));
    assert_eq!(e.registry().len(), 9);
}

#[test]
fn failure_before_any_success_publishes_nothing_new() {
    let mut e = exporter(10);
    let cmds = e.record(&Err(PollError::Decode("missing field `sys`".to_string())), 20);
    assert!(cmds.is_empty());
    assert_eq!(e.registry().len(), 1);
    e.record(&Err(PollError::Transport("connection refused".to_string())), 30);
    assert_eq!(value(&e, Metric::LastUpdated, &["AABBCC"]), None);
}

#[test]
fn last_updated_moves_only_on_success() {
    let mut e = exporter(10);
    e.record(&Ok(plug(None)), 100);
    e.record(&Err(PollError::Status(503)), 160);
    assert_eq!(value(&e, Metric::LastUpdated, &["AABBCC"]), Some(GaugeValue::Whole(100)));
    e.record(&Ok(plug(None)), 220);
    assert_eq!(value(&e, Metric::LastUpdated, &["AABBCC"]), Some(GaugeValue::Whole(220)));
}

#[test]
fn cycle_clears_update_information_before_setting_it() {
    let cmds = cycle_commands(&plug(Some("1.2.3")), 5);
    assert_eq!(cmds.len(), 9);
    assert!(matches!(cmds[6], Command::Clear(Metric::AvailableUpdatesInfo)));
    match &cmds[7] {
        Command::Assign { metric, labels, value } => {
            assert_eq!(*metric, Metric::AvailableUpdatesInfo);
            assert_eq!(labels, &vec!["AABBCC".to_string(), "1.2.3".to_string()]);
            assert_eq!(*value, GaugeValue::Whole(1));
        }
        Command::Clear(_) => panic!("expected an assignment"),
    }
    match &cmds[8] {
        Command::Assign { metric, value, .. } => {
            assert_eq!(*metric, Metric::LastUpdated);
            assert_eq!(*value, GaugeValue::Whole(5));
        }
        Command::Clear(_) => panic!("expected an assignment"),
    }
}

#[test]
fn exporter_keeps_its_settings() {
    let e = exporter(10);
    assert_eq!(e.status_url(), "http://plug/rpc/Shelly.GetStatus");
    assert_eq!(e.period_secs(), 60);
}

#[test]
fn status_codes() {
    assert!(check_status(200).is_ok());
    assert!(check_status(204).is_ok());
    assert!(check_status(299).is_ok());
    assert!(matches!(check_status(199), Err(PollError::Status(199))));
    assert!(matches!(check_status(300), Err(PollError::Status(300))));
    assert!(matches!(check_status(500), Err(PollError::Status(500))));
}

#[test]
fn registry_set_overwrites_and_clear_removes() {
    let mut r = Registry::new();
    r.set(Metric::Apower, labels(&["A"]), GaugeValue::Whole(1));
    r.set(Metric::Apower, labels(&["A"]), GaugeValue::Whole(2));
    r.set(Metric::AvailableUpdatesInfo, labels(&["A", "current"]), GaugeValue::Whole(1));
    r.set(Metric::AvailableUpdatesInfo, labels(&["B", "1.0"]), GaugeValue::Whole(1));
    assert_eq!(r.len(), 3);
    assert_eq!(r.value(Metric::Apower, &labels(&["A"])), Some(GaugeValue::Whole(2)));
    r.clear(Metric::AvailableUpdatesInfo);
    assert_eq!(r.len(), 1);
    assert_eq!(r.value(Metric::AvailableUpdatesInfo, &labels(&["A", "current"])), None);
    assert_eq!(r.value(Metric::Apower, &labels(&["A"])), Some(GaugeValue::Whole(2)));
}

#[test]
fn registry_apply_all_runs_commands_in_order() {
    let mut r = Registry::new();
    let cmds = vec![
        Command::Assign { metric: Metric::Voltage, labels: labels(&["A"]), value: GaugeValue::Whole(7) },
        Command::Clear(Metric::Voltage),
        Command::Assign { metric: Metric::Current, labels: labels(&["A"]), value: GaugeValue::Whole(3) },
    ];
    r.apply_all(&cmds);
    assert_eq!(r.len(), 1);
    assert_eq!(r.value(Metric::Voltage, &labels(&["A"])), None);
    assert_eq!(r.value(Metric::Current, &labels(&["A"])), Some(GaugeValue::Whole(3)));
}
