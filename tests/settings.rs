use shellyplug_exporter::config::{config_from, configure, ConfigError};
use shellyplug_exporter::metrics::Metric;

fn some(s: &str) -> Option<String> {
    Some(s.to_string())
}

#[test]
fn missing_device_url_is_refused() {
    assert_eq!(configure(None, None, None).unwrap_err(), ConfigError::MissingDeviceUrl);
    assert_eq!(configure(some("9000"), some("abc"), None).unwrap_err(), ConfigError::MissingDeviceUrl);
}

#[test]
fn defaults_apply() {
    let c = configure(None, None, some("http://192.168.1.20")).unwrap();
    assert_eq!(c.bind_address, "0.0.0.0:9185");
    assert_eq!(c.period_secs, 60);
    assert_eq!(c.status_url, "http://192.168.1.20/rpc/Shelly.GetStatus");
}

#[test]
fn given_values_apply() {
    let c = configure(some("9300"), some("15"), some("http://plug")).unwrap();
    assert_eq!(c.bind_address, "0.0.0.0:9300");
    assert_eq!(c.period_secs, 15);
    assert_eq!(c.status_url, "http://plug/rpc/Shelly.GetStatus");
}

#[test]
fn period_is_read_as_json_integer() {
    let c = configure(None, some(" 30 "), some("http://plug")).unwrap();
    assert_eq!(c.period_secs, 30);
    let c = configure(None, some("0"), some("http://plug")).unwrap();
    assert_eq!(c.period_secs, 0);
    let c = configure(None, some("18446744073709551615"), some("http://plug")).unwrap();
    assert_eq!(c.period_secs, u64::MAX);
}

#[test]
fn bad_period_is_refused() {
    for bad in ["abc", "", "030", "-5", "1.5", "1e3", "18446744073709551616", "60s"] {
        assert_eq!(
            configure(None, some(bad), some("http://plug")).unwrap_err(),
            ConfigError::InvalidPeriod,
            "period {:?}",
            bad
        );
    }
}

#[test]
fn settings_from_parts() {
    let c = config_from(None, 42, "http://x".to_string());
    assert_eq!(c.bind_address, "0.0.0.0:9185");
    assert_eq!(c.period_secs, 42);
    assert_eq!(c.status_url, "http://x/rpc/Shelly.GetStatus");
}

#[test]
fn metric_schema() {
    assert_eq!(Metric::all().len(), 9);
    assert_eq!(Metric::Apower.name(), "shellyplug_apower");
    assert_eq!(Metric::AvailableUpdatesInfo.name(), "shellyplug_available_updates_info");
    assert_eq!(Metric::ProcessStartTime.name(), "process_start_time_seconds");
    assert_eq!(Metric::AvailableUpdatesInfo.label_names(), vec!["mac", "version"]);
    assert_eq!(Metric::Temperature.label_names(), vec!["mac"]);
    assert!(Metric::ProcessStartTime.label_names().is_empty());
    assert_eq!(Metric::Output.help(), "true if output channel is currently on, false otherwise");
}
