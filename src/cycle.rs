use vstd::prelude::*;
use crate::config::Config;
use crate::metrics::{GaugeValue, Metric};
use crate::registry::{
    apply_command,
    apply_commands,
    without_metric,
    Command,
    CommandModel,
    Exposition,
    Registry,
};
use crate::snapshot::{update_label, PollError, Snapshot};

verus! {

/// What one successful poll cycle writes, in order: the readings, the output
/// flag, the update information (cleared first, then set once), and the time
/// of the cycle.
pub open spec fn cycle_plan(s: Snapshot, now: u64) -> Seq<CommandModel> {
    let mac = seq![s.mac@];
    seq![
        CommandModel::Assign((Metric::Apower, mac), GaugeValue::Reading(s.apower)),
        CommandModel::Assign((Metric::Voltage, mac), GaugeValue::Reading(s.voltage)),
        CommandModel::Assign((Metric::Current, mac), GaugeValue::Reading(s.current)),
        CommandModel::Assign((Metric::AenergyTotal, mac), GaugeValue::Reading(s.aenergy_total)),
        CommandModel::Assign((Metric::Temperature, mac), GaugeValue::Reading(s.temperature)),
        CommandModel::Assign(
            (Metric::Output, mac),
            GaugeValue::Whole(if s.output { 1 } else { 0 }),
        ),
        CommandModel::Clear(Metric::AvailableUpdatesInfo),
        CommandModel::Assign(
            (Metric::AvailableUpdatesInfo, seq![s.mac@, update_label(s)]),
            GaugeValue::Whole(1),
        ),
        CommandModel::Assign((Metric::LastUpdated, mac), GaugeValue::Whole(now)),
    ]
}

/// The commands that publish what was read at a start time.
pub open spec fn start_plan(started_at: u64) -> Seq<CommandModel> {
    seq![CommandModel::Assign((Metric::ProcessStartTime, Seq::empty()), GaugeValue::Whole(started_at))]
}

pub open spec fn views_of(cs: Seq<Command>) -> Seq<CommandModel> {
    cs.map_values(|c: Command| c@)
}

fn mac_labels(mac: &String) -> (r: Vec<String>)
    ensures
        r.deep_view() == seq![mac@],
{
    let r = vec![mac.clone()];
    assert(r.deep_view() =~= seq![mac@]);
    r
}

/// The commands of one successful poll cycle on snapshot `s` at Unix time `now`.
pub fn cycle_commands(s: &Snapshot, now: u64) -> (r: Vec<Command>)
    ensures
        views_of(r@) == cycle_plan(*s, now),
{
    let version = match &s.stable_update {
        Some(v) => v.clone(),
        None => String::from_str("current"),
    };
    let update_labels = vec![s.mac.clone(), version];
    assert(update_labels.deep_view() =~= seq![s.mac@, update_label(*s)]);
    let output: u64 = if s.output {
        1
    } else {
        0
    };
    let r = vec![
        Command::Assign { metric: Metric::Apower, labels: mac_labels(&s.mac), value: GaugeValue::Reading(s.apower) },
        Command::Assign { metric: Metric::Voltage, labels: mac_labels(&s.mac), value: GaugeValue::Reading(s.voltage) },
        Command::Assign { metric: Metric::Current, labels: mac_labels(&s.mac), value: GaugeValue::Reading(s.current) },
        Command::Assign {
            metric: Metric::AenergyTotal,
            labels: mac_labels(&s.mac),
            value: GaugeValue::Reading(s.aenergy_total),
        },
        Command::Assign {
            metric: Metric::Temperature,
            labels: mac_labels(&s.mac),
            value: GaugeValue::Reading(s.temperature),
        },
        Command::Assign { metric: Metric::Output, labels: mac_labels(&s.mac), value: GaugeValue::Whole(output) },
        Command::Clear(Metric::AvailableUpdatesInfo),
        Command::Assign { metric: Metric::AvailableUpdatesInfo, labels: update_labels, value: GaugeValue::Whole(1) },
        Command::Assign { metric: Metric::LastUpdated, labels: mac_labels(&s.mac), value: GaugeValue::Whole(now) },
    ];
    assert(views_of(r@) =~= cycle_plan(*s, now));
    r
}

/// The exposition after one successful cycle, written out.
pub open spec fn after_cycle(e: Exposition, s: Snapshot, now: u64) -> Exposition {
    let mac = seq![s.mac@];
    let readings = e.insert((Metric::Apower, mac), GaugeValue::Reading(s.apower)).insert(
        (Metric::Voltage, mac),
        GaugeValue::Reading(s.voltage),
    ).insert((Metric::Current, mac), GaugeValue::Reading(s.current)).insert(
        (Metric::AenergyTotal, mac),
        GaugeValue::Reading(s.aenergy_total),
    ).insert((Metric::Temperature, mac), GaugeValue::Reading(s.temperature)).insert(
        (Metric::Output, mac),
        GaugeValue::Whole(if s.output { 1 } else { 0 }),
    );
    without_metric(readings, Metric::AvailableUpdatesInfo).insert(
        (Metric::AvailableUpdatesInfo, seq![s.mac@, update_label(s)]),
        GaugeValue::Whole(1),
    ).insert((Metric::LastUpdated, mac), GaugeValue::Whole(now))
}

proof fn lemma_apply_prefix(e: Exposition, p: Seq<CommandModel>, k: int)
    requires
        0 < k <= p.len(),
    ensures
        apply_commands(e, p.take(k)) == apply_command(apply_commands(e, p.take(k - 1)), p[k - 1]),
{
    assert(p.take(k).drop_last() =~= p.take(k - 1));
}

/// Carrying out the plan of a cycle gives `after_cycle`.
pub proof fn lemma_cycle_effect(e: Exposition, s: Snapshot, now: u64)
    ensures
        apply_commands(e, cycle_plan(s, now)) == after_cycle(e, s, now),
{
    let p = cycle_plan(s, now);
    assert(p.take(0) =~= Seq::<CommandModel>::empty());
    lemma_apply_prefix(e, p, 1);
    lemma_apply_prefix(e, p, 2);
    lemma_apply_prefix(e, p, 3);
    lemma_apply_prefix(e, p, 4);
    lemma_apply_prefix(e, p, 5);
    lemma_apply_prefix(e, p, 6);
    lemma_apply_prefix(e, p, 7);
    lemma_apply_prefix(e, p, 8);
    lemma_apply_prefix(e, p, 9);
    assert(p.take(9) =~= p);
}

/// After a successful cycle every per-device gauge holds the snapshot's field
/// unchanged under the device's MAC: the readings as reported, the output as
/// 1 or 0, and the time of the cycle as the last update.
pub proof fn lemma_cycle_publishes_snapshot(e: Exposition, s: Snapshot, now: u64)
    ensures
        ({
            let after = apply_commands(e, cycle_plan(s, now));
            let mac = seq![s.mac@];
            &&& after.contains_key((Metric::Apower, mac))
            &&& after[(Metric::Apower, mac)] == GaugeValue::Reading(s.apower)
            &&& after.contains_key((Metric::Voltage, mac))
            &&& after[(Metric::Voltage, mac)] == GaugeValue::Reading(s.voltage)
            &&& after.contains_key((Metric::Current, mac))
            &&& after[(Metric::Current, mac)] == GaugeValue::Reading(s.current)
            &&& after.contains_key((Metric::AenergyTotal, mac))
            &&& after[(Metric::AenergyTotal, mac)] == GaugeValue::Reading(s.aenergy_total)
            &&& after.contains_key((Metric::Temperature, mac))
            &&& after[(Metric::Temperature, mac)] == GaugeValue::Reading(s.temperature)
            &&& after.contains_key((Metric::Output, mac))
            &&& after[(Metric::Output, mac)] == GaugeValue::Whole(if s.output { 1 } else { 0 })
            &&& after.contains_key((Metric::LastUpdated, mac))
            &&& after[(Metric::LastUpdated, mac)] == GaugeValue::Whole(now)
        }),
{
    lemma_cycle_effect(e, s, now);
}

/// After a successful cycle the update information holds exactly one series:
/// the device's MAC with the pending version, or with `current`, set to 1.
/// Every series it held before under another label is gone.
pub proof fn lemma_cycle_single_update_series(e: Exposition, s: Snapshot, now: u64)
    ensures
        ({
            let after = apply_commands(e, cycle_plan(s, now));
            let key = (Metric::AvailableUpdatesInfo, seq![s.mac@, update_label(s)]);
            &&& after.contains_key(key)
            &&& after[key] == GaugeValue::Whole(1)
            &&& forall|k: (Metric, Seq<Seq<char>>)|
                #[trigger] after.contains_key(k) && k.0 == Metric::AvailableUpdatesInfo ==> k == key
        }),
{
    lemma_cycle_effect(e, s, now);
}

/// A successful cycle at a time later than the last update's moves the last
/// update forward to that time.
pub proof fn lemma_last_updated_advances(e: Exposition, s: Snapshot, now: u64, prev: u64)
    requires
        e.contains_key((Metric::LastUpdated, seq![s.mac@])),
        e[(Metric::LastUpdated, seq![s.mac@])] == GaugeValue::Whole(prev),
        prev < now,
    ensures
        ({
            let after = apply_commands(e, cycle_plan(s, now));
            let key = (Metric::LastUpdated, seq![s.mac@]);
            &&& after[key] == GaugeValue::Whole(now)
            &&& after[key]->Whole_0 > e[key]->Whole_0
        }),
{
    lemma_cycle_effect(e, s, now);
}

/// The exporter's state between polls: the gauges it publishes and where and
/// how often it polls.
pub struct Exporter {
    registry: Registry,
    status_url: String,
    period_secs: u64,
}

impl Exporter {
    pub closed spec fn wf(&self) -> bool {
        self.registry.wf()
    }

    /// What the exporter currently publishes.
    pub closed spec fn exposition(&self) -> Exposition {
        self.registry@
    }

    pub closed spec fn spec_status_url(&self) -> Seq<char> {
        self.status_url@
    }

    pub closed spec fn spec_period_secs(&self) -> u64 {
        self.period_secs
    }

    /// An exporter for `config` that has published only its start time; the
    /// commands that publish it are returned beside it.
    pub fn start(config: Config, started_at: u64) -> (r: (Exporter, Vec<Command>))
        ensures
            r.0.wf(),
            r.0.exposition() == apply_commands(Exposition::empty(), start_plan(started_at)),
            views_of(r.1@) == start_plan(started_at),
            r.0.spec_status_url() == config.status_url@,
            r.0.spec_period_secs() == config.period_secs,
    {
        let mut registry = Registry::new();
        let labels: Vec<String> = Vec::new();
        assert(labels.deep_view() =~= Seq::<Seq<char>>::empty());
        let cmds = vec![
            Command::Assign {
                metric: Metric::ProcessStartTime,
                labels,
                value: GaugeValue::Whole(started_at),
            },
        ];
        assert(views_of(cmds@) =~= start_plan(started_at));
        registry.apply_all(&cmds);
        (Exporter { registry, status_url: config.status_url, period_secs: config.period_secs }, cmds)
    }

    /// Takes the outcome of one poll made at Unix time `now`. A snapshot is
    /// published as `cycle_plan` says; a failure leaves every gauge as it was.
    /// Returns the commands that were carried out.
    pub fn record(&mut self, outcome: &Result<Snapshot, PollError>, now: u64) -> (r: Vec<Command>)
        requires
            old(self).wf(),
        ensures
            final(self).wf(),
            final(self).spec_status_url() == old(self).spec_status_url(),
            final(self).spec_period_secs() == old(self).spec_period_secs(),
            views_of(r@) == (match outcome {
                Ok(s) => cycle_plan(*s, now),
                Err(_) => Seq::<CommandModel>::empty(),
            }),
            final(self).exposition() == apply_commands(old(self).exposition(), views_of(r@)),
            outcome is Err ==> final(self).exposition() == old(self).exposition(),
    {
        match outcome {
            Ok(s) => {
                let cmds = cycle_commands(s, now);
                self.registry.apply_all(&cmds);
                cmds
            },
            Err(_) => {
                let cmds: Vec<Command> = Vec::new();
                assert(views_of(cmds@) =~= Seq::<CommandModel>::empty());
                cmds
            },
        }
    }

    /// The gauges the exporter publishes.
    pub fn registry(&self) -> (r: &Registry)
        ensures
            r.wf() == self.wf(),
            r@ == self.exposition(),
    {
        &self.registry
    }

    pub fn status_url(&self) -> (r: &str)
        ensures
            r@ == self.spec_status_url(),
    {
        self.status_url.as_str()
    }

    pub fn period_secs(&self) -> (r: u64)
        ensures
            r == self.spec_period_secs(),
    {
        self.period_secs
    }
}

} // verus!
