use vstd::prelude::*;
use crate::metrics::{GaugeValue, Metric};

verus! {

/// A series is identified by its instrument and its label values, in order.
pub type SeriesKey = (Metric, Seq<Seq<char>>);

/// What the registry exposes: the last value set for each series.
pub type Exposition = Map<SeriesKey, GaugeValue>;

/// One change to the registry, as handed to whatever serves the gauges.
#[derive(Clone, Debug)]
pub enum Command {
    /// Remove every series of the instrument.
    Clear(Metric),
    /// Set one series, creating it if it is absent.
    Assign { metric: Metric, labels: Vec<String>, value: GaugeValue },
}

/// The meaning of a `Command`.
pub enum CommandModel {
    Clear(Metric),
    Assign(SeriesKey, GaugeValue),
}

impl View for Command {
    type V = CommandModel;

    open spec fn view(&self) -> CommandModel {
        match self {
            Command::Clear(m) => CommandModel::Clear(*m),
            Command::Assign { metric, labels, value } => CommandModel::Assign(
                (*metric, labels.deep_view()),
                *value,
            ),
        }
    }
}

/// The exposition without any series of `m`.
pub open spec fn without_metric(e: Exposition, m: Metric) -> Exposition {
    Map::new(|k: SeriesKey| e.contains_key(k) && k.0 != m, |k: SeriesKey| e[k])
}

pub open spec fn apply_command(e: Exposition, c: CommandModel) -> Exposition {
    match c {
        CommandModel::Clear(m) => without_metric(e, m),
        CommandModel::Assign(k, v) => e.insert(k, v),
    }
}

/// The exposition after applying `cs` in order.
pub open spec fn apply_commands(e: Exposition, cs: Seq<CommandModel>) -> Exposition
    decreases cs.len(),
{
    if cs.len() == 0 {
        e
    } else {
        apply_command(apply_commands(e, cs.drop_last()), cs.last())
    }
}

/// One exposed series.
#[derive(Clone, Debug)]
pub struct Series {
    pub metric: Metric,
    pub labels: Vec<String>,
    pub value: GaugeValue,
}

impl Series {
    pub open spec fn key(&self) -> SeriesKey {
        (self.metric, self.labels.deep_view())
    }
}

/// The set of gauges of the exporter, each series holding its last value.
pub struct Registry {
    series: Vec<Series>,
}

pub open spec fn keys_unique(s: Seq<Series>) -> bool {
    forall|i: int, j: int|
        0 <= i < s.len() && 0 <= j < s.len() && i != j ==> #[trigger] s[i].key() != #[trigger] s[j].key()
}

pub open spec fn holds_key(s: Seq<Series>, k: SeriesKey) -> bool {
    exists|i: int| 0 <= i < s.len() && #[trigger] s[i].key() == k
}

pub open spec fn exposition_of(s: Seq<Series>) -> Exposition {
    Map::new(
        |k: SeriesKey| holds_key(s, k),
        |k: SeriesKey| s[choose|i: int| 0 <= i < s.len() && #[trigger] s[i].key() == k].value,
    )
}

proof fn lemma_value_at(s: Seq<Series>, i: int)
    requires
        keys_unique(s),
        0 <= i < s.len(),
    ensures
        exposition_of(s).contains_key(s[i].key()),
        exposition_of(s)[s[i].key()] == s[i].value,
{
    let k = s[i].key();
    assert(holds_key(s, k));
    let j = choose|j: int| 0 <= j < s.len() && #[trigger] s[j].key() == k;
    assert(j == i);
}

/// Each series of `kept` is a series of `before` whose metric is not `m`.
#[verifier::opaque]
spec fn drawn_from(kept: Seq<Series>, before: Seq<Series>, m: Metric) -> bool {
    forall|x: int| #![trigger kept[x]] 0 <= x < kept.len() ==> exists|j: int| #![trigger before[j]]
        0 <= j < before.len() && kept[x] == before[j] && before[j].metric != m
}

/// No series of `kept` has the key of a series of `before[..hi]`.
#[verifier::opaque]
spec fn apart(kept: Seq<Series>, before: Seq<Series>, hi: int) -> bool {
    forall|x: int, j: int| 0 <= x < kept.len() && 0 <= j < hi ==> #[trigger] kept[x].key() != #[trigger] before[j].key()
}

/// Each series of `before[lo..]` whose metric is not `m` is in `kept`.
#[verifier::opaque]
spec fn covers(kept: Seq<Series>, before: Seq<Series>, lo: int, m: Metric) -> bool {
    forall|j: int| #![trigger before[j]] lo <= j < before.len() && before[j].metric != m
        ==> exists|x: int| #![trigger kept[x]] 0 <= x < kept.len() && kept[x] == before[j]
}

proof fn lemma_skip_step(before: Seq<Series>, kept: Seq<Series>, n: int, m: Metric)
    requires
        0 <= n < before.len(),
        before[n].metric == m,
        apart(kept, before, n + 1),
        covers(kept, before, n + 1, m),
    ensures
        apart(kept, before, n),
        covers(kept, before, n, m),
{
    reveal(apart);
    reveal(covers);
    assert forall|j: int| #![trigger before[j]] n <= j < before.len() && before[j].metric != m
        implies exists|x: int| #![trigger kept[x]] 0 <= x < kept.len() && kept[x] == before[j] by {
        assert(j != n);
    }
}

proof fn lemma_take_step(before: Seq<Series>, kept: Seq<Series>, n: int, m: Metric)
    requires
        0 <= n < before.len(),
        before[n].metric != m,
        keys_unique(before),
        keys_unique(kept),
        drawn_from(kept, before, m),
        apart(kept, before, n + 1),
        covers(kept, before, n + 1, m),
    ensures
        keys_unique(kept.push(before[n])),
        drawn_from(kept.push(before[n]), before, m),
        apart(kept.push(before[n]), before, n),
        covers(kept.push(before[n]), before, n, m),
{
    reveal(drawn_from);
    reveal(apart);
    reveal(covers);
    let kk = kept.push(before[n]);
    assert forall|a: int, b: int|
        0 <= a < kk.len() && 0 <= b < kk.len() && a != b implies
        #[trigger] kk[a].key() != #[trigger] kk[b].key() by {
        if a == kept.len() {
            assert(kk[b] == kept[b]);
            assert(kept[b].key() != before[n].key());
        } else if b == kept.len() {
            assert(kk[a] == kept[a]);
            assert(kept[a].key() != before[n].key());
        } else {
            assert(kk[a] == kept[a] && kk[b] == kept[b]);
        }
    }
    assert forall|x: int| #![trigger kk[x]] 0 <= x < kk.len() implies exists|j: int| #![trigger before[j]]
        0 <= j < before.len() && kk[x] == before[j] && before[j].metric != m by {
        if x < kept.len() {
            assert(kk[x] == kept[x]);
        } else {
            assert(kk[x] == before[n]);
        }
    }
    assert forall|x: int, j: int| 0 <= x < kk.len() && 0 <= j < n implies #[trigger] kk[x].key() != #[trigger] before[j].key() by {
        if x < kept.len() {
            assert(kk[x] == kept[x]);
        } else {
            assert(kk[x] == before[n]);
        }
    }
    assert forall|j: int| #![trigger before[j]] n <= j < before.len() && before[j].metric != m
        implies exists|x: int| #![trigger kk[x]] 0 <= x < kk.len() && kk[x] == before[j] by {
        if j == n {
            assert(kk[kept.len() as int] == before[j]);
        } else {
            let x = choose|x: int| #![trigger kept[x]] 0 <= x < kept.len() && kept[x] == before[j];
            assert(kk[x] == kept[x]);
        }
    }
}

proof fn lemma_kept_keys(before: Seq<Series>, kept: Seq<Series>, m: Metric)
    requires
        drawn_from(kept, before, m),
        covers(kept, before, 0, m),
    ensures
        forall|k: SeriesKey| #[trigger] holds_key(kept, k) == (holds_key(before, k) && k.0 != m),
{
    reveal(drawn_from);
    reveal(covers);
    assert forall|k: SeriesKey| #[trigger] holds_key(kept, k) == (holds_key(before, k) && k.0 != m) by {
        if holds_key(kept, k) {
            let x = choose|x: int| 0 <= x < kept.len() && #[trigger] kept[x].key() == k;
            let j = choose|j: int| #![trigger before[j]] 0 <= j < before.len() && kept[x] == before[j] && before[j].metric != m;
            assert(before[j].key() == k);
        }
        if holds_key(before, k) && k.0 != m {
            let j = choose|j: int| 0 <= j < before.len() && #[trigger] before[j].key() == k;
            let x = choose|x: int| #![trigger kept[x]] 0 <= x < kept.len() && kept[x] == before[j];
            assert(kept[x].key() == k);
        }
    }
}

proof fn lemma_kept_exposition(before: Seq<Series>, kept: Seq<Series>, m: Metric)
    requires
        keys_unique(before),
        keys_unique(kept),
        drawn_from(kept, before, m),
        covers(kept, before, 0, m),
    ensures
        exposition_of(kept) == without_metric(exposition_of(before), m),
{
    lemma_kept_keys(before, kept, m);
    let target = without_metric(exposition_of(before), m);
    assert forall|k: SeriesKey| #[trigger] exposition_of(kept).contains_key(k)
        implies exposition_of(kept)[k] == target[k] by {
        reveal(drawn_from);
        let x = choose|x: int| 0 <= x < kept.len() && #[trigger] kept[x].key() == k;
        let j = choose|j: int| #![trigger before[j]] 0 <= j < before.len() && kept[x] == before[j] && before[j].metric != m;
        lemma_value_at(kept, x);
        lemma_value_at(before, j);
    }
    assert(exposition_of(kept) =~= target);
}

fn labels_equal(a: &Vec<String>, b: &Vec<String>) -> (r: bool)
    ensures
        r == (a.deep_view() == b.deep_view()),
{
    if a.len() != b.len() {
        assert(a.deep_view().len() != b.deep_view().len());
        return false;
    }
    let mut i: usize = 0;
    while i < a.len()
        invariant
            a.len() == b.len(),
            i <= a.len(),
            forall|j: int| 0 <= j < i ==> a@[j]@ == b@[j]@,
        decreases a.len() - i,
    {
        if a[i] != b[i] {
            assert(a.deep_view()[i as int] != b.deep_view()[i as int]);
            return false;
        }
        i = i + 1;
    }
    assert(a.deep_view() =~= b.deep_view());
    true
}

impl View for Registry {
    type V = Exposition;

    closed spec fn view(&self) -> Exposition {
        exposition_of(self.series@)
    }
}

impl Registry {
    /// Distinct series have distinct keys.
    pub closed spec fn wf(&self) -> bool {
        keys_unique(self.series@)
    }

    /// A registry that exposes nothing.
    pub fn new() -> (r: Registry)
        ensures
            r.wf(),
            r@ == Exposition::empty(),
    {
        let r = Registry { series: Vec::new() };
        assert(r@ =~= Exposition::empty());
        r
    }

    fn find(&self, metric: Metric, labels: &Vec<String>) -> (r: Option<usize>)
        requires
            self.wf(),
        ensures
            match r {
                Some(i) => i < self.series@.len() && self.series@[i as int].key() == (
                    metric,
                    labels.deep_view(),
                ),
                None => !holds_key(self.series@, (metric, labels.deep_view())),
            },
    {
        let mut i: usize = 0;
        while i < self.series.len()
            invariant
                i <= self.series@.len(),
                forall|j: int|
                    0 <= j < i ==> #[trigger] self.series@[j].key() != (metric, labels.deep_view()),
            decreases self.series@.len() - i,
        {
            if self.series[i].metric == metric && labels_equal(&self.series[i].labels, labels) {
                return Some(i);
            }
            i = i + 1;
        }
        None
    }

    /// The value of one series, if it is exposed.
    pub fn value(&self, metric: Metric, labels: &Vec<String>) -> (r: Option<GaugeValue>)
        requires
            self.wf(),
        ensures
            r == (if self@.contains_key((metric, labels.deep_view())) {
                Some(self@[(metric, labels.deep_view())])
            } else {
                None::<GaugeValue>
            }),
    {
        match self.find(metric, labels) {
            Some(i) => {
                proof {
                    lemma_value_at(self.series@, i as int);
                }
                Some(self.series[i].value)
            },
            None => None,
        }
    }

    /// The number of exposed series.
    pub fn len(&self) -> (r: usize)
        requires
            self.wf(),
        ensures
            r == self@.len(),
    {
        proof {
            self.lemma_len();
        }
        self.series.len()
    }

    proof fn lemma_len(&self)
        requires
            self.wf(),
        ensures
            self@.len() == self.series@.len(),
            self@.dom().finite(),
    {
        let s = self.series@;
        let keys = Seq::new(s.len(), |i: int| s[i].key());
        assert(keys.no_duplicates()) by {
            assert forall|i: int, j: int| 0 <= i < keys.len() && 0 <= j < keys.len() && i != j
                implies keys[i] != keys[j] by {
                assert(s[i].key() != s[j].key());
            }
        }
        keys.unique_seq_to_set();
        assert forall|k: SeriesKey| #[trigger] self@.dom().contains(k) == keys.to_set().contains(k) by {
            if holds_key(s, k) {
                let i = choose|i: int| 0 <= i < s.len() && #[trigger] s[i].key() == k;
                assert(keys[i] == k);
            }
            if keys.contains(k) {
                let i = choose|i: int| 0 <= i < keys.len() && keys[i] == k;
                assert(s[i].key() == k);
            }
        }
        assert(self@.dom() =~= keys.to_set());
    }

    /// Sets the series of `metric` with `labels` to `value`.
    pub fn set(&mut self, metric: Metric, labels: Vec<String>, value: GaugeValue)
        requires
            old(self).wf(),
        ensures
            final(self).wf(),
            final(self)@ == old(self)@.insert((metric, labels.deep_view()), value),
    {
        let ghost k = (metric, labels.deep_view());
        let ghost before = self.series@;
        match self.find(metric, &labels) {
            Some(i) => {
                self.series.set(i, Series { metric, labels, value });
                proof {
                    let after = self.series@;
                    assert(keys_unique(after)) by {
                        assert forall|a: int, b: int|
                            0 <= a < after.len() && 0 <= b < after.len() && a != b implies
                            #[trigger] after[a].key() != #[trigger] after[b].key() by {
                            if a != i && b != i {
                                assert(after[a] == before[a] && after[b] == before[b]);
                            } else if a == i {
                                assert(after[b] == before[b]);
                                assert(before[i as int].key() == k);
                            } else {
                                assert(after[a] == before[a]);
                                assert(before[i as int].key() == k);
                            }
                        }
                    }
                    assert forall|k2: SeriesKey| #[trigger] holds_key(after, k2) == holds_key(before, k2) by {
                        if holds_key(after, k2) {
                            let j = choose|j: int| 0 <= j < after.len() && #[trigger] after[j].key() == k2;
                            if j == i {
                                assert(before[j].key() == k2);
                            } else {
                                assert(before[j] == after[j]);
                            }
                        }
                        if holds_key(before, k2) {
                            let j = choose|j: int| 0 <= j < before.len() && #[trigger] before[j].key() == k2;
                            if j == i {
                                assert(after[j].key() == k2);
                            } else {
                                assert(before[j] == after[j]);
                            }
                        }
                    }
                    assert forall|k2: SeriesKey| #[trigger] exposition_of(after).contains_key(k2)
                        implies exposition_of(after)[k2] == exposition_of(before).insert(k, value)[k2] by {
                        let j = choose|j: int| 0 <= j < after.len() && #[trigger] after[j].key() == k2;
                        lemma_value_at(after, j);
                        if j != i {
                            assert(before[j] == after[j]);
                            lemma_value_at(before, j);
                        }
                    }
                    assert(exposition_of(after) =~= exposition_of(before).insert(k, value));
                }
            },
            None => {
                self.series.push(Series { metric, labels, value });
                proof {
                    let after = self.series@;
                    let n = before.len() as int;
                    assert(keys_unique(after)) by {
                        assert forall|a: int, b: int|
                            0 <= a < after.len() && 0 <= b < after.len() && a != b implies
                            #[trigger] after[a].key() != #[trigger] after[b].key() by {
                            if a == n {
                                assert(after[b] == before[b]);
                            } else if b == n {
                                assert(after[a] == before[a]);
                            } else {
                                assert(after[a] == before[a] && after[b] == before[b]);
                            }
                        }
                    }
                    assert forall|k2: SeriesKey| #[trigger] holds_key(after, k2) == (holds_key(before, k2) || k2 == k) by {
                        if holds_key(after, k2) {
                            let j = choose|j: int| 0 <= j < after.len() && #[trigger] after[j].key() == k2;
                            if j < n {
                                assert(before[j] == after[j]);
                            }
                        }
                        if holds_key(before, k2) {
                            let j = choose|j: int| 0 <= j < before.len() && #[trigger] before[j].key() == k2;
                            assert(before[j] == after[j]);
                        }
                        if k2 == k {
                            assert(after[n].key() == k);
                        }
                    }
                    assert forall|k2: SeriesKey| #[trigger] exposition_of(after).contains_key(k2)
                        implies exposition_of(after)[k2] == exposition_of(before).insert(k, value)[k2] by {
                        let j = choose|j: int| 0 <= j < after.len() && #[trigger] after[j].key() == k2;
                        lemma_value_at(after, j);
                        if j != n {
                            assert(before[j] == after[j]);
                            lemma_value_at(before, j);
                        }
                    }
                    assert(exposition_of(after) =~= exposition_of(before).insert(k, value));
                }
            },
        }
    }

    /// Removes every series of `metric`.
    pub fn clear(&mut self, metric: Metric)
        requires
            old(self).wf(),
        ensures
            final(self).wf(),
            final(self)@ == without_metric(old(self)@, metric),
    {
        let ghost before = self.series@;
        let mut rest: Vec<Series> = Vec::new();
        std::mem::swap(&mut rest, &mut self.series);
        assert(rest@ =~= before.subrange(0, rest@.len() as int));
        let mut kept: Vec<Series> = Vec::new();
        proof {
            reveal(drawn_from);
            reveal(apart);
            reveal(covers);
        }
        while rest.len() > 0
            invariant
                keys_unique(before),
                rest@.len() <= before.len(),
                rest@ == before.subrange(0, rest@.len() as int),
                keys_unique(kept@),
                drawn_from(kept@, before, metric),
                apart(kept@, before, rest@.len() as int),
                covers(kept@, before, rest@.len() as int, metric),
            decreases rest@.len(),
        {
            let ghost n = rest@.len() - 1;
            let s = rest.pop().unwrap();
            assert(s == before[n]);
            assert(rest@ =~= before.subrange(0, rest@.len() as int));
            if s.metric != metric {
                proof {
                    lemma_take_step(before, kept@, n, metric);
                }
                kept.push(s);
            } else {
                proof {
                    lemma_skip_step(before, kept@, n, metric);
                }
            }
            assert(rest@ =~= before.subrange(0, rest@.len() as int));
        }
        self.series = kept;
        proof {
            lemma_kept_exposition(before, self.series@, metric);
        }
    }

    /// Carries out one command.
    pub fn apply(&mut self, cmd: &Command)
        requires
            old(self).wf(),
        ensures
            final(self).wf(),
            final(self)@ == apply_command(old(self)@, cmd@),
    {
        match cmd {
            Command::Clear(m) => self.clear(*m),
            Command::Assign { metric, labels, value } => {
                let copy = copy_labels(labels);
                self.set(*metric, copy, *value);
            },
        }
    }

    /// Carries out the commands in order.
    pub fn apply_all(&mut self, cmds: &Vec<Command>)
        requires
            old(self).wf(),
        ensures
            final(self).wf(),
            final(self)@ == apply_commands(old(self)@, cmds@.map_values(|c: Command| c@)),
    {
        let ghost start = self@;
        let ghost plan = cmds@.map_values(|c: Command| c@);
        let mut i: usize = 0;
        while i < cmds.len()
            invariant
                self.wf(),
                i <= cmds@.len(),
                plan == cmds@.map_values(|c: Command| c@),
                self@ == apply_commands(start, plan.take(i as int)),
            decreases cmds@.len() - i,
        {
            self.apply(&cmds[i]);
            assert(plan.take(i + 1).drop_last() =~= plan.take(i as int));
            i = i + 1;
        }
        assert(plan.take(i as int) =~= plan);
    }
}

/// A copy of a list of labels.
pub fn copy_labels(v: &Vec<String>) -> (r: Vec<String>)
    ensures
        r.deep_view() == v.deep_view(),
{
    let mut r: Vec<String> = Vec::new();
    let mut i: usize = 0;
    while i < v.len()
        invariant
            i <= v@.len(),
            r@.len() == i,
            forall|j: int| 0 <= j < i ==> #[trigger] r@[j]@ == v@[j]@,
        decreases v@.len() - i,
    {
        r.push(v[i].clone());
        i = i + 1;
    }
    assert(r.deep_view() =~= v.deep_view());
    r
}

} // verus!
