//! Descriptions of Prometheus metrics, and the metrics of the exporter itself.

use crate::config;
use crate::config::validate;
use crate::labels::Labels;
use crate::outcome;
use crate::text;
use vstd::prelude::*;

verus! {

/// Whether a character can begin the name of a label.
pub open spec fn begins_label_name(c: char) -> bool {
    c == '_' || 'a' <= c <= 'z' || 'A' <= c <= 'Z'
}

/// Whether a text is the name of a label.
pub open spec fn is_label_name(s: Seq<char>) -> bool {
    &&& s.len() > 0
    &&& begins_label_name(s[0])
    &&& forall|i: int|
        0 <= i < s.len() ==> begins_label_name(#[trigger] s[i]) || '0' <= s[i] <= '9'
}

/// Whether a metric can be described to Prometheus: it has a help text, its name is one, the
/// keys of its labels are names of labels, and no two of its variable labels have one key.
pub open spec fn is_describable(
    name: Seq<char>,
    help: Seq<char>,
    variable: Seq<Seq<char>>,
    constant: Set<Seq<char>>,
) -> bool {
    &&& help.len() > 0
    &&& validate::is_prom_name(name)
    &&& forall|k: Seq<char>| #[trigger] constant.contains(k) ==> is_label_name(k)
    &&& forall|i: int| 0 <= i < variable.len() ==> is_label_name(#[trigger] variable[i])
    &&& variable.no_duplicates()
}

/// The message with which a key that is no name of a label is refused.
pub open spec fn label_refusal(key: Seq<char>) -> Seq<char> {
    "Error: '"@ + key + "' is not a valid label name"@
}

/// The message with which the variable label at an index is refused: its key is no name of a
/// label, or the key of a label before it.
pub open spec fn variable_refusal(variable: Seq<Seq<char>>, i: int) -> Option<Seq<char>> {
    if !is_label_name(variable[i]) {
        Some(label_refusal(variable[i]))
    } else if exists|j: int| 0 <= j < i && #[trigger] variable[j] == variable[i] {
        Some("Error: duplicate variable label name "@ + variable[i])
    } else {
        None
    }
}

/// The message with which a metric that is not describable is refused, where no constant label is
/// at fault.
pub open spec fn description_refusal(
    name: Seq<char>,
    help: Seq<char>,
    variable: Seq<Seq<char>>,
) -> Seq<char> {
    if help.len() == 0 {
        "Error: empty help string"@
    } else if !validate::is_prom_name(name) {
        "Error: '"@ + name + "' is not a valid metric name"@
    } else {
        outcome::first_failure(variable.len(), |i: int| variable_refusal(variable, i))->0
    }
}

/// Under a good name and help text, and without constant labels, a metric is describable exactly
/// if none of its variable labels is refused.
pub proof fn variable_labels_decide(name: Seq<char>, help: Seq<char>, variable: Seq<Seq<char>>)
    requires
        help.len() > 0,
        validate::is_prom_name(name),
    ensures
        is_describable(name, help, variable, Set::empty()) <==> outcome::first_failure(
            variable.len(),
            |i: int| variable_refusal(variable, i),
        ) is None,
{
    let at = |i: int| variable_refusal(variable, i);
    outcome::lemma_no_failure(variable.len(), at);
    if outcome::first_failure(variable.len(), at) is None {
        assert forall|i: int| 0 <= i < variable.len() implies is_label_name(
            #[trigger] variable[i],
        ) by {
            assert(at(i) is None);
        }
        assert forall|i: int, j: int|
            0 <= i < variable.len() && 0 <= j < variable.len() && i != j implies variable[i]
            != variable[j] by {
            assert(at(i) is None && at(j) is None);
        }
    }
}

/// Whether a key is among the given ones and no name of a label.
pub open spec fn is_wrong_key(keys: Set<Seq<char>>, k: Seq<char>) -> bool {
    keys.contains(k) && !is_label_name(k)
}

/// Whether a message is one with which a metric that is not describable is refused. Of several
/// wrong keys of constant labels it may name any.
pub open spec fn is_description_refusal(
    name: Seq<char>,
    help: Seq<char>,
    variable: Seq<Seq<char>>,
    constant: Set<Seq<char>>,
    message: Seq<char>,
) -> bool {
    if help.len() > 0 && validate::is_prom_name(name) && exists|k: Seq<char>| #[trigger]
        is_wrong_key(constant, k) {
        exists|k: Seq<char>| #[trigger] is_wrong_key(constant, k) && message == label_refusal(k)
    } else {
        message == description_refusal(name, help, variable)
    }
}

/// The keys of a list of labels.
pub open spec fn label_keys(pairs: Seq<(String, String)>) -> Set<Seq<char>> {
    Set::new(|k: Seq<char>| exists|i: int| 0 <= i < pairs.len() && (#[trigger] pairs[i]).0@ == k)
}

/// `prometheus::core::Desc::new`, by which every gauge and counter is described when it is
/// made. It succeeds exactly if the metric is describable. The message of its error is that of the
/// first fault: the help text, the name, the constant labels, of which it may name any wrong one,
/// and the variable labels in their order.
#[verifier::external_body]
pub(crate) fn describe(
    name: &str,
    help: &str,
    variable: &Vec<String>,
    constant: &Vec<(String, String)>,
) -> (r: Result<(), String>)
    ensures
        r is Ok <==> is_describable(name@, help@, text::texts(variable@), label_keys(constant@)),
        r matches Err(e) ==> is_description_refusal(
            name@,
            help@,
            text::texts(variable@),
            label_keys(constant@),
            e@,
        ),
{
    let constant = constant.iter().cloned().collect();
    match prometheus::core::Desc::new(name.into(), help.into(), variable.clone(), constant) {
        Ok(_) => Ok(()),
        Err(e) => Err(e.to_string()),
    }
}

/// What kind of metric it is: a single gauge, or a family of gauges or counters with variable
/// labels.
#[derive(Debug, Clone, Copy, PartialEq, Eq, Structural)]
pub enum MetricKind {
    Gauge,
    GaugeVec,
    CounterVec,
}

/// A metric to register.
#[derive(Debug)]
pub struct MetricDef {
    pub kind: MetricKind,
    pub name: String,
    pub help: String,
    pub labels: Vec<String>,
}

/// What a [`MetricDef`] says.
#[verifier::ext_equal]
pub struct MetricDefView {
    pub kind: MetricKind,
    pub name: Seq<char>,
    pub help: Seq<char>,
    pub labels: Seq<Seq<char>>,
}

impl View for MetricDef {
    type V = MetricDefView;

    open spec fn view(&self) -> MetricDefView {
        MetricDefView {
            kind: self.kind,
            name: self.name@,
            help: self.help@,
            labels: text::texts(self.labels@),
        }
    }
}

/// The metrics of the exporter itself, in the order in which they are registered.
pub open spec fn definitions() -> Seq<MetricDefView> {
    seq![
        MetricDefView {
            kind: MetricKind::Gauge,
            name: "evm_exporter_scrape_duration_seconds"@,
            help: "Wall-clock time of the most recent scrape attempt, in seconds."@,
            labels: seq![],
        },
        MetricDefView {
            kind: MetricKind::CounterVec,
            name: "evm_exporter_scrape_errors_total"@,
            help: "Total scrape-level failures (rpc_error, block_not_available, chunk_failed, timeout, ...)."@,
            labels: seq!["reason"@],
        },
        MetricDefView {
            kind: MetricKind::CounterVec,
            name: "evm_exporter_call_errors_total"@,
            help: "Per-call decode or revert failures."@,
            labels: seq!["contract"@, "function"@, "address"@],
        },
        MetricDefView {
            kind: MetricKind::Gauge,
            name: "evm_exporter_last_scrape_success_timestamp_seconds"@,
            help: "Unix timestamp of the last fully successful scrape."@,
            labels: seq![],
        },
        MetricDefView {
            kind: MetricKind::Gauge,
            name: "evm_exporter_rpc_block_number"@,
            help: "Block number used at the most recent scrape."@,
            labels: seq![],
        },
        MetricDefView {
            kind: MetricKind::Gauge,
            name: "evm_exporter_calls_total"@,
            help: "Number of view-function calls planned per scrape."@,
            labels: seq![],
        },
        MetricDefView {
            kind: MetricKind::Gauge,
            name: "evm_exporter_chunks_total"@,
            help: "Number of aggregate3 invocations per scrape (calls / max_calls_per_batch, rounded up)."@,
            labels: seq![],
        },
        MetricDefView {
            kind: MetricKind::GaugeVec,
            name: "evm_exporter_build_info"@,
            help: "Exporter build information. Constant 1."@,
            labels: seq!["version"@, "commit"@, "rust_version"@],
        },
    ]
}

/// The metrics of the exporter itself. The labels of the whole configuration are constant labels
/// of each.
#[derive(Debug)]
pub struct SelfMetrics {
    pub scrape_duration_seconds: MetricDef,
    pub scrape_errors_total: MetricDef,
    pub call_errors_total: MetricDef,
    pub last_scrape_success_timestamp: MetricDef,
    pub rpc_block_number: MetricDef,
    pub calls_total: MetricDef,
    pub chunks_total: MetricDef,
    pub build_info: MetricDef,
    pub const_labels: Vec<(String, String)>,
}

/// Why the exporter does not get a metric of its own.
#[derive(Debug)]
pub enum SelfMetricError {
    /// The metric cannot be described to Prometheus.
    Description { name: String, reason: String },
    /// Another metric has the name.
    Registration { name: String, reason: String },
}

/// The message of a [`SelfMetricError`].
pub open spec fn self_metric_message(e: SelfMetricError) -> Seq<char> {
    match e {
        SelfMetricError::Description { name, reason } => "create "@ + name@ + ": "@ + reason@,
        SelfMetricError::Registration { reason, .. } => reason@,
    }
}

impl SelfMetricError {
    /// The error as a text for people.
    pub fn message(&self) -> (r: String)
        ensures
            r@ == self_metric_message(*self),
    {
        match self {
            SelfMetricError::Description { name, reason } => {
                let mut s = "create ".to_string();
                s.append(name.as_str());
                s.append(": ");
                s.append(reason.as_str());
                s
            },
            SelfMetricError::Registration { reason, .. } => reason.clone(),
        }
    }
}

/// Whether pairs of texts are the labels of a set, in key order.
pub open spec fn pairs_of(labels: Labels, pairs: Seq<(String, String)>) -> bool {
    &&& pairs.len() == labels.key_seq().len()
    &&& forall|i: int|
        0 <= i < pairs.len() ==> (#[trigger] pairs[i]).0@ == labels.key_seq()[i] && pairs[i].1@
            == labels@[labels.key_seq()[i]]
}

/// The labels of a set as pairs, in key order.
fn list_pairs(labels: &Labels) -> (r: Vec<(String, String)>)
    ensures
        pairs_of(*labels, r@),
        label_keys(r@) == labels@.dom(),
{
    let mut out: Vec<(String, String)> = Vec::new();
    let n: usize = labels.len();
    for i in 0..n
        invariant
            n == labels.key_seq().len(),
            out@.len() == i,
            forall|j: int|
                0 <= j < i ==> (#[trigger] out@[j]).0@ == labels.key_seq()[j] && out@[j].1@
                    == labels@[labels.key_seq()[j]],
    {
        out.push((labels.key(i).clone(), labels.value(i).clone()));
    }
    proof {
        let keys = labels.key_seq();
        assert forall|k: Seq<char>| #[trigger]
            label_keys(out@).contains(k) <==> labels@.dom().contains(k) by {
            if labels@.dom().contains(k) {
                assert(keys.contains(k));
                let i = keys.index_of(k);
                assert(out@[i].0@ == k);
            }
            if label_keys(out@).contains(k) {
                let i = choose|i: int| 0 <= i < out@.len() && (#[trigger] out@[i]).0@ == k;
                assert(keys[i] == k);
                assert(keys.contains(k));
            }
        }
        assert(label_keys(out@) =~= labels@.dom());
    }
    out
}

/// Whether a metric of the exporter cannot be described with the given constant labels.
pub open spec fn is_refused(d: MetricDefView, constant: Set<Seq<char>>) -> bool {
    !is_describable(d.name, d.help, d.labels, constant)
}

/// The position of the first metric that cannot be described with the given constant labels.
pub open spec fn first_refused(constant: Set<Seq<char>>) -> Option<int> {
    outcome::first_index(definitions().len(), |i: int| is_refused(definitions()[i], constant))
}

/// Makes a definition and checks that it can be described.
fn define(
    kind: MetricKind,
    name: &str,
    help: &str,
    labels: Vec<String>,
    constant: &Vec<(String, String)>,
) -> (r: Result<MetricDef, SelfMetricError>)
    ensures
        ({
            let d = MetricDefView { kind, name: name@, help: help@, labels: text::texts(labels@) };
            match r {
                Ok(def) => def@ == d && !is_refused(d, label_keys(constant@)),
                Err(e) => is_refused(d, label_keys(constant@)) && (e matches
                    SelfMetricError::Description { name: got, reason } && got@ == name@
                    && is_description_refusal(
                    d.name,
                    d.help,
                    d.labels,
                    label_keys(constant@),
                    reason@,
                )),
            }
        }),
{
    match describe(name, help, &labels, constant) {
        Ok(()) => Ok(MetricDef { kind, name: name.to_string(), help: help.to_string(), labels }),
        Err(reason) => Err(SelfMetricError::Description { name: name.to_string(), reason }),
    }
}

/// Whether these are the metrics of the exporter itself, with the given constant labels.
pub open spec fn are_defined(m: SelfMetrics, constant: Labels) -> bool {
    &&& pairs_of(constant, m.const_labels@)
    &&& m.scrape_duration_seconds@ == definitions()[0]
    &&& m.scrape_errors_total@ == definitions()[1]
    &&& m.call_errors_total@ == definitions()[2]
    &&& m.last_scrape_success_timestamp@ == definitions()[3]
    &&& m.rpc_block_number@ == definitions()[4]
    &&& m.calls_total@ == definitions()[5]
    &&& m.chunks_total@ == definitions()[6]
    &&& m.build_info@ == definitions()[7]
}

/// Whether an error says that a metric of the given name is refused for one of the constant
/// labels.
pub open spec fn blames_constant(e: SelfMetricError, name: Seq<char>, constant: Set<Seq<char>>) -> bool {
    e matches SelfMetricError::Description { name: got, reason } && got@ == name && exists|
        k: Seq<char>,
    | #[trigger]
        is_wrong_key(constant, k) && reason@ == label_refusal(k)
}

impl SelfMetrics {
    /// Describes the metrics of the exporter itself, with the labels of the whole configuration.
    fn describe_all(top_level_labels: &Labels) -> (r: Result<SelfMetrics, SelfMetricError>)
        ensures
            match r {
                Ok(m) => first_refused(top_level_labels@.dom()) is None && are_defined(
                    m,
                    *top_level_labels,
                ) && label_keys(m.const_labels@) == top_level_labels@.dom(),
                Err(e) => first_refused(top_level_labels@.dom()) matches Some(i)
                    && blames_constant(e, definitions()[i].name, top_level_labels@.dom()),
            },
    {
        let const_labels = list_pairs(top_level_labels);
        let ghost constant = top_level_labels@.dom();
        let ghost at = |i: int| is_refused(definitions()[i], constant);
        let ghost n = definitions().len();
        let labels: Vec<String> = Vec::new();
        assert(text::texts(labels@) =~= Seq::<Seq<char>>::empty());
        let scrape_duration_seconds = match define(
            MetricKind::Gauge,
            "evm_exporter_scrape_duration_seconds",
            "Wall-clock time of the most recent scrape attempt, in seconds.",
            labels,
            &const_labels,
        ) {
            Ok(d) => d,
            Err(e) => {
                proof {
                    outcome::lemma_is_first_index(n, at, 0);
                    lemma_own_refusal(constant, 0);
                }
                return Err(e);
            },
        };
        let mut labels: Vec<String> = Vec::new();
        labels.push("reason".to_string());
        assert(text::texts(labels@) =~= seq!["reason"@]);
        let scrape_errors_total = match define(
            MetricKind::CounterVec,
            "evm_exporter_scrape_errors_total",
            "Total scrape-level failures (rpc_error, block_not_available, chunk_failed, timeout, ...).",
            labels,
            &const_labels,
        ) {
            Ok(d) => d,
            Err(e) => {
                proof {
                    outcome::lemma_is_first_index(n, at, 1);
                    lemma_own_refusal(constant, 1);
                }
                return Err(e);
            },
        };
        let mut labels: Vec<String> = Vec::new();
        labels.push("contract".to_string());
        labels.push("function".to_string());
        labels.push("address".to_string());
        assert(text::texts(labels@) =~= seq!["contract"@, "function"@, "address"@]);
        let call_errors_total = match define(
            MetricKind::CounterVec,
            "evm_exporter_call_errors_total",
            "Per-call decode or revert failures.",
            labels,
            &const_labels,
        ) {
            Ok(d) => d,
            Err(e) => {
                proof {
                    outcome::lemma_is_first_index(n, at, 2);
                    lemma_own_refusal(constant, 2);
                }
                return Err(e);
            },
        };
        let labels: Vec<String> = Vec::new();
        assert(text::texts(labels@) =~= Seq::<Seq<char>>::empty());
        let last_scrape_success_timestamp = match define(
            MetricKind::Gauge,
            "evm_exporter_last_scrape_success_timestamp_seconds",
            "Unix timestamp of the last fully successful scrape.",
            labels,
            &const_labels,
        ) {
            Ok(d) => d,
            Err(e) => {
                proof {
                    outcome::lemma_is_first_index(n, at, 3);
                    lemma_own_refusal(constant, 3);
                }
                return Err(e);
            },
        };
        let labels: Vec<String> = Vec::new();
        assert(text::texts(labels@) =~= Seq::<Seq<char>>::empty());
        let rpc_block_number = match define(
            MetricKind::Gauge,
            "evm_exporter_rpc_block_number",
            "Block number used at the most recent scrape.",
            labels,
            &const_labels,
        ) {
            Ok(d) => d,
            Err(e) => {
                proof {
                    outcome::lemma_is_first_index(n, at, 4);
                    lemma_own_refusal(constant, 4);
                }
                return Err(e);
            },
        };
        let labels: Vec<String> = Vec::new();
        assert(text::texts(labels@) =~= Seq::<Seq<char>>::empty());
        let calls_total = match define(
            MetricKind::Gauge,
            "evm_exporter_calls_total",
            "Number of view-function calls planned per scrape.",
            labels,
            &const_labels,
        ) {
            Ok(d) => d,
            Err(e) => {
                proof {
                    outcome::lemma_is_first_index(n, at, 5);
                    lemma_own_refusal(constant, 5);
                }
                return Err(e);
            },
        };
        let labels: Vec<String> = Vec::new();
        assert(text::texts(labels@) =~= Seq::<Seq<char>>::empty());
        let chunks_total = match define(
            MetricKind::Gauge,
            "evm_exporter_chunks_total",
            "Number of aggregate3 invocations per scrape (calls / max_calls_per_batch, rounded up).",
            labels,
            &const_labels,
        ) {
            Ok(d) => d,
            Err(e) => {
                proof {
                    outcome::lemma_is_first_index(n, at, 6);
                    lemma_own_refusal(constant, 6);
                }
                return Err(e);
            },
        };
        let mut labels: Vec<String> = Vec::new();
        labels.push("version".to_string());
        labels.push("commit".to_string());
        labels.push("rust_version".to_string());
        assert(text::texts(labels@) =~= seq!["version"@, "commit"@, "rust_version"@]);
        let build_info = match define(
            MetricKind::GaugeVec,
            "evm_exporter_build_info",
            "Exporter build information. Constant 1.",
            labels,
            &const_labels,
        ) {
            Ok(d) => d,
            Err(e) => {
                proof {
                    outcome::lemma_is_first_index(n, at, 7);
                    lemma_own_refusal(constant, 7);
                }
                return Err(e);
            },
        };
        proof {
            outcome::lemma_first_index(n, at);
        }
        Ok(
            SelfMetrics {
                scrape_duration_seconds,
                scrape_errors_total,
                call_errors_total,
                last_scrape_success_timestamp,
                rpc_block_number,
                calls_total,
                chunks_total,
                build_info,
                const_labels,
            },
        )
    }
}

/// The names of the metrics of the exporter itself, in the order in which they are registered.
pub open spec fn own_names() -> Seq<Seq<char>> {
    Seq::new(definitions().len(), |i: int| definitions()[i].name)
}

/// The position of the first of the names that is among those taken.
pub open spec fn first_taken(names: Seq<Seq<char>>, taken: Seq<Seq<char>>) -> Option<int> {
    outcome::first_index(names.len(), |i: int| taken.contains(names[i]))
}

/// The position of the first of the metrics that has a name.
pub open spec fn first_named(names: Seq<Seq<char>>, name: Seq<char>) -> Option<int> {
    outcome::first_index(names.len(), |i: int| names[i] == name)
}

/// The names of a list of metrics.
pub open spec fn names_of(defs: Seq<MetricDefView>) -> Seq<Seq<char>> {
    Seq::new(defs.len(), |i: int| defs[i].name)
}

/// What a list of metrics says.
pub open spec fn definitions_view(defs: Seq<MetricDef>) -> Seq<MetricDefView> {
    Seq::new(defs.len(), |i: int| defs[i]@)
}

/// Finds the first of the metrics that has a name.
fn find_named(defs: &Vec<MetricDef>, name: &str) -> (r: Option<usize>)
    ensures
        match r {
            Some(i) => i < defs@.len() && first_named(names_of(definitions_view(defs@)), name@) == Some(i as int)
                && names_of(definitions_view(defs@)).contains(name@),
            None => !names_of(definitions_view(defs@)).contains(name@),
        },
{
    let ghost names = names_of(definitions_view(defs@));
    let ghost at = |i: int| names[i] == name@;
    for i in 0..defs.len()
        invariant
            names == names_of(definitions_view(defs@)),
            at == (|i: int| names[i] == name@),
            forall|j: int| 0 <= j < i ==> !#[trigger] at(j),
    {
        if text::same(defs[i].name.as_str(), name) {
            proof {
                assert(at(i as int));
                assert(names[i as int] == name@);
                outcome::lemma_is_first_index(names.len(), at, i as int);
            }
            return Some(i);
        }
        assert(!at(i as int));
    }
    assert(!names.contains(name@)) by {
        if names.contains(name@) {
            let i = choose|i: int| 0 <= i < names.len() && names[i] == name@;
            assert(at(i));
        }
    }
    None
}

/// What is registered of a metric: its name, its help text, the keys of its variable labels and
/// its constant labels.
#[verifier::ext_equal]
pub struct DescView {
    pub name: Seq<char>,
    pub help: Seq<char>,
    pub labels: Seq<Seq<char>>,
    pub constant: Seq<(Seq<char>, Seq<char>)>,
}

/// What a list of labels says.
pub open spec fn pairs_view(pairs: Seq<(String, String)>) -> Seq<(Seq<char>, Seq<char>)> {
    Seq::new(pairs.len(), |i: int| (pairs[i].0@, pairs[i].1@))
}

/// The labels of a set, in key order.
pub open spec fn ordered_pairs(labels: Labels) -> Seq<(Seq<char>, Seq<char>)> {
    Seq::new(labels.key_seq().len(), |i: int| (labels.key_seq()[i], labels@[labels.key_seq()[i]]))
}

/// What is registered of a metric with the given constant labels.
pub open spec fn described(d: MetricDefView, constant: Seq<(Seq<char>, Seq<char>)>) -> DescView {
    DescView { name: d.name, help: d.help, labels: d.labels, constant }
}

/// `prometheus::Registry`. Nothing but the functions here holds one.
#[verifier::external_type_specification]
#[verifier::external_body]
pub struct ExRegistry(prometheus::Registry);

/// What was registered with a `prometheus::Registry`, in order.
pub uninterp spec fn registered(registry: prometheus::Registry) -> Seq<DescView>;

/// What `prometheus::Registry::register` gives for a metric after others were registered: nothing,
/// or the message of its error.
pub uninterp spec fn registration(before: Seq<DescView>, d: DescView) -> Result<(), Seq<char>>;

/// `prometheus::Registry::new`: nothing is registered.
#[verifier::external_body]
fn new_registry() -> (r: prometheus::Registry)
    ensures
        registered(r) == Seq::<DescView>::empty(),
{
    prometheus::Registry::new()
}

/// What is said of a metric that is registered a second time.
pub const TWICE: &'static str = "Duplicate metrics collector registration attempted";

/// `prometheus::Registry::register` of a metric, made as a `prometheus::GaugeVec`: the registry
/// looks at its description alone. The outcome is named and depends on what was registered before
/// and on the description; where it is an error nothing changes. The first metric is always taken.
/// A second metric with the name and the constant labels of another never is.
#[verifier::external_body]
fn register(
    registry: &mut prometheus::Registry,
    def: &MetricDef,
    constant: &Vec<(String, String)>,
) -> (r: Result<(), String>)
    requires
        is_describable(def.name@, def.help@, text::texts(def.labels@), label_keys(constant@)),
    ensures
        match r {
            Ok(()) => registration(
                registered(*old(registry)),
                described(def@, pairs_view(constant@)),
            ) == Ok::<(), Seq<char>>(()) && registered(*final(registry)) == registered(
                *old(registry),
            ).push(described(def@, pairs_view(constant@))),
            Err(e) => registration(
                registered(*old(registry)),
                described(def@, pairs_view(constant@)),
            ) == Err::<(), Seq<char>>(e@) && registered(*final(registry)) == registered(
                *old(registry),
            ),
        },
        registered(*old(registry)).len() == 0 ==> r is Ok,
        (exists|i: int|
            0 <= i < registered(*old(registry)).len() && (#[trigger] registered(
                *old(registry),
            )[i]).name == def.name@ && registered(*old(registry))[i].constant == pairs_view(
                constant@,
            )) ==> (r matches Err(e) && e@ == TWICE@),
{
    let labels: Vec<&str> = def.labels.iter().map(String::as_str).collect();
    let opts = prometheus::Opts::new(def.name.clone(), def.help.clone())
        .const_labels(constant.iter().cloned().collect());
    let made = prometheus::GaugeVec::new(opts, &labels);
    made.and_then(|g| registry.register(Box::new(g))).map_err(|e| e.to_string())
}

/// The message with which the registry refuses a metric after another. It is empty where the
/// registry would take both.
pub open spec fn refusal_after(other: DescView, d: DescView) -> Seq<char> {
    match registration(seq![other], d) {
        Err(e) => e,
        Ok(()) => seq![],
    }
}

/// The message with which the registry refuses a metric after another one without constant
/// labels.
fn refuse_after(other: &MetricDef, def: &MetricDef, constant: &Vec<(String, String)>) -> (r: String)
    requires
        is_describable(other.name@, other.help@, text::texts(other.labels@), Set::empty()),
        is_describable(def.name@, def.help@, text::texts(def.labels@), label_keys(constant@)),
    ensures
        r@ == refusal_after(described(other@, seq![]), described(def@, pairs_view(constant@))),
        other.name@ == def.name@ && constant@.len() == 0 ==> r@ == TWICE@,
{
    let none: Vec<(String, String)> = Vec::new();
    assert(label_keys(none@) =~= Set::empty());
    assert(pairs_view(none@) =~= seq![]);
    let mut registry = new_registry();
    let first = register(&mut registry, other, &none);
    assert(registered(registry) =~= seq![described(other@, seq![])]);
    assert(registered(registry)[0] == described(other@, seq![]));
    assert(constant@.len() == 0 ==> pairs_view(constant@) =~= seq![]);
    match register(&mut registry, def, constant) {
        Err(e) => e,
        Ok(()) => String::new(),
    }
}

/// The definitions of the metrics of the exporter itself, in the order in which they are
/// registered.
pub open spec fn own_definitions(m: SelfMetrics) -> Seq<MetricDef> {
    seq![
        m.scrape_duration_seconds,
        m.scrape_errors_total,
        m.call_errors_total,
        m.last_scrape_success_timestamp,
        m.rpc_block_number,
        m.calls_total,
        m.chunks_total,
        m.build_info,
    ]
}

/// Whether metrics without constant labels could be described, as those that are registered were.
pub open spec fn are_describable(defs: Seq<MetricDefView>) -> bool {
    forall|i: int|
        0 <= i < defs.len() ==> is_describable(
            (#[trigger] defs[i]).name,
            defs[i].help,
            defs[i].labels,
            Set::empty(),
        )
}

/// Whether an error says that the metric at an index of the exporter's own is refused by the
/// registry for one of the metrics registered before.
pub open spec fn blames_registered(
    e: SelfMetricError,
    i: int,
    before: Seq<MetricDefView>,
    constant: Labels,
) -> bool {
    e matches SelfMetricError::Registration { name, reason } && name@ == own_names()[i] && (
    first_named(names_of(before), own_names()[i]) matches Some(j) && reason@ == refusal_after(
        described(before[j], seq![]),
        described(definitions()[i], ordered_pairs(constant)),
    )) && (constant@ == Map::<Seq<char>, Seq<char>>::empty() ==> reason@ == TWICE@)
}

impl SelfMetrics {
    /// The metric at an index, in the order in which they are registered.
    pub fn definition(&self, i: usize) -> (r: &MetricDef)
        requires
            i < 8,
        ensures
            *r == own_definitions(*self)[i as int],
    {
        match i {
            0 => &self.scrape_duration_seconds,
            1 => &self.scrape_errors_total,
            2 => &self.call_errors_total,
            3 => &self.last_scrape_success_timestamp,
            4 => &self.rpc_block_number,
            5 => &self.calls_total,
            6 => &self.chunks_total,
            _ => &self.build_info,
        }
    }

    /// The metrics of the exporter itself, with the labels of the whole configuration, after
    /// metrics without constant labels were registered: none of those may have one of the names.
    pub fn new(before: &Vec<MetricDef>, top_level_labels: &Labels) -> (r: Result<
        SelfMetrics,
        SelfMetricError,
    >)
        requires
            are_describable(definitions_view(before@)),
        ensures
            match first_refused(top_level_labels@.dom()) {
                Some(i) => r matches Err(e) && blames_constant(
                    e,
                    definitions()[i].name,
                    top_level_labels@.dom(),
                ),
                None => match first_taken(own_names(), names_of(definitions_view(before@))) {
                    Some(i) => r matches Err(e) && blames_registered(
                        e,
                        i,
                        definitions_view(before@),
                        *top_level_labels,
                    ),
                    None => r matches Ok(m) && are_defined(m, *top_level_labels),
                },
            },
    {
        let m = match SelfMetrics::describe_all(top_level_labels) {
            Err(e) => {
                return Err(e);
            },
            Ok(m) => m,
        };
        let ghost taken = names_of(definitions_view(before@));
        let ghost dom = top_level_labels@.dom();
        let ghost at = |i: int| taken.contains(own_names()[i]);
        let ghost refused = |i: int| is_refused(definitions()[i], dom);
        proof {
            outcome::lemma_first_index(definitions().len(), refused);
            assert(pairs_view(m.const_labels@) =~= ordered_pairs(*top_level_labels));
            if top_level_labels@ == Map::<Seq<char>, Seq<char>>::empty() {
                assert(m.const_labels@.len() == 0) by {
                    if m.const_labels@.len() > 0 {
                        let k = m.const_labels@[0].0@;
                        assert(label_keys(m.const_labels@).contains(k));
                    }
                }
            }
        }
        for i in 0..8usize
            invariant
                are_describable(definitions_view(before@)),
                taken == names_of(definitions_view(before@)),
                dom == top_level_labels@.dom(),
                at == (|i: int| taken.contains(own_names()[i])),
                refused == (|i: int| is_refused(definitions()[i], dom)),
                first_refused(dom) is None,
                are_defined(m, *top_level_labels),
                label_keys(m.const_labels@) == dom,
                pairs_view(m.const_labels@) == ordered_pairs(*top_level_labels),
                top_level_labels@ == Map::<Seq<char>, Seq<char>>::empty() ==> m.const_labels@.len()
                    == 0,
                forall|j: int| 0 <= j < 8 ==> !#[trigger] refused(j),
                forall|j: int| 0 <= j < i ==> !#[trigger] at(j),
        {
            let def = m.definition(i);
            assert(def@ == definitions()[i as int]);
            assert(!refused(i as int));
            if let Some(j) = find_named(before, def.name.as_str()) {
                proof {
                    assert(at(i as int));
                    outcome::lemma_is_first_index(own_names().len(), at, i as int);
                    assert(names_of(definitions_view(before@))[j as int] == def.name@) by {
                        outcome::lemma_first_index(
                            taken.len(),
                            |k: int| taken[k] == def.name@,
                        );
                    }
                    assert(definitions_view(before@)[j as int] == before@[j as int]@);
                }
                let reason = refuse_after(&before[j], def, &m.const_labels);
                return Err(SelfMetricError::Registration { name: def.name.clone(), reason });
            }
            assert(!at(i as int));
        }
        proof {
            outcome::lemma_first_index(own_names().len(), at);
        }
        Ok(m)
    }
}

/// None of the names is taken exactly if the two lists have no name in common.
pub proof fn free_names_are_others(names: Seq<Seq<char>>, taken: Seq<Seq<char>>)
    ensures
        first_taken(names, taken) is None <==> (forall|i: int, j: int|
            0 <= i < names.len() && 0 <= j < taken.len() ==> #[trigger] names[i]
                != #[trigger] taken[j]),
{
    let at = |i: int| taken.contains(names[i]);
    outcome::lemma_first_index(names.len(), at);
    if first_taken(names, taken) is None {
        assert forall|i: int, j: int|
            0 <= i < names.len() && 0 <= j < taken.len() implies #[trigger] names[i]
            != #[trigger] taken[j] by {
            assert(!at(i));
        }
    }
}

/// A text, or another in its place where it is empty.
fn filled(s: &str, default: &str) -> (r: String)
    ensures
        r@ == config::text_or(s@, default@),
{
    if s.is_empty() {
        default.to_string()
    } else {
        s.to_string()
    }
}

/// The labels of the series of `build_info` that is set to one: the version, the commit and the
/// compiler's version, with a word in place of each that is not known.
pub fn build_info_labels(version: &str, commit: &str, rust_version: &str) -> (r: Vec<String>)
    ensures
        text::texts(r@) == seq![
            config::text_or(version@, "dev"@),
            config::text_or(commit@, "unknown"@),
            config::text_or(rust_version@, "unknown"@),
        ],
{
    let mut out: Vec<String> = Vec::new();
    out.push(filled(version, "dev"));
    out.push(filled(commit, "unknown"));
    out.push(filled(rust_version, "unknown"));
    assert(text::texts(out@) =~= seq![
        config::text_or(version@, "dev"@),
        config::text_or(commit@, "unknown"@),
        config::text_or(rust_version@, "unknown"@),
    ]);
    out
}

proof fn lemma_own_names()
    ensures
        validate::is_prom_name("evm_exporter_scrape_duration_seconds"@),
        validate::is_prom_name("evm_exporter_scrape_errors_total"@),
        validate::is_prom_name("evm_exporter_call_errors_total"@),
        validate::is_prom_name("evm_exporter_last_scrape_success_timestamp_seconds"@),
        validate::is_prom_name("evm_exporter_rpc_block_number"@),
        validate::is_prom_name("evm_exporter_calls_total"@),
        validate::is_prom_name("evm_exporter_chunks_total"@),
        validate::is_prom_name("evm_exporter_build_info"@),
{
    reveal_strlit("evm_exporter_scrape_duration_seconds");
    reveal_strlit("evm_exporter_scrape_errors_total");
    reveal_strlit("evm_exporter_call_errors_total");
    reveal_strlit("evm_exporter_last_scrape_success_timestamp_seconds");
    reveal_strlit("evm_exporter_rpc_block_number");
    reveal_strlit("evm_exporter_calls_total");
    reveal_strlit("evm_exporter_chunks_total");
    reveal_strlit("evm_exporter_build_info");
}

proof fn lemma_own_labels()
    ensures
        is_label_name("reason"@),
        is_label_name("contract"@),
        is_label_name("function"@),
        is_label_name("address"@),
        is_label_name("version"@),
        is_label_name("commit"@),
        is_label_name("rust_version"@),
        seq!["reason"@].no_duplicates(),
        seq!["contract"@, "function"@, "address"@].no_duplicates(),
        seq!["version"@, "commit"@, "rust_version"@].no_duplicates(),
{
    reveal_strlit("reason");
    reveal_strlit("contract");
    reveal_strlit("function");
    reveal_strlit("address");
    reveal_strlit("version");
    reveal_strlit("commit");
    reveal_strlit("rust_version");
    assert("contract"@[0] != "function"@[0]);
    assert("contract"@[0] != "address"@[0]);
    assert("function"@[0] != "address"@[0]);
    assert("version"@[0] != "commit"@[0]);
    assert("version"@[0] != "rust_version"@[0]);
    assert("commit"@[0] != "rust_version"@[0]);
}

proof fn lemma_own_help()
    ensures
        forall|i: int|
            0 <= i < definitions().len() ==> (#[trigger] definitions()[i]).help.len() > 0,
{
    reveal_strlit("Wall-clock time of the most recent scrape attempt, in seconds.");
    reveal_strlit("Total scrape-level failures (rpc_error, block_not_available, chunk_failed, timeout, ...).");
    reveal_strlit("Per-call decode or revert failures.");
    reveal_strlit("Unix timestamp of the last fully successful scrape.");
    reveal_strlit("Block number used at the most recent scrape.");
    reveal_strlit("Number of view-function calls planned per scrape.");
    reveal_strlit("Number of aggregate3 invocations per scrape (calls / max_calls_per_batch, rounded up).");
    reveal_strlit("Exporter build information. Constant 1.");
}

/// With wrong keys of constant labels a metric of the exporter itself is refused for one of them,
/// and for nothing else.
proof fn lemma_own_refusal(constant: Set<Seq<char>>, i: int)
    requires
        0 <= i < definitions().len(),
        is_refused(definitions()[i], constant),
    ensures
        definitions()[i].help.len() > 0,
        validate::is_prom_name(definitions()[i].name),
        exists|k: Seq<char>| #[trigger] is_wrong_key(constant, k),
{
    lemma_own_names();
    lemma_own_labels();
    lemma_own_help();
    if forall|k: Seq<char>| !#[trigger] is_wrong_key(constant, k) {
        assert forall|k: Seq<char>| #[trigger] constant.contains(k) implies is_label_name(k) by {
            assert(!is_wrong_key(constant, k));
        }
    }
}

/// The metrics of the exporter itself can be described exactly if the keys of the labels of the
/// whole configuration are names of labels.
pub proof fn label_names_suffice(constant: Set<Seq<char>>)
    ensures
        first_refused(constant) is None <==> (forall|k: Seq<char>| #[trigger]
            constant.contains(k) ==> is_label_name(k)),
{
    let at = |i: int| is_refused(definitions()[i], constant);
    outcome::lemma_first_index(definitions().len(), at);
    lemma_own_names();
    lemma_own_labels();
    lemma_own_help();
    if forall|k: Seq<char>| #[trigger] constant.contains(k) ==> is_label_name(k) {
        assert forall|i: int| 0 <= i < definitions().len() implies !#[trigger] at(i) by {
            let d = definitions()[i];
            assert(d.help.len() > 0);
        }
    } else {
        assert(at(0));
    }
}

/// The exporter has the documented metrics of its own, with the documented labels, and the labels
/// of the whole configuration as constant labels.
pub proof fn own_metrics_are_the_documented_ones(m: SelfMetrics, constant: Labels)
    requires
        are_defined(m, constant),
    ensures
        m.scrape_duration_seconds.name@ == "evm_exporter_scrape_duration_seconds"@,
        m.scrape_errors_total.name@ == "evm_exporter_scrape_errors_total"@,
        m.call_errors_total.name@ == "evm_exporter_call_errors_total"@,
        m.last_scrape_success_timestamp.name@
            == "evm_exporter_last_scrape_success_timestamp_seconds"@,
        m.rpc_block_number.name@ == "evm_exporter_rpc_block_number"@,
        m.calls_total.name@ == "evm_exporter_calls_total"@,
        m.chunks_total.name@ == "evm_exporter_chunks_total"@,
        m.build_info.name@ == "evm_exporter_build_info"@,
        m.scrape_duration_seconds.kind == MetricKind::Gauge,
        m.scrape_errors_total.kind == MetricKind::CounterVec,
        m.call_errors_total.kind == MetricKind::CounterVec,
        m.last_scrape_success_timestamp.kind == MetricKind::Gauge,
        m.rpc_block_number.kind == MetricKind::Gauge,
        m.calls_total.kind == MetricKind::Gauge,
        m.chunks_total.kind == MetricKind::Gauge,
        m.build_info.kind == MetricKind::GaugeVec,
        m.scrape_duration_seconds.labels@.len() == 0,
        text::texts(m.scrape_errors_total.labels@) == seq!["reason"@],
        text::texts(m.call_errors_total.labels@) == seq!["contract"@, "function"@, "address"@],
        m.last_scrape_success_timestamp.labels@.len() == 0,
        m.rpc_block_number.labels@.len() == 0,
        m.calls_total.labels@.len() == 0,
        m.chunks_total.labels@.len() == 0,
        text::texts(m.build_info.labels@) == seq!["version"@, "commit"@, "rust_version"@],
        m.const_labels@.len() == constant.key_seq().len(),
        forall|i: int|
            0 <= i < m.const_labels@.len() ==> (#[trigger] m.const_labels@[i]).0@
                == constant.key_seq()[i] && m.const_labels@[i].1@
                == constant@[constant.key_seq()[i]],
{
    assert(m.scrape_duration_seconds@.labels.len() == 0);
    assert(m.last_scrape_success_timestamp@.labels.len() == 0);
    assert(m.rpc_block_number@.labels.len() == 0);
    assert(m.calls_total@.labels.len() == 0);
    assert(m.chunks_total@.labels.len() == 0);
    assert(m.scrape_errors_total@.labels == seq!["reason"@]);
    assert(m.call_errors_total@.labels == seq!["contract"@, "function"@, "address"@]);
    assert(m.build_info@.labels == seq!["version"@, "commit"@, "rust_version"@]);
}

/// The name of a label begins with a letter or an underscore and goes on with those and digits.
pub proof fn label_names_are_identifiers(s: Seq<char>, c: char)
    ensures
        !is_label_name(seq![]),
        is_label_name(seq![c]) <==> c == '_' || 'a' <= c <= 'z' || 'A' <= c <= 'Z',
        s.len() > 0 ==> (is_label_name(s.push(c)) <==> is_label_name(s) && (c == '_' || 'a' <= c
            <= 'z' || 'A' <= c <= 'Z' || '0' <= c <= '9')),
{
    let one = seq![c];
    assert(one[0] == c);
    let more = s.push(c);
    if s.len() > 0 {
        assert(more[0] == s[0]);
        assert(more[s.len() as int] == c);
        if is_label_name(more) {
            assert forall|i: int| 0 <= i < s.len() implies begins_label_name(#[trigger] s[i]) || '0'
                <= s[i] <= '9' by {
                assert(more[i] == s[i]);
            }
        }
    }
}

/// A metric can be described exactly if it has a help text and a name, all its labels have names,
/// and no two of its variable labels one name.
pub proof fn describable_metrics_are_named(
    name: Seq<char>,
    help: Seq<char>,
    variable: Seq<Seq<char>>,
    constant: Set<Seq<char>>,
)
    ensures
        is_describable(name, help, variable, constant) <==> (help.len() > 0
            && validate::is_prom_name(name) && (forall|i: int|
            0 <= i < variable.len() ==> is_label_name(#[trigger] variable[i])) && (forall|
            i: int,
            j: int,
        |
            0 <= i < j < variable.len() ==> #[trigger] variable[i] != #[trigger] variable[j]) && (
        forall|k: Seq<char>| #[trigger] constant.contains(k) ==> is_label_name(k))),
{
}

/// Of the names that are taken the first is found, and only a name that is taken.
pub proof fn first_taken_name_is_taken(names: Seq<Seq<char>>, taken: Seq<Seq<char>>)
    ensures
        first_taken(names, taken) matches Some(i) ==> 0 <= i < names.len() && taken.contains(
            names[i],
        ) && forall|j: int| 0 <= j < i ==> !taken.contains(#[trigger] names[j]),
{
    let at = |i: int| taken.contains(names[i]);
    outcome::lemma_first_index(names.len(), at);
    if let Some(i) = first_taken(names, taken) {
        assert forall|j: int| 0 <= j < i implies !taken.contains(#[trigger] names[j]) by {
            assert(!at(j));
        }
    }
}

/// An error about a metric of the exporter itself names it, and says for what it is refused: a
/// label of the whole configuration whose key is no name of a label, or a metric that was registered
/// under its name.
pub proof fn refusals_name_the_metric(
    e: SelfMetricError,
    i: int,
    before: Seq<MetricDefView>,
    constant: Labels,
)
    requires
        0 <= i < definitions().len(),
    ensures
        blames_constant(e, definitions()[i].name, constant@.dom()) ==> e is Description
            && e->Description_name@ == definitions()[i].name && exists|k: Seq<char>| #[trigger]
            constant@.dom().contains(k) && !is_label_name(k) && e->Description_reason@ == "Error: '"@
                + k + "' is not a valid label name"@,
        blames_registered(e, i, before, constant) ==> e is Registration && e->Registration_name@
            == definitions()[i].name && exists|j: int|
            0 <= j < before.len() && (#[trigger] before[j]).name == definitions()[i].name,
        blames_registered(e, i, before, constant) && constant@.dom() == Set::<Seq<char>>::empty()
            ==> e->Registration_reason@ == "Duplicate metrics collector registration attempted"@,
{
    if blames_constant(e, definitions()[i].name, constant@.dom()) {
        let k = choose|k: Seq<char>| #[trigger]
            is_wrong_key(constant@.dom(), k) && e->Description_reason@ == label_refusal(k);
        assert(constant@.dom().contains(k));
    }
    if blames_registered(e, i, before, constant) {
        let names = names_of(before);
        outcome::lemma_first_index(names.len(), |j: int| names[j] == own_names()[i]);
        let j = first_named(names, own_names()[i])->0;
        assert(before[j].name == names[j]);
        if constant@.dom() == Set::<Seq<char>>::empty() {
            assert(constant@ =~= Map::<Seq<char>, Seq<char>>::empty());
        }
    }
}

/// The metrics of the exporter itself say what they count.
pub proof fn own_metrics_have_their_help_texts(m: SelfMetrics, constant: Labels)
    requires
        are_defined(m, constant),
    ensures
        m.scrape_duration_seconds.help@
            == "Wall-clock time of the most recent scrape attempt, in seconds."@,
        m.scrape_errors_total.help@
            == "Total scrape-level failures (rpc_error, block_not_available, chunk_failed, timeout, ...)."@,
        m.call_errors_total.help@ == "Per-call decode or revert failures."@,
        m.last_scrape_success_timestamp.help@
            == "Unix timestamp of the last fully successful scrape."@,
        m.rpc_block_number.help@ == "Block number used at the most recent scrape."@,
        m.calls_total.help@ == "Number of view-function calls planned per scrape."@,
        m.chunks_total.help@
            == "Number of aggregate3 invocations per scrape (calls / max_calls_per_batch, rounded up)."@,
        m.build_info.help@ == "Exporter build information. Constant 1."@,
{
}

/// The labels of the series of a metric's description say what they hold.
pub proof fn definitions_say_what_they_hold(defs: Seq<MetricDef>, i: int)
    requires
        0 <= i < defs.len(),
    ensures
        definitions_view(defs).len() == defs.len(),
        definitions_view(defs)[i].kind == defs[i].kind,
        definitions_view(defs)[i].name == defs[i].name@,
        definitions_view(defs)[i].help == defs[i].help@,
        definitions_view(defs)[i].labels == text::texts(defs[i].labels@),
{
}

} // verus!
