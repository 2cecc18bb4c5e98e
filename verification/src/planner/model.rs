//! What a plan is, stated over the configuration.
//!
//! The configuration gives a sequence of steps: the calls and the metrics it asks for, in order,
//! and what is wrong with it at the place where it is wrong. A plan is made of the steps alone.

use crate::config;
use crate::config::abi;
use crate::config::args;
use crate::config::naming;
use crate::config::validate;
use crate::config::{Config, Contract, Instance, Metric};
use crate::decoder;
use crate::labels;
use crate::metrics;
use crate::multicall;
use crate::outcome;
use crate::planner::error::PlanErrorOf;
use crate::sol;
use crate::text;
use crate::words;
use crate::yaml::YamlValue;
use vstd::prelude::*;

verus! {

/// A metric that the configuration asks for: the call whose return data holds it, where it
/// stands there, its name and help text, its labels, and the contract and function it belongs
/// to.
#[verifier::ext_equal]
pub struct DraftView {
    pub call: multicall::CallView,
    pub decode: decoder::DecodeTargetView,
    pub name: Seq<char>,
    pub help: Seq<char>,
    pub labels: Map<Seq<char>, Seq<char>>,
    pub contract: Seq<char>,
    pub function: Seq<char>,
}

/// A step of the plan.
#[verifier::ext_equal]
pub enum StepView {
    /// The configuration is wrong here.
    Fail(PlanErrorOf<Seq<char>>),
    /// A call is to be made.
    Call(multicall::CallView),
    /// A metric is to be read.
    Draft(DraftView),
}

/// A gauge: its name, its help text and its label keys.
#[verifier::ext_equal]
pub struct GaugeView {
    pub name: Seq<char>,
    pub help: Seq<char>,
    pub label_keys: Seq<Seq<char>>,
}

/// One series of a gauge: the position of its call among the calls and of its gauge among the
/// gauges, and the values of its labels.
#[verifier::ext_equal]
pub struct EntryView {
    pub call_index: int,
    pub gauge_index: int,
    pub decode: decoder::DecodeTargetView,
    pub metric_name: Seq<char>,
    pub label_keys: Seq<Seq<char>>,
    pub label_values: Seq<Seq<char>>,
    pub contract_name: Seq<char>,
    pub function_name: Seq<char>,
    pub address: Seq<u8>,
}

/// A plan: the calls to make, the gauges to register, the series to set, and the number of
/// requests that the calls take.
#[verifier::ext_equal]
pub struct PlanView {
    pub calls: Seq<multicall::CallView>,
    pub gauges: Seq<GaugeView>,
    pub entries: Seq<EntryView>,
    pub chunk_count: int,
}

// The steps of a configuration.

/// How many calls a metric makes.
pub open spec fn subcall_count(m: Metric) -> nat {
    if m.calls@.len() > 0 {
        m.calls@.len()
    } else {
        1
    }
}

/// The arguments of a metric's call.
pub open spec fn subcall_args(m: Metric, k: int) -> Seq<YamlValue> {
    if m.calls@.len() > 0 {
        m.calls@[k].args@
    } else {
        m.args@
    }
}

/// The labels of a metric's call.
pub open spec fn subcall_labels(m: Metric, k: int) -> Map<Seq<char>, Seq<char>> {
    if m.calls@.len() > 0 {
        m.calls@[k].labels@
    } else {
        Map::empty()
    }
}

/// The labels of a series: those of the whole configuration, then the contract's, the
/// instance's and the call's, each over the ones before.
pub open spec fn merged_labels(
    top: Map<Seq<char>, Seq<char>>,
    contract: Map<Seq<char>, Seq<char>>,
    instance: Map<Seq<char>, Seq<char>>,
    call: Map<Seq<char>, Seq<char>>,
) -> Map<Seq<char>, Seq<char>> {
    top.union_prefer_right(contract).union_prefer_right(instance).union_prefer_right(call)
}

/// A name behind a prefix, if there is one.
pub open spec fn prefixed(prefix: Seq<char>, name: Seq<char>) -> Seq<char> {
    if prefix.len() == 0 {
        name
    } else {
        prefix + "_"@ + name
    }
}

/// The step for one output of a call.
pub open spec fn output_step(
    ct: Contract,
    m: Metric,
    f: sol::FunctionView,
    call: multicall::CallView,
    merged: Map<Seq<char>, Seq<char>>,
    name: Seq<char>,
    o: config::OutputView,
) -> StepView {
    let field = if o.field.len() == 0 {
        Ok(None)
    } else {
        match abi::tuple_field(f, o.index, o.field) {
            Ok(k) => Ok(Some(k as usize)),
            Err(error) => Err(error),
        }
    };
    match field {
        Err(error) => StepView::Fail(
            PlanErrorOf::Outputs {
                contract: ct.name@,
                metric: validate::descriptor(m),
                error,
            },
        ),
        Ok(field_index) => StepView::Draft(
            DraftView {
                call,
                decode: decoder::DecodeTargetView {
                    function: f,
                    output_index: o.index,
                    field_index,
                    scale_bits: config::effective_bits(o.scale_bits),
                },
                name: prefixed(config::text_or(ct.metric_prefix@, ct.name@), name),
                help: m.help@,
                labels: merged,
                contract: ct.name@,
                function: m.function@,
            },
        ),
    }
}

/// The steps for the outputs of a call.
pub open spec fn output_steps(
    ct: Contract,
    m: Metric,
    f: sol::FunctionView,
    call: multicall::CallView,
    merged: Map<Seq<char>, Seq<char>>,
) -> Seq<StepView> {
    match naming::inferred_names(m.name@, config::outputs_view(m.outputs@), f) {
        Err(error) => seq![
            StepView::Fail(
                PlanErrorOf::Outputs {
                    contract: ct.name@,
                    metric: validate::descriptor(m),
                    error,
                },
            ),
        ],
        Ok(names) => {
            let outs = naming::selected_outputs(config::outputs_view(m.outputs@), f);
            Seq::new(
                outs.len(),
                |j: int| output_step(ct, m, f, call, merged, names[j], outs[j]),
            )
        },
    }
}

/// The steps for one call of a metric.
pub open spec fn subcall_steps(
    top: Map<Seq<char>, Seq<char>>,
    ct: Contract,
    fs: Seq<sol::FunctionView>,
    inst: Instance,
    target: Seq<u8>,
    m: Metric,
    k: int,
) -> Seq<StepView> {
    let contract = ct.name@;
    let metric = validate::descriptor(m);
    match abi::named_function(fs, m.function@) {
        None => seq![
            StepView::Fail(
                PlanErrorOf::FunctionMissing { contract, metric, function: m.function@ },
            ),
        ],
        Some(i) => match args::converted(fs[i], subcall_args(m, k)) {
            Err(fault) => seq![StepView::Fail(PlanErrorOf::Args { contract, metric, fault })],
            Ok(values) => match sol::packed(fs[i], values) {
                Err(reason) => seq![
                    StepView::Fail(
                        PlanErrorOf::Pack { contract, metric, function: m.function@, reason },
                    ),
                ],
                Ok(call_data) => {
                    let call = multicall::CallView { target, call_data };
                    seq![StepView::Call(call)] + output_steps(
                        ct,
                        m,
                        fs[i],
                        call,
                        merged_labels(top, ct.labels@, inst.labels@, subcall_labels(m, k)),
                    )
                },
            },
        },
    }
}

/// The steps for a metric at one instance.
pub open spec fn metric_steps(
    top: Map<Seq<char>, Seq<char>>,
    ct: Contract,
    fs: Seq<sol::FunctionView>,
    inst: Instance,
    target: Seq<u8>,
    m: Metric,
) -> Seq<StepView> {
    outcome::joined(
        subcall_count(m),
        |k: int| subcall_steps(top, ct, fs, inst, target, m, k),
    )
}

/// The steps for an instance of a contract.
pub open spec fn instance_steps(
    top: Map<Seq<char>, Seq<char>>,
    ct: Contract,
    fs: Seq<sol::FunctionView>,
    inst: Instance,
) -> Seq<StepView> {
    match words::address_bytes(text::trimmed(inst.address@)) {
        None => seq![
            StepView::Fail(PlanErrorOf::Address { contract: ct.name@, address: inst.address@ }),
        ],
        Some(target) => outcome::joined(
            ct.metrics@.len(),
            |i: int| metric_steps(top, ct, fs, inst, target, ct.metrics@[i]),
        ),
    }
}

/// The steps for a contract.
pub open spec fn contract_steps(top: Map<Seq<char>, Seq<char>>, ct: Contract) -> Seq<StepView> {
    match ct.parsed_abi {
        None => seq![StepView::Fail(PlanErrorOf::NoAbi { contract: ct.name@ })],
        Some(parsed) => outcome::joined(
            ct.instances@.len(),
            |i: int| instance_steps(top, ct, parsed@, ct.instances@[i]),
        ),
    }
}

/// The steps of a configuration.
pub open spec fn config_steps(cfg: Config) -> Seq<StepView> {
    outcome::joined(
        cfg.contracts@.len(),
        |i: int| contract_steps(cfg.labels@, cfg.contracts@[i]),
    )
}

// The plan that steps give.

/// The calls of the steps, each once, in the order in which they are first asked for.
pub open spec fn distinct_calls(steps: Seq<StepView>) -> Seq<multicall::CallView>
    decreases steps.len(),
{
    if steps.len() == 0 {
        seq![]
    } else {
        let before = distinct_calls(steps.drop_last());
        match steps.last() {
            StepView::Fail(_) => before,
            StepView::Call(call) => with_call(before, call),
            StepView::Draft(d) => with_call(before, d.call),
        }
    }
}

/// A list of calls with one more, unless it is there already.
pub open spec fn with_call(calls: Seq<multicall::CallView>, call: multicall::CallView) -> Seq<
    multicall::CallView,
> {
    if calls.contains(call) {
        calls
    } else {
        calls.push(call)
    }
}

/// The metrics of the steps, in order.
pub open spec fn drafts(steps: Seq<StepView>) -> Seq<DraftView>
    decreases steps.len(),
{
    if steps.len() == 0 {
        seq![]
    } else {
        let before = drafts(steps.drop_last());
        match steps.last() {
            StepView::Draft(d) => before.push(d),
            _ => before,
        }
    }
}

/// The names of the metrics, each once, in the order in which they first occur.
pub open spec fn distinct_names(ds: Seq<DraftView>) -> Seq<Seq<char>>
    decreases ds.len(),
{
    if ds.len() == 0 {
        seq![]
    } else {
        let before = distinct_names(ds.drop_last());
        if before.contains(ds.last().name) {
            before
        } else {
            before.push(ds.last().name)
        }
    }
}

/// The first help text of a metric that is not empty; empty if there is none.
pub open spec fn help_of(ds: Seq<DraftView>, name: Seq<char>) -> Seq<char>
    decreases ds.len(),
{
    if ds.len() == 0 {
        seq![]
    } else {
        let before = help_of(ds.drop_last(), name);
        if before.len() == 0 && ds.last().name == name {
            ds.last().help
        } else {
            before
        }
    }
}

/// The label keys that occur with a metric.
pub open spec fn keys_of(ds: Seq<DraftView>, name: Seq<char>) -> Set<Seq<char>> {
    Set::new(
        |k: Seq<char>|
            exists|i: int|
                0 <= i < ds.len() && (#[trigger] ds[i]).name == name
                    && ds[i].labels.dom().contains(k),
    )
}

/// Whether a metric's help text contradicts that of an earlier metric of the same name.
pub open spec fn contradicts(ds: Seq<DraftView>, d: DraftView) -> bool {
    &&& d.help.len() > 0
    &&& help_of(ds, d.name).len() > 0
    &&& help_of(ds, d.name) != d.help
}

/// What is wrong at a step.
pub open spec fn step_fault(steps: Seq<StepView>, i: int) -> Option<PlanErrorOf<Seq<char>>> {
    match steps[i] {
        StepView::Fail(e) => Some(e),
        StepView::Call(_) => None,
        StepView::Draft(d) => if contradicts(drafts(steps.take(i)), d) {
            Some(PlanErrorOf::HelpConflict { name: d.name })
        } else {
            None
        },
    }
}

/// The first thing that is wrong with the steps.
pub open spec fn steps_fault(steps: Seq<StepView>) -> Option<PlanErrorOf<Seq<char>>> {
    outcome::first_failure(steps.len(), |i: int| step_fault(steps, i))
}

/// A set of keys in ascending order.
pub open spec fn ordered(keys: Set<Seq<char>>) -> Seq<Seq<char>> {
    choose|q: Seq<Seq<char>>| #[trigger] lists(q, keys)
}

/// Whether a sequence holds the keys of a set in ascending order.
pub open spec fn lists(q: Seq<Seq<char>>, keys: Set<Seq<char>>) -> bool {
    &&& labels::ascending(q)
    &&& forall|k: Seq<char>| #[trigger] q.contains(k) <==> keys.contains(k)
}

/// The label keys of a gauge: those that occur with the metric, in ascending order, then the two
/// that the exporter sets.
pub open spec fn gauge_keys(keys: Set<Seq<char>>) -> Seq<Seq<char>> {
    ordered(keys).push("address"@).push("chain_id"@)
}

/// The help text of a gauge.
pub open spec fn gauge_help(help: Seq<char>, name: Seq<char>) -> Seq<char> {
    if help.len() == 0 {
        "EVM contract metric "@ + name
    } else {
        help
    }
}

/// The gauge of a metric.
pub open spec fn gauge_of(ds: Seq<DraftView>, name: Seq<char>) -> GaugeView {
    GaugeView {
        name,
        help: gauge_help(help_of(ds, name), name),
        label_keys: gauge_keys(keys_of(ds, name)),
    }
}

/// The gauges of all metrics.
pub open spec fn gauges_of(ds: Seq<DraftView>) -> Seq<GaugeView> {
    let names = distinct_names(ds);
    Seq::new(names.len(), |i: int| gauge_of(ds, names[i]))
}

/// What is wrong with a gauge.
pub open spec fn gauge_fault(g: GaugeView) -> Option<PlanErrorOf<Seq<char>>> {
    if metrics::is_describable(g.name, g.help, g.label_keys, Set::empty()) {
        None
    } else {
        Some(
            PlanErrorOf::Gauge {
                name: g.name,
                reason: metrics::description_refusal(g.name, g.help, g.label_keys),
            },
        )
    }
}

/// The value of a label of a series: its address and its chain id, else what is configured, else
/// nothing.
pub open spec fn label_value(d: DraftView, chain_id: u64, key: Seq<char>) -> Seq<char> {
    if key == "address"@ {
        text::hex_text(d.call.target)
    } else if key == "chain_id"@ {
        text::decimal(chain_id as nat)
    } else if d.labels.dom().contains(key) {
        d.labels[key]
    } else {
        seq![]
    }
}

/// The series of a metric.
pub open spec fn entry_of(
    d: DraftView,
    chain_id: u64,
    calls: Seq<multicall::CallView>,
    names: Seq<Seq<char>>,
    keys: Seq<Seq<char>>,
) -> EntryView {
    EntryView {
        call_index: calls.index_of(d.call),
        gauge_index: names.index_of(d.name),
        decode: d.decode,
        metric_name: d.name,
        label_keys: keys,
        label_values: Seq::new(keys.len(), |i: int| label_value(d, chain_id, keys[i])),
        contract_name: d.contract,
        function_name: d.function,
        address: d.call.target,
    }
}

/// The plan that steps without fault give.
pub open spec fn plan_of(steps: Seq<StepView>, chain_id: u64, max_calls: usize) -> PlanView {
    let ds = drafts(steps);
    let calls = distinct_calls(steps);
    let names = distinct_names(ds);
    PlanView {
        calls,
        gauges: gauges_of(ds),
        entries: Seq::new(
            ds.len(),
            |i: int|
                entry_of(ds[i], chain_id, calls, names, gauge_keys(keys_of(ds, ds[i].name))),
        ),
        chunk_count: multicall::chunk_total(calls.len() as int, max_calls as int),
    }
}

/// The plan that steps give, or the first thing that is wrong with them.
pub open spec fn assembled(steps: Seq<StepView>, chain_id: u64, max_calls: usize) -> Result<
    PlanView,
    PlanErrorOf<Seq<char>>,
> {
    match steps_fault(steps) {
        Some(e) => Err(e),
        None => {
            let gauges = gauges_of(drafts(steps));
            match outcome::first_failure(gauges.len(), |i: int| gauge_fault(gauges[i])) {
                Some(e) => Err(e),
                None => Ok(plan_of(steps, chain_id, max_calls)),
            }
        },
    }
}

/// Whether every series of a plan refers to a call and a gauge of the plan: the call goes to the
/// series' address, the gauge has the series' name and label keys, and there is one label value
/// per key.
pub open spec fn is_whole(plan: PlanView) -> bool {
    forall|i: int|
        0 <= i < plan.entries.len() ==> ({
            let e = #[trigger] plan.entries[i];
            &&& 0 <= e.call_index < plan.calls.len()
            &&& plan.calls[e.call_index].target == e.address
            &&& 0 <= e.gauge_index < plan.gauges.len()
            &&& plan.gauges[e.gauge_index].name == e.metric_name
            &&& plan.gauges[e.gauge_index].label_keys == e.label_keys
            &&& e.label_values.len() == e.label_keys.len()
        })
}

/// The plan of a configuration, or the first thing that is wrong with it.
pub open spec fn planned(cfg: Config) -> Result<PlanView, PlanErrorOf<Seq<char>>> {
    assembled(config_steps(cfg), cfg.chain.chain_id, cfg.scrape.max_calls_per_batch)
}

} // verus!
