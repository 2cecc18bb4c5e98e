//! Planning: from a validated configuration to the calls to make and the series to set.

pub mod error;
pub mod facts;
pub mod laws;
pub mod model;

use crate::config;
use crate::config::abi;
use crate::config::args;
use crate::config::naming;
use crate::config::validate;
use crate::config::{Config, Contract, Instance, Metric, Output};
use crate::decoder::DecodeTarget;
use crate::labels::Labels;
use crate::metrics;
use crate::multicall;
use crate::multicall::CallRequest;
use crate::outcome;
use crate::planner::error::{PlanError, PlanErrorOf};
use crate::sol;
use crate::sol::{AbiFunction, JsonAbi};
use crate::text;
use crate::words;
use crate::yaml::YamlValue;
use vstd::prelude::*;

verus! {

/// A metric that the configuration asks for.
#[derive(Debug)]
pub struct Draft {
    pub call: CallRequest,
    pub decode: DecodeTarget,
    pub name: String,
    pub help: String,
    pub labels: Labels,
    pub contract: String,
    pub function: String,
}

impl View for Draft {
    type V = model::DraftView;

    open spec fn view(&self) -> model::DraftView {
        model::DraftView {
            call: self.call@,
            decode: self.decode@,
            name: self.name@,
            help: self.help@,
            labels: self.labels@,
            contract: self.contract@,
            function: self.function@,
        }
    }
}

/// A step of the plan.
#[derive(Debug)]
pub enum Step {
    /// The configuration is wrong here.
    Fail(PlanError),
    /// A call is to be made.
    Call(CallRequest),
    /// A metric is to be read.
    Draft(Draft),
}

impl View for Step {
    type V = model::StepView;

    open spec fn view(&self) -> model::StepView {
        match *self {
            Step::Fail(e) => model::StepView::Fail(e@),
            Step::Call(call) => model::StepView::Call(call@),
            Step::Draft(d) => model::StepView::Draft(d@),
        }
    }
}

/// What a list of steps says.
pub open spec fn steps_view(steps: Seq<Step>) -> Seq<model::StepView> {
    Seq::new(steps.len(), |i: int| steps[i]@)
}

/// One call of a metric.
struct Subcall<'a> {
    args: &'a Vec<YamlValue>,
    labels: Option<&'a Labels>,
}

/// Whether these are the calls of a metric.
spec fn expands(subcalls: Seq<Subcall>, m: Metric) -> bool {
    &&& subcalls.len() == model::subcall_count(m)
    &&& forall|k: int|
        0 <= k < subcalls.len() ==> (#[trigger] subcalls[k]).args@ == model::subcall_args(m, k) && (
        match subcalls[k].labels {
            Some(labels) => labels@,
            None => Map::<Seq<char>, Seq<char>>::empty(),
        }) == model::subcall_labels(m, k)
}

/// The calls of a metric: those it lists, or the single one with its arguments.
fn expand_metric_calls<'a>(m: &'a Metric) -> (r: Vec<Subcall<'a>>)
    ensures
        expands(r@, *m),
{
    let mut out: Vec<Subcall<'a>> = Vec::new();
    if m.calls.len() > 0 {
        for k in 0..m.calls.len()
            invariant
                m.calls@.len() > 0,
                out@.len() == k,
                forall|j: int|
                    0 <= j < k ==> (#[trigger] out@[j]).args@ == m.calls@[j].args@
                        && out@[j].labels is Some && out@[j].labels->0@ == m.calls@[j].labels@,
        {
            out.push(Subcall { args: &m.calls[k].args, labels: Some(&m.calls[k].labels) });
        }
    } else {
        out.push(Subcall { args: &m.args, labels: None });
    }
    out
}

/// A second copy of a call.
fn copy_call(call: &CallRequest) -> (r: CallRequest)
    ensures
        r@ == call@,
{
    CallRequest { target: call.target, call_data: text::copy_bytes(&call.call_data) }
}

/// The names and outputs of a metric's call, one name per output.
fn resolve_outputs(m: &Metric, f: &AbiFunction) -> (r: Result<
    (Vec<String>, Vec<Output>),
    abi::AbiError,
>)
    ensures
        match r {
            Ok((names, outs)) => naming::inferred_names(
                m.name@,
                config::outputs_view(m.outputs@),
                f@,
            ) == Ok::<Seq<Seq<char>>, abi::AbiErrorOf<Seq<char>>>(text::texts(names@))
                && config::outputs_view(outs@) == naming::selected_outputs(
                config::outputs_view(m.outputs@),
                f@,
            ) && names@.len() == outs@.len(),
            Err(e) => naming::inferred_names(m.name@, config::outputs_view(m.outputs@), f@) == Err::<
                Seq<Seq<char>>,
                abi::AbiErrorOf<Seq<char>>,
            >(e@),
        },
{
    match naming::infer_metric_names(m, f) {
        Err(e) => Err(e),
        Ok(names) => {
            let outs = naming::select_outputs(&m.outputs, f);
            proof {
                naming::one_name_per_output(m.name@, config::outputs_view(m.outputs@), f@);
                assert(text::texts(names@).len() == names@.len());
                assert(config::outputs_view(outs@).len() == outs@.len());
            }
            Ok((names, outs))
        },
    }
}

/// Puts a prefix before a name.
fn prefix_name(prefix: &str, name: &str) -> (r: String)
    ensures
        r@ == model::prefixed(prefix@, name@),
{
    if prefix.is_empty() {
        name.to_string()
    } else {
        let mut s = prefix.to_string();
        s.append("_");
        s.append(name);
        s
    }
}

/// The step for one output of a call.
fn plan_output(
    ct: &Contract,
    m: &Metric,
    f: &AbiFunction,
    call: &CallRequest,
    merged: &Labels,
    name: &str,
    o: &Output,
) -> (r: Step)
    ensures
        r@ == model::output_step(*ct, *m, f@, call@, merged@, name@, o@),
{
    let field_index: Option<usize> = if o.field.as_str().is_empty() {
        None
    } else {
        match abi::resolve_tuple_field(f, o.index, o.field.as_str()) {
            Ok((k, _)) => Some(k),
            Err(error) => {
                return Step::Fail(
                    PlanErrorOf::Outputs {
                        contract: ct.name.clone(),
                        metric: validate::metric_descriptor(m),
                        error,
                    },
                );
            },
        }
    };
    Step::Draft(
        Draft {
            call: copy_call(call),
            decode: DecodeTarget {
                function: f.duplicate(),
                output_index: o.index,
                field_index,
                scale_bits: o.effective_scale(),
            },
            name: prefix_name(ct.effective_metric_prefix(), name),
            help: m.help.clone(),
            labels: merged.duplicate(),
            contract: ct.name.clone(),
            function: m.function.clone(),
        },
    )
}

/// Appends the steps for the outputs of a call.
pub fn plan_outputs(
    ct: &Contract,
    m: &Metric,
    f: &AbiFunction,
    call: &CallRequest,
    merged: &Labels,
    out: &mut Vec<Step>,
)
    ensures
        steps_view(final(out)@) == steps_view(old(out)@) + model::output_steps(
            *ct,
            *m,
            f@,
            call@,
            merged@,
        ),
{
    let ghost base = steps_view(out@);
    let ghost want = model::output_steps(*ct, *m, f@, call@, merged@);
    match resolve_outputs(m, f) {
        Err(error) => {
            out.push(
                Step::Fail(
                    PlanErrorOf::Outputs {
                        contract: ct.name.clone(),
                        metric: validate::metric_descriptor(m),
                        error,
                    },
                ),
            );
            assert(steps_view(out@) =~= base + want);
        },
        Ok((names, outs)) => {
            assert(steps_view(out@) =~= base + want.take(0));
            for j in 0..outs.len()
                invariant
                    names@.len() == outs@.len(),
                    want.len() == outs@.len(),
                    forall|i: int|
                        0 <= i < outs@.len() ==> #[trigger] want[i] == model::output_step(
                            *ct,
                            *m,
                            f@,
                            call@,
                            merged@,
                            names@[i]@,
                            outs@[i]@,
                        ),
                    steps_view(out@) == base + want.take(j as int),
            {
                let ghost before = out@;
                let step = plan_output(ct, m, f, call, merged, names[j].as_str(), &outs[j]);
                out.push(step);
                proof {
                    assert(want.take(j + 1) =~= want.take(j as int).push(want[j as int]));
                    assert(steps_view(out@) =~= steps_view(before).push(step@));
                    assert(steps_view(out@) =~= base + want.take(j + 1));
                }
            }
            assert(want.take(outs@.len() as int) =~= want);
        },
    }
}

/// Merges the labels of a series, later ones over earlier ones.
fn merge_labels(top: &Labels, ct: &Contract, inst: &Instance, call: Option<&Labels>) -> (r: Labels)
    ensures
        r@ == model::merged_labels(
            top@,
            ct.labels@,
            inst.labels@,
            match call {
                Some(labels) => labels@,
                None => Map::empty(),
            },
        ),
{
    let mut merged = top.duplicate();
    merged.overlay(&ct.labels);
    merged.overlay(&inst.labels);
    match call {
        Some(labels) => merged.overlay(labels),
        None => {
            assert(merged@ =~= merged@.union_prefer_right(Map::empty()));
        },
    }
    merged
}

/// Appends the steps for one call of a metric.
fn plan_subcall(
    top: &Labels,
    ct: &Contract,
    parsed: &JsonAbi,
    inst: &Instance,
    target: &[u8; 20],
    m: &Metric,
    subcalls: &Vec<Subcall>,
    k: usize,
    out: &mut Vec<Step>,
)
    requires
        expands(subcalls@, *m),
        k < subcalls@.len(),
    ensures
        steps_view(final(out)@) == steps_view(old(out)@) + model::subcall_steps(
            top@,
            *ct,
            parsed@,
            *inst,
            target@,
            *m,
            k as int,
        ),
{
    let ghost base = steps_view(out@);
    let ghost want = model::subcall_steps(top@, *ct, parsed@, *inst, target@, *m, k as int);
    let sc = &subcalls[k];
    let contract = ct.name.clone();
    let metric = validate::metric_descriptor(m);
    let f = match abi::find_function(parsed, m.function.as_str()) {
        None => {
            out.push(
                Step::Fail(
                    PlanErrorOf::FunctionMissing {
                        contract,
                        metric,
                        function: m.function.clone(),
                    },
                ),
            );
            assert(steps_view(out@) =~= base + want);
            return;
        },
        Some(f) => f,
    };
    let values = match args::convert_args(f, sc.args) {
        Err(fault) => {
            out.push(Step::Fail(PlanErrorOf::Args { contract, metric, fault }));
            assert(steps_view(out@) =~= base + want);
            return;
        },
        Ok(values) => values,
    };
    let call_data = match sol::encode_input(f, &values) {
        Err(reason) => {
            out.push(
                Step::Fail(
                    PlanErrorOf::Pack { contract, metric, function: m.function.clone(), reason },
                ),
            );
            assert(steps_view(out@) =~= base + want);
            return;
        },
        Ok(data) => data,
    };
    let call = CallRequest { target: *target, call_data };
    let merged = merge_labels(top, ct, inst, sc.labels);
    out.push(Step::Call(copy_call(&call)));
    assert(steps_view(out@) =~= base + seq![model::StepView::Call(call@)]);
    plan_outputs(ct, m, f, &call, &merged, out);
    assert(steps_view(out@) =~= base + want);
}

/// Appends the steps for a metric at one instance.
fn plan_metric(
    top: &Labels,
    ct: &Contract,
    parsed: &JsonAbi,
    inst: &Instance,
    target: &[u8; 20],
    m: &Metric,
    out: &mut Vec<Step>,
)
    ensures
        steps_view(final(out)@) == steps_view(old(out)@) + model::metric_steps(
            top@,
            *ct,
            parsed@,
            *inst,
            target@,
            *m,
        ),
{
    let ghost base = steps_view(out@);
    let ghost at = |k: int| model::subcall_steps(top@, *ct, parsed@, *inst, target@, *m, k);
    let subcalls = expand_metric_calls(m);
    assert(base =~= base + outcome::joined(0, at));
    for k in 0..subcalls.len()
        invariant
            expands(subcalls@, *m),
            at == (|k: int| model::subcall_steps(top@, *ct, parsed@, *inst, target@, *m, k)),
            steps_view(out@) == base + outcome::joined(k as nat, at),
    {
        plan_subcall(top, ct, parsed, inst, target, m, &subcalls, k, out);
        assert(steps_view(out@) =~= base + outcome::joined((k + 1) as nat, at));
    }
}

/// Appends the steps for an instance of a contract.
fn plan_instance(top: &Labels, ct: &Contract, parsed: &JsonAbi, inst: &Instance, out: &mut Vec<Step>)
    ensures
        steps_view(final(out)@) == steps_view(old(out)@) + model::instance_steps(
            top@,
            *ct,
            parsed@,
            *inst,
        ),
{
    let ghost base = steps_view(out@);
    match words::parse_address_text(inst.address.as_str().trim()) {
        Err(_) => {
            out.push(
                Step::Fail(
                    PlanErrorOf::Address {
                        contract: ct.name.clone(),
                        address: inst.address.clone(),
                    },
                ),
            );
            assert(steps_view(out@) =~= base + model::instance_steps(top@, *ct, parsed@, *inst));
        },
        Ok(target) => {
            let ghost at = |i: int|
                model::metric_steps(top@, *ct, parsed@, *inst, target@, ct.metrics@[i]);
            assert(base =~= base + outcome::joined(0, at));
            for i in 0..ct.metrics.len()
                invariant
                    at == (|i: int|
                        model::metric_steps(top@, *ct, parsed@, *inst, target@, ct.metrics@[i])),
                    steps_view(out@) == base + outcome::joined(i as nat, at),
            {
                plan_metric(top, ct, parsed, inst, &target, &ct.metrics[i], out);
                assert(steps_view(out@) =~= base + outcome::joined((i + 1) as nat, at));
            }
        },
    }
}

/// Appends the steps for a contract.
fn plan_contract(top: &Labels, ct: &Contract, out: &mut Vec<Step>)
    ensures
        steps_view(final(out)@) == steps_view(old(out)@) + model::contract_steps(top@, *ct),
{
    let ghost base = steps_view(out@);
    match &ct.parsed_abi {
        None => {
            out.push(Step::Fail(PlanErrorOf::NoAbi { contract: ct.name.clone() }));
            assert(steps_view(out@) =~= base + model::contract_steps(top@, *ct));
        },
        Some(parsed) => {
            let ghost at = |i: int| model::instance_steps(top@, *ct, parsed@, ct.instances@[i]);
            assert(base =~= base + outcome::joined(0, at));
            for i in 0..ct.instances.len()
                invariant
                    at == (|i: int|
                        model::instance_steps(top@, *ct, parsed@, ct.instances@[i])),
                    steps_view(out@) == base + outcome::joined(i as nat, at),
            {
                plan_instance(top, ct, parsed, &ct.instances[i], out);
                assert(steps_view(out@) =~= base + outcome::joined((i + 1) as nat, at));
            }
        },
    }
}

/// The steps of a configuration, contract by contract, instance by instance, metric by metric
/// and call by call.
pub fn collect_steps(cfg: &Config) -> (r: Vec<Step>)
    ensures
        steps_view(r@) == model::config_steps(*cfg),
{
    let mut out: Vec<Step> = Vec::new();
    let ghost at = |i: int| model::contract_steps(cfg.labels@, cfg.contracts@[i]);
    assert(steps_view(out@) =~= outcome::joined(0, at));
    for i in 0..cfg.contracts.len()
        invariant
            at == (|i: int| model::contract_steps(cfg.labels@, cfg.contracts@[i])),
            steps_view(out@) == outcome::joined(i as nat, at),
    {
        plan_contract(&cfg.labels, &cfg.contracts[i], &mut out);
    }
    out
}

/// A gauge to register: its name, its help text and its label keys.
#[derive(Debug)]
pub struct GaugeSpec {
    pub name: String,
    pub help: String,
    pub label_keys: Vec<String>,
}

impl View for GaugeSpec {
    type V = model::GaugeView;

    open spec fn view(&self) -> model::GaugeView {
        model::GaugeView {
            name: self.name@,
            help: self.help@,
            label_keys: text::texts(self.label_keys@),
        }
    }
}

/// One series of a gauge, set once per scrape.
#[derive(Debug)]
pub struct Entry {
    /// The position of the call among the plan's calls.
    pub call_index: usize,
    /// The position of the gauge among the plan's gauges.
    pub gauge_index: usize,
    pub decode: DecodeTarget,
    pub metric_name: String,
    pub label_keys: Vec<String>,
    pub label_values: Vec<String>,
    pub contract_name: String,
    pub function_name: String,
    pub address: [u8; 20],
}

impl View for Entry {
    type V = model::EntryView;

    open spec fn view(&self) -> model::EntryView {
        model::EntryView {
            call_index: self.call_index as int,
            gauge_index: self.gauge_index as int,
            decode: self.decode@,
            metric_name: self.metric_name@,
            label_keys: text::texts(self.label_keys@),
            label_values: text::texts(self.label_values@),
            contract_name: self.contract_name@,
            function_name: self.function_name@,
            address: self.address@,
        }
    }
}

impl Entry {
    /// The label keys of the series' gauge, in the order in which they are registered.
    pub fn gauge_label_keys(&self) -> (r: Vec<String>)
        ensures
            text::texts(r@) == self@.label_keys,
    {
        text::copy_texts(&self.label_keys)
    }
}

/// What to do at every scrape.
#[derive(Debug)]
pub struct Plan {
    pub calls: Vec<CallRequest>,
    pub gauges: Vec<GaugeSpec>,
    pub entries: Vec<Entry>,
    pub chunk_count: usize,
}

/// What a list of gauges says.
pub open spec fn gauges_view(gauges: Seq<GaugeSpec>) -> Seq<model::GaugeView> {
    Seq::new(gauges.len(), |i: int| gauges[i]@)
}

/// What a list of series says.
pub open spec fn entries_view(entries: Seq<Entry>) -> Seq<model::EntryView> {
    Seq::new(entries.len(), |i: int| entries[i]@)
}

impl View for Plan {
    type V = model::PlanView;

    open spec fn view(&self) -> model::PlanView {
        model::PlanView {
            calls: multicall::calls_view(self.calls@),
            gauges: gauges_view(self.gauges@),
            entries: entries_view(self.entries@),
            chunk_count: self.chunk_count as int,
        }
    }
}

/// What is known of a metric so far: its help text and the keys of its labels.
struct Schema {
    name: String,
    help: String,
    keys: Labels,
}

/// What the steps so far have given: the distinct calls, the metrics by name, and for each
/// series the step it comes from and the positions of its call and its metric.
struct Builder {
    calls: Vec<CallRequest>,
    schemas: Vec<Schema>,
    series: Vec<(usize, usize, usize)>,
}

/// The names of the metrics so far.
spec fn schema_names(schemas: Seq<Schema>) -> Seq<Seq<char>> {
    Seq::new(schemas.len(), |i: int| schemas[i].name@)
}

/// Whether the metrics so far are those of the drafts.
spec fn knows(schemas: Seq<Schema>, ds: Seq<model::DraftView>) -> bool {
    &&& schema_names(schemas) == model::distinct_names(ds)
    &&& forall|k: int|
        #![trigger schemas[k]]
        0 <= k < schemas.len() ==> schemas[k].help@ == model::help_of(ds, schemas[k].name@)
            && schemas[k].keys@.dom() == model::keys_of(ds, schemas[k].name@)
}

/// Whether a series comes from the step and has the call and the metric that it says.
spec fn is_series(
    one: (usize, usize, usize),
    steps: Seq<Step>,
    calls: Seq<multicall::CallView>,
    names: Seq<Seq<char>>,
    d: model::DraftView,
) -> bool {
    &&& one.0 < steps.len()
    &&& steps[one.0 as int] is Draft
    &&& steps[one.0 as int]->Draft_0@ == d
    &&& one.1 < calls.len()
    &&& calls[one.1 as int] == d.call
    &&& one.2 < names.len()
    &&& names[one.2 as int] == d.name
}

/// Whether a builder holds what the first `n` steps give.
spec fn tracks(b: Builder, steps: Seq<Step>, n: int) -> bool {
    let s = steps_view(steps).take(n);
    let ds = model::drafts(s);
    &&& multicall::calls_view(b.calls@) == model::distinct_calls(s)
    &&& knows(b.schemas@, ds)
    &&& b.series@.len() == ds.len()
    &&& forall|j: int|
        0 <= j < ds.len() ==> is_series(
            #[trigger] b.series@[j],
            steps,
            model::distinct_calls(s),
            model::distinct_names(ds),
            ds[j],
        )
}

/// Whether two calls go to the same address with the same data.
fn same_call(a: &CallRequest, b: &CallRequest) -> (r: bool)
    ensures
        r == (a@ == b@),
{
    let t = text::same_bytes(&a.target, &b.target);
    let d = text::same_bytes(a.call_data.as_slice(), b.call_data.as_slice());
    t && d
}

impl Builder {
    /// The position of a call among the distinct calls, where it is put if it is new.
    fn note_call(&mut self, call: &CallRequest) -> (r: usize)
        ensures
            multicall::calls_view(final(self).calls@) == model::with_call(
                multicall::calls_view(old(self).calls@),
                call@,
            ),
            r < final(self).calls@.len(),
            final(self).calls@[r as int]@ == call@,
            final(self).schemas == old(self).schemas,
            final(self).series == old(self).series,
    {
        let n: usize = self.calls.len();
        for i in 0..n
            invariant
                n == self.calls@.len(),
                *self == *old(self),
                forall|j: int| 0 <= j < i ==> (#[trigger] self.calls@[j])@ != call@,
        {
            if same_call(&self.calls[i], call) {
                proof {
                    assert(multicall::calls_view(self.calls@)[i as int] == call@);
                    assert(multicall::calls_view(self.calls@).contains(call@));
                }
                return i;
            }
        }
        let ghost before = multicall::calls_view(self.calls@);
        assert(!before.contains(call@)) by {
            if before.contains(call@) {
                let k = before.index_of(call@);
                assert(self.calls@[k]@ == call@);
            }
        }
        self.calls.push(copy_call(call));
        assert(multicall::calls_view(self.calls@) =~= before.push(call@));
        n
    }

    /// The position of a metric among the metrics so far.
    fn find_schema(&self, name: &str) -> (r: Option<usize>)
        ensures
            match r {
                Some(k) => k < self.schemas@.len() && self.schemas@[k as int].name@ == name@,
                None => !schema_names(self.schemas@).contains(name@),
            },
    {
        for i in 0..self.schemas.len()
            invariant
                forall|j: int| 0 <= j < i ==> (#[trigger] self.schemas@[j]).name@ != name@,
        {
            if text::same(self.schemas[i].name.as_str(), name) {
                return Some(i);
            }
        }
        proof {
            let names = schema_names(self.schemas@);
            if names.contains(name@) {
                let k = names.index_of(name@);
                assert(self.schemas@[k].name@ == name@);
            }
        }
        None
    }

    /// Adds the help text and the label keys of a draft to its metric, and gives the metric's
    /// position. Refuses a help text that contradicts an earlier one.
    fn note_metric(&mut self, d: &Draft, Ghost(ds): Ghost<Seq<model::DraftView>>) -> (r: Result<
        usize,
        PlanError,
    >)
        requires
            knows(old(self).schemas@, ds),
        ensures
            final(self).calls == old(self).calls,
            final(self).series == old(self).series,
            match r {
                Ok(k) => !model::contradicts(ds, d@) && knows(final(self).schemas@, ds.push(d@))
                    && k < final(self).schemas@.len() && final(self).schemas@[k as int].name@
                    == d.name@,
                Err(e) => model::contradicts(ds, d@) && e@ == (PlanErrorOf::HelpConflict {
                    name: d.name@,
                }),
            },
    {
        let ghost before = self.schemas@;
        let ghost all = ds.push(d@);
        proof {
            facts::lemma_names_distinct(ds);
            assert(all.drop_last() =~= ds);
            assert forall|name: Seq<char>| true implies #[trigger] model::keys_of(all, name) == (
            if d.name@ == name {
                model::keys_of(ds, name).union(d.labels@.dom())
            } else {
                model::keys_of(ds, name)
            }) by {
                facts::lemma_keys_push(ds, d@, name);
            }
        }
        match self.find_schema(d.name.as_str()) {
            Some(k) => {
                assert(schema_names(before)[k as int] == d.name@);
                assert(schema_names(before).contains(d.name@));
                let schema = &self.schemas[k];
                if !d.help.as_str().is_empty() && !schema.help.as_str().is_empty() && !text::same(
                    schema.help.as_str(),
                    d.help.as_str(),
                ) {
                    return Err(PlanErrorOf::HelpConflict { name: d.name.clone() });
                }
                if self.schemas[k].help.as_str().is_empty() {
                    self.schemas[k].help = d.help.clone();
                }
                self.schemas[k].keys.overlay(&d.labels);
                proof {
                    assert(schema_names(self.schemas@) =~= schema_names(before));
                    assert forall|i: int|
                        #![trigger self.schemas@[i]]
                        0 <= i < self.schemas@.len() implies self.schemas@[i].help@
                        == model::help_of(all, self.schemas@[i].name@)
                        && self.schemas@[i].keys@.dom() == model::keys_of(
                        all,
                        self.schemas@[i].name@,
                    ) by {
                        assert(self.schemas@[i].name@ == before[i].name@);
                        if i == k {
                            assert(self.schemas@[i].keys@.dom() =~= before[i].keys@.dom().union(
                                d.labels@.dom(),
                            ));
                        } else {
                            assert(schema_names(before)[i] != schema_names(before)[k as int]);
                            assert(self.schemas@[i] == before[i]);
                        }
                    }
                }
                Ok(k)
            },
            None => {
                let n: usize = self.schemas.len();
                self.schemas.push(
                    Schema {
                        name: d.name.clone(),
                        help: d.help.clone(),
                        keys: d.labels.duplicate(),
                    },
                );
                proof {
                    assert(schema_names(self.schemas@) =~= schema_names(before).push(d.name@));
                    assert forall|i: int| 0 <= i < ds.len() implies (#[trigger] ds[i]).name
                        != d.name@ by {
                        assert(model::distinct_names(ds).contains(ds[i].name));
                    }
                    facts::lemma_no_help(ds, d.name@);
                    assert(model::keys_of(ds, d.name@) =~= Set::empty());
                    assert forall|i: int|
                        #![trigger self.schemas@[i]]
                        0 <= i < self.schemas@.len() implies self.schemas@[i].help@
                        == model::help_of(all, self.schemas@[i].name@)
                        && self.schemas@[i].keys@.dom() == model::keys_of(
                        all,
                        self.schemas@[i].name@,
                    ) by {
                        if i == n {
                            assert(self.schemas@[i].keys@.dom() =~= model::keys_of(
                                ds,
                                d.name@,
                            ).union(d.labels@.dom()));
                        } else {
                            assert(self.schemas@[i] == before[i]);
                            assert(schema_names(before)[i] == before[i].name@);
                            assert(schema_names(before).contains(before[i].name@));
                        }
                    }
                }
                Ok(n)
            },
        }
    }

    /// Takes up the next step, or gives what is wrong with it.
    fn note_step(&mut self, steps: &Vec<Step>, i: usize) -> (r: Result<(), PlanError>)
        requires
            i < steps@.len(),
            steps@[i as int] !is Fail,
            tracks(*old(self), steps@, i as int),
        ensures
            match r {
                Ok(()) => model::step_fault(steps_view(steps@), i as int) is None && tracks(
                    *final(self),
                    steps@,
                    i + 1,
                ),
                Err(e) => model::step_fault(steps_view(steps@), i as int) == Some(e@),
            },
    {
        let ghost s = steps_view(steps@);
        proof {
            facts::lemma_take_next(s, i as int);
        }
        match &steps[i] {
            Step::Fail(_) => Ok(()),
            Step::Call(call) => {
                self.note_call(call);
                proof {
                    let ds = model::drafts(s.take(i as int));
                    assert(model::drafts(s.take(i + 1)) == ds);
                    assert forall|j: int| 0 <= j < ds.len() implies is_series(
                        #[trigger] self.series@[j],
                        steps@,
                        model::distinct_calls(s.take(i + 1)),
                        model::distinct_names(ds),
                        ds[j],
                    ) by {
                        assert(self.series@[j] == old(self).series@[j]);
                    }
                }
                Ok(())
            },
            Step::Draft(d) => {
                let ghost ds = model::drafts(s.take(i as int));
                let gauge_index = match self.note_metric(d, Ghost(ds)) {
                    Err(e) => {
                        return Err(e);
                    },
                    Ok(k) => k,
                };
                let call_index = self.note_call(&d.call);
                self.series.push((i, call_index, gauge_index));
                proof {
                    assert(model::drafts(s.take(i + 1)) == ds.push(d@));
                    let names = model::distinct_names(ds.push(d@));
                    let calls = model::distinct_calls(s.take(i + 1));
                    assert(ds.push(d@).drop_last() =~= ds);
                    assert(schema_names(self.schemas@)[gauge_index as int] == d.name@);
                    assert(calls[call_index as int] == d.call@);
                    assert forall|j: int| 0 <= j < ds.push(d@).len() implies is_series(
                        #[trigger] self.series@[j],
                        steps@,
                        calls,
                        names,
                        ds.push(d@)[j],
                    ) by {
                        if j < ds.len() {
                            assert(self.series@[j] == old(self).series@[j]);
                        }
                    }
                }
                Ok(())
            },
        }
    }
}

/// The label keys of a gauge, in order.
fn list_keys(keys: &Labels) -> (r: Vec<String>)
    ensures
        text::texts(r@) == model::gauge_keys(keys@.dom()),
{
    let mut out: Vec<String> = Vec::new();
    let n: usize = keys.len();
    for i in 0..n
        invariant
            n == keys.key_seq().len(),
            out@.len() == i,
            forall|j: int| 0 <= j < i ==> (#[trigger] out@[j])@ == keys.key_seq()[j],
    {
        out.push(keys.key(i).clone());
    }
    proof {
        assert(model::lists(keys.key_seq(), keys@.dom()));
        facts::lemma_ordered(keys.key_seq(), keys@.dom());
    }
    out.push("address".to_string());
    out.push("chain_id".to_string());
    assert(text::texts(out@) =~= model::gauge_keys(keys@.dom()));
    out
}

/// The gauge of a metric.
fn make_gauge(schema: &Schema) -> (r: GaugeSpec)
    ensures
        r@ == (model::GaugeView {
            name: schema.name@,
            help: model::gauge_help(schema.help@, schema.name@),
            label_keys: model::gauge_keys(schema.keys@.dom()),
        }),
{
    let help = if schema.help.as_str().is_empty() {
        let mut s = "EVM contract metric ".to_string();
        s.append(schema.name.as_str());
        s
    } else {
        schema.help.clone()
    };
    GaugeSpec { name: schema.name.clone(), help, label_keys: list_keys(&schema.keys) }
}

/// Checks that a gauge can be described to Prometheus.
fn check_gauge(g: &GaugeSpec) -> (r: Result<(), PlanError>)
    ensures
        match r {
            Ok(()) => model::gauge_fault(g@) is None,
            Err(e) => model::gauge_fault(g@) == Some(e@),
        },
{
    let none: Vec<(String, String)> = Vec::new();
    assert(metrics::label_keys(none@) =~= Set::empty());
    match metrics::describe(g.name.as_str(), g.help.as_str(), &g.label_keys, &none) {
        Ok(()) => Ok(()),
        Err(reason) => Err(PlanErrorOf::Gauge { name: g.name.clone(), reason }),
    }
}

/// The value of a label of a series.
fn label_text(d: &Draft, chain_id: u64, key: &str) -> (r: String)
    ensures
        r@ == model::label_value(d@, chain_id, key@),
{
    if text::same(key, "address") {
        text::prefixed_hex(&d.call.target)
    } else if text::same(key, "chain_id") {
        text::decimal_text(chain_id)
    } else {
        match d.labels.get(key) {
            Some(v) => v.clone(),
            None => String::new(),
        }
    }
}

/// The series of a metric.
fn make_entry(
    d: &Draft,
    chain_id: u64,
    call_index: usize,
    gauge_index: usize,
    keys: &Vec<String>,
) -> (r: Entry)
    ensures
        r@ == (model::EntryView {
            call_index: call_index as int,
            gauge_index: gauge_index as int,
            decode: d.decode@,
            metric_name: d.name@,
            label_keys: text::texts(keys@),
            label_values: Seq::new(
                keys@.len(),
                |i: int| model::label_value(d@, chain_id, text::texts(keys@)[i]),
            ),
            contract_name: d.contract@,
            function_name: d.function@,
            address: d.call.target@,
        }),
{
    let mut values: Vec<String> = Vec::new();
    for i in 0..keys.len()
        invariant
            values@.len() == i,
            forall|j: int|
                0 <= j < i ==> (#[trigger] values@[j])@ == model::label_value(
                    d@,
                    chain_id,
                    keys@[j]@,
                ),
    {
        values.push(label_text(d, chain_id, keys[i].as_str()));
    }
    assert(text::texts(values@) =~= Seq::new(
        keys@.len(),
        |i: int| model::label_value(d@, chain_id, text::texts(keys@)[i]),
    ));
    Entry {
        call_index,
        gauge_index,
        decode: DecodeTarget {
            function: d.decode.function.duplicate(),
            output_index: d.decode.output_index,
            field_index: d.decode.field_index,
            scale_bits: d.decode.scale_bits,
        },
        metric_name: d.name.clone(),
        label_keys: text::copy_texts(keys),
        label_values: values,
        contract_name: d.contract.clone(),
        function_name: d.function.clone(),
        address: d.call.target,
    }
}

/// The gauges of the metrics.
fn make_gauges(b: &Builder, Ghost(ds): Ghost<Seq<model::DraftView>>) -> (r: Result<
    Vec<GaugeSpec>,
    PlanError,
>)
    requires
        knows(b.schemas@, ds),
    ensures
        ({
            let gauges = model::gauges_of(ds);
            let fault = outcome::first_failure(
                gauges.len(),
                |i: int| model::gauge_fault(gauges[i]),
            );
            match r {
                Ok(gs) => fault is None && gauges_view(gs@) == gauges,
                Err(e) => fault == Some(e@),
            }
        }),
{
    let ghost gauges = model::gauges_of(ds);
    let ghost at = |i: int| model::gauge_fault(gauges[i]);
    let mut out: Vec<GaugeSpec> = Vec::new();
    for i in 0..b.schemas.len()
        invariant
            knows(b.schemas@, ds),
            gauges == model::gauges_of(ds),
            at == (|i: int| model::gauge_fault(gauges[i])),
            out@.len() == i,
            forall|j: int| 0 <= j < i ==> (#[trigger] out@[j])@ == gauges[j],
            outcome::first_failure(i as nat, at) is None,
    {
        assert(schema_names(b.schemas@)[i as int] == b.schemas@[i as int].name@);
        let g = make_gauge(&b.schemas[i]);
        assert(g@ == gauges[i as int]);
        match check_gauge(&g) {
            Ok(()) => {},
            Err(e) => {
                proof {
                    assert(outcome::first_failure((i + 1) as nat, at) == Some(e@));
                    assert(schema_names(b.schemas@).len() == b.schemas@.len());
                    outcome::lemma_first_failure_stays((i + 1) as nat, gauges.len(), at);
                }
                return Err(e);
            },
        }
        out.push(g);
    }
    proof {
        assert(schema_names(b.schemas@).len() == b.schemas@.len());
        assert(gauges_view(out@) =~= gauges);
    }
    Ok(out)
}

/// The series of the metrics.
fn make_entries(
    b: &Builder,
    steps: &Vec<Step>,
    gauges: &Vec<GaugeSpec>,
    chain_id: u64,
    max_calls: usize,
) -> (r: Vec<Entry>)
    requires
        tracks(*b, steps@, steps@.len() as int),
        gauges_view(gauges@) == model::gauges_of(model::drafts(steps_view(steps@))),
    ensures
        entries_view(r@) == model::plan_of(steps_view(steps@), chain_id, max_calls).entries,
{
    let ghost s = steps_view(steps@);
    let ghost ds = model::drafts(s);
    let ghost calls = model::distinct_calls(s);
    let ghost names = model::distinct_names(ds);
    let ghost want = model::plan_of(s, chain_id, max_calls).entries;
    proof {
        assert(s.take(steps@.len() as int) =~= s);
        facts::lemma_calls_distinct(s);
        facts::lemma_names_distinct(ds);
        assert(gauges_view(gauges@).len() == gauges@.len());
    }
    let mut out: Vec<Entry> = Vec::new();
    for j in 0..b.series.len()
        invariant
            s == steps_view(steps@),
            ds == model::drafts(s),
            calls == model::distinct_calls(s),
            names == model::distinct_names(ds),
            want == model::plan_of(s, chain_id, max_calls).entries,
            s.take(steps@.len() as int) == s,
            calls.no_duplicates(),
            names.no_duplicates(),
            gauges@.len() == names.len(),
            gauges_view(gauges@) == model::gauges_of(ds),
            tracks(*b, steps@, steps@.len() as int),
            out@.len() == j,
            forall|k: int| 0 <= k < j ==> (#[trigger] out@[k])@ == want[k],
    {
        let (step, call_index, gauge_index) = b.series[j];
        assert(is_series(b.series@[j as int], steps@, calls, names, ds[j as int]));
        match &steps[step] {
            Step::Draft(d) => {
                proof {
                    facts::lemma_index_of(calls, call_index as int);
                    facts::lemma_index_of(names, gauge_index as int);
                    assert(gauges_view(gauges@)[gauge_index as int]
                        == gauges@[gauge_index as int]@);
                }
                let e = make_entry(
                    d,
                    chain_id,
                    call_index,
                    gauge_index,
                    &gauges[gauge_index].label_keys,
                );
                assert(e@.label_values =~= want[j as int].label_values);
                assert(e@ == want[j as int]);
                out.push(e);
            },
            _ => {},
        }
    }
    assert(entries_view(out@) =~= want);
    out
}

/// Puts a plan together from its steps: each call once, a gauge per metric name with all label
/// keys that occur with it, and a series per metric.
pub fn assemble(steps: Vec<Step>, chain_id: u64, max_calls_per_batch: usize) -> (r: Result<
    Plan,
    PlanError,
>)
    ensures
        match r {
            Ok(plan) => model::assembled(steps_view(steps@), chain_id, max_calls_per_batch) == Ok::<
                model::PlanView,
                PlanErrorOf<Seq<char>>,
            >(plan@) && model::is_whole(plan@),
            Err(e) => model::assembled(steps_view(steps@), chain_id, max_calls_per_batch) == Err::<
                model::PlanView,
                PlanErrorOf<Seq<char>>,
            >(e@),
        },
{
    let ghost s = steps_view(steps@);
    let ghost at = |i: int| model::step_fault(s, i);
    let mut rest = steps;
    let mut b = Builder { calls: Vec::new(), schemas: Vec::new(), series: Vec::new() };
    proof {
        assert(s.take(0) =~= seq![]);
        assert(multicall::calls_view(b.calls@) =~= seq![]);
        assert(schema_names(b.schemas@) =~= seq![]);
    }
    let n: usize = rest.len();
    for i in 0..n
        invariant
            n == rest@.len(),
            s == steps_view(steps@),
            s == steps_view(rest@),
            at == (|i: int| model::step_fault(s, i)),
            tracks(b, rest@, i as int),
            outcome::first_failure(i as nat, at) is None,
    {
        let failed = match &rest[i] {
            Step::Fail(_) => true,
            _ => false,
        };
        assert(s[i as int] == rest@[i as int]@);
        if failed {
            let step = rest.remove(i);
            match step {
                Step::Fail(e) => {
                    proof {
                        assert(outcome::first_failure((i + 1) as nat, at) == Some(e@));
                        outcome::lemma_first_failure_stays((i + 1) as nat, n as nat, at);
                    }
                    return Err(e);
                },
                _ => {
                    assert(false);
                },
            }
        }
        match b.note_step(&rest, i) {
            Ok(()) => {},
            Err(e) => {
                proof {
                    assert(outcome::first_failure((i + 1) as nat, at) == Some(e@));
                    outcome::lemma_first_failure_stays((i + 1) as nat, n as nat, at);
                }
                return Err(e);
            },
        }
    }
    assert(s.take(n as int) =~= s);
    let gauges = match make_gauges(&b, Ghost(model::drafts(s))) {
        Err(e) => {
            return Err(e);
        },
        Ok(gauges) => gauges,
    };
    let entries = make_entries(&b, &rest, &gauges, chain_id, max_calls_per_batch);
    let chunk_count = multicall::chunk_count(b.calls.len(), max_calls_per_batch);
    proof {
        assert(multicall::calls_view(b.calls@).len() == b.calls@.len());
        facts::lemma_plan_is_whole(s, chain_id, max_calls_per_batch);
    }
    Ok(Plan { calls: b.calls, gauges, entries, chunk_count })
}

/// Makes the plan of a configuration whose interfaces have been read.
pub fn build(cfg: &Config) -> (r: Result<Plan, PlanError>)
    ensures
        match r {
            Ok(plan) => model::planned(*cfg) == Ok::<model::PlanView, PlanErrorOf<Seq<char>>>(plan@)
                && model::is_whole(plan@),
            Err(e) => model::planned(*cfg) == Err::<model::PlanView, PlanErrorOf<Seq<char>>>(e@),
        },
{
    let steps = collect_steps(cfg);
    assemble(steps, cfg.chain.chain_id, cfg.scrape.max_calls_per_batch)
}

} // verus!
