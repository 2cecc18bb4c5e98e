//! What a plan owes to its configuration.

use crate::config;
use crate::config::abi;
use crate::config::args;
use crate::config::naming;
use crate::config::{Config, Contract};
use crate::metrics;
use crate::multicall;
use crate::outcome;
use crate::planner::error::PlanErrorOf;
use crate::planner::facts;
use crate::planner::model;
use crate::planner::Plan;
use crate::sol;
use crate::text;
use crate::words;
use vstd::prelude::*;

verus! {

/// A place of the configuration: the positions of a contract, of one of its instances, of one of
/// its metrics, of one of the metric's calls and of one of its outputs.
pub struct Place {
    pub contract: int,
    pub instance: int,
    pub metric: int,
    pub call: int,
    pub output: int,
}

/// Whether a configuration has a contract, an instance, a metric and a call at a place. A metric
/// that lists no calls makes one.
pub open spec fn has_call(cfg: Config, at: Place) -> bool {
    &&& 0 <= at.contract < cfg.contracts@.len()
    &&& 0 <= at.instance < cfg.contracts@[at.contract].instances@.len()
    &&& 0 <= at.metric < cfg.contracts@[at.contract].metrics@.len()
    &&& 0 <= at.call
    &&& at.call < cfg.contracts@[at.contract].metrics@[at.metric].calls@.len() || (at.call == 0
        && cfg.contracts@[at.contract].metrics@[at.metric].calls@.len() == 0)
}

/// Whether a function is the first of its name in the interface of a contract.
pub open spec fn is_called(ct: Contract, name: Seq<char>, f: sol::FunctionView) -> bool {
    ct.parsed_abi is Some && exists|n: int|
        0 <= n < ct.parsed_abi->0@.len() && #[trigger] ct.parsed_abi->0@[n] == f && f.name == name
            && forall|q: int| 0 <= q < n ==> (#[trigger] ct.parsed_abi->0@[q]).name != name
}

/// Whether a call is the one to make at a place: it goes to the instance's address and calls the
/// metric's function with the call's arguments, or the metric's where it lists no calls.
pub open spec fn is_call_at(
    cfg: Config,
    at: Place,
    f: sol::FunctionView,
    call: multicall::CallView,
) -> bool {
    let ct = cfg.contracts@[at.contract];
    let metric = ct.metrics@[at.metric];
    let given = if metric.calls@.len() > 0 {
        metric.calls@[at.call].args@
    } else {
        metric.args@
    };
    &&& is_called(ct, metric.function@, f)
    &&& words::address_bytes(text::trimmed(ct.instances@[at.instance].address@)) == Some(
        call.target,
    )
    &&& args::converted(f, given) is Ok
    &&& call.call_data == sol::encoded_call(
        f.name,
        f.inputs,
        args::converted(f, given)->Ok_0,
    )->Ok_0
}

/// The value that the configuration gives a label at a place: that of the call, else of the
/// instance, else of the contract, else of the whole configuration, else none.
pub open spec fn configured_label(cfg: Config, at: Place, key: Seq<char>) -> Option<Seq<char>> {
    let ct = cfg.contracts@[at.contract];
    let inst = ct.instances@[at.instance];
    let metric = ct.metrics@[at.metric];
    if metric.calls@.len() > 0 && metric.calls@[at.call].labels@.dom().contains(key) {
        Some(metric.calls@[at.call].labels@[key])
    } else if inst.labels@.dom().contains(key) {
        Some(inst.labels@[key])
    } else if ct.labels@.dom().contains(key) {
        Some(ct.labels@[key])
    } else if cfg.labels@.dom().contains(key) {
        Some(cfg.labels@[key])
    } else {
        None
    }
}

/// The draft that the configuration gives at a place, stated over the configuration alone.
spec fn is_draft_at(cfg: Config, at: Place, d: model::DraftView) -> bool {
    let ct = cfg.contracts@[at.contract];
    let metric = ct.metrics@[at.metric];
    let f = d.decode.function;
    let outs = metric.outputs@;
    let index = if outs.len() > 0 {
        outs[at.output].index as int
    } else {
        at.output
    };
    let field = if outs.len() > 0 {
        outs[at.output].field@
    } else {
        seq![]
    };
    let scale = if outs.len() > 0 {
        outs[at.output].scale_bits
    } else {
        0
    };
    let names = naming::inferred_names(metric.name@, config::outputs_view(outs), f);
    &&& has_call(cfg, at)
    &&& 0 <= at.output < (if outs.len() > 0 {
        outs.len()
    } else {
        f.outputs.len()
    })
    &&& is_call_at(cfg, at, f, d.call)
    &&& d.decode.output_index == index
    &&& field.len() == 0 ==> d.decode.field_index is None
    &&& field.len() > 0 ==> d.decode.output_index < f.outputs.len() && d.decode.field_index is Some
        && config::laws::is_field(
        f.outputs[d.decode.output_index as int].components,
        field,
        d.decode.field_index->0 as int,
    )
    &&& d.decode.scale_bits == config::effective_bits(scale)
    &&& names is Ok
    &&& d.name == (if ct.metric_prefix@.len() > 0 {
        ct.metric_prefix@ + "_"@ + names->Ok_0[at.output]
    } else if ct.name@.len() > 0 {
        ct.name@ + "_"@ + names->Ok_0[at.output]
    } else {
        names->Ok_0[at.output]
    })
    &&& d.help == metric.help@
    &&& d.contract == ct.name@
    &&& d.function == metric.function@
    &&& forall|key: Seq<char>|
        #![trigger d.labels.dom().contains(key)]
        match configured_label(cfg, at, key) {
            Some(value) => d.labels.dom().contains(key) && d.labels[key] == value,
            None => !d.labels.dom().contains(key),
        }
}

/// The steps of the call at a place, in a configuration that can be planned.
spec fn steps_at(cfg: Config, at: Place) -> Seq<model::StepView> {
    let ct = cfg.contracts@[at.contract];
    let inst = ct.instances@[at.instance];
    model::subcall_steps(
        cfg.labels@,
        ct,
        ct.parsed_abi->0@,
        inst,
        words::address_bytes(text::trimmed(inst.address@))->0,
        ct.metrics@[at.metric],
        at.call,
    )
}

/// No step of a planned configuration is a failure.
proof fn lemma_no_failure(cfg: Config, p: int)
    requires
        model::planned(cfg) is Ok,
        0 <= p < model::config_steps(cfg).len(),
    ensures
        model::config_steps(cfg)[p] !is Fail,
        model::step_fault(model::config_steps(cfg), p) is None,
{
    let steps = model::config_steps(cfg);
    let fault_at = |i: int| model::step_fault(steps, i);
    outcome::lemma_no_failure(steps.len(), fault_at);
    assert(fault_at(p) is None);
}

/// The steps of a metric at a place.
spec fn metric_steps_at(cfg: Config, c: int, i: int, m: int) -> Seq<model::StepView> {
    let ct = cfg.contracts@[c];
    let inst = ct.instances@[i];
    model::metric_steps(
        cfg.labels@,
        ct,
        ct.parsed_abi->0@,
        inst,
        words::address_bytes(text::trimmed(inst.address@))->0,
        ct.metrics@[m],
    )
}

/// The steps of an instance at a place.
spec fn instance_steps_at(cfg: Config, c: int, i: int) -> Seq<model::StepView> {
    let ct = cfg.contracts@[c];
    model::instance_steps(cfg.labels@, ct, ct.parsed_abi->0@, ct.instances@[i])
}

/// The steps of a contract at a place.
spec fn contract_steps_at(cfg: Config, c: int) -> Seq<model::StepView> {
    model::contract_steps(cfg.labels@, cfg.contracts@[c])
}

/// Whether a step is that of a place.
spec fn stands_at(cfg: Config, step: model::StepView, at: Place, q: int) -> bool {
    &&& has_call(cfg, at)
    &&& cfg.contracts@[at.contract].parsed_abi is Some
    &&& words::address_bytes(
        text::trimmed(cfg.contracts@[at.contract].instances@[at.instance].address@),
    ) is Some
    &&& 0 <= q < steps_at(cfg, at).len()
    &&& step == steps_at(cfg, at)[q]
}

proof fn lemma_step_in_metric(cfg: Config, c: int, i: int, m: int, p: int) -> (r: (Place, int))
    requires
        0 <= c < cfg.contracts@.len(),
        cfg.contracts@[c].parsed_abi is Some,
        0 <= i < cfg.contracts@[c].instances@.len(),
        words::address_bytes(text::trimmed(cfg.contracts@[c].instances@[i].address@)) is Some,
        0 <= m < cfg.contracts@[c].metrics@.len(),
        0 <= p < metric_steps_at(cfg, c, i, m).len(),
    ensures
        stands_at(cfg, metric_steps_at(cfg, c, i, m)[p], r.0, r.1),
        r.0.contract == c,
        r.0.instance == i,
        r.0.metric == m,
{
    let ct = cfg.contracts@[c];
    let inst = ct.instances@[i];
    let metric = ct.metrics@[m];
    let target = words::address_bytes(text::trimmed(inst.address@))->0;
    let subcall_at = |k: int|
        model::subcall_steps(cfg.labels@, ct, ct.parsed_abi->0@, inst, target, metric, k);
    let (k, q) = outcome::lemma_joined_from(model::subcall_count(metric), subcall_at, p);
    assert(subcall_at(k)[q] == metric_steps_at(cfg, c, i, m)[p]);
    (Place { contract: c, instance: i, metric: m, call: k, output: 0 }, q)
}

proof fn lemma_step_in_instance(cfg: Config, c: int, i: int, p: int) -> (r: (Place, int))
    requires
        0 <= c < cfg.contracts@.len(),
        cfg.contracts@[c].parsed_abi is Some,
        0 <= i < cfg.contracts@[c].instances@.len(),
        0 <= p < instance_steps_at(cfg, c, i).len(),
        instance_steps_at(cfg, c, i)[p] !is Fail,
    ensures
        stands_at(cfg, instance_steps_at(cfg, c, i)[p], r.0, r.1),
        r.0.contract == c,
        r.0.instance == i,
{
    let ct = cfg.contracts@[c];
    let inst = ct.instances@[i];
    assert(words::address_bytes(text::trimmed(inst.address@)) is Some);
    let target = words::address_bytes(text::trimmed(inst.address@))->0;
    let metric_at = |j: int|
        model::metric_steps(cfg.labels@, ct, ct.parsed_abi->0@, inst, target, ct.metrics@[j]);
    let (m, q) = outcome::lemma_joined_from(ct.metrics@.len(), metric_at, p);
    assert(metric_at(m)[q] == instance_steps_at(cfg, c, i)[p]);
    lemma_step_in_metric(cfg, c, i, m, q)
}

proof fn lemma_step_in_contract(cfg: Config, c: int, p: int) -> (r: (Place, int))
    requires
        0 <= c < cfg.contracts@.len(),
        0 <= p < contract_steps_at(cfg, c).len(),
        contract_steps_at(cfg, c)[p] !is Fail,
    ensures
        stands_at(cfg, contract_steps_at(cfg, c)[p], r.0, r.1),
        r.0.contract == c,
{
    let ct = cfg.contracts@[c];
    assert(ct.parsed_abi is Some);
    let instance_at = |i: int|
        model::instance_steps(cfg.labels@, ct, ct.parsed_abi->0@, ct.instances@[i]);
    let (i, q) = outcome::lemma_joined_from(ct.instances@.len(), instance_at, p);
    assert(instance_at(i)[q] == contract_steps_at(cfg, c)[p]);
    lemma_step_in_instance(cfg, c, i, q)
}

/// Every step comes from a place.
proof fn lemma_step_from(cfg: Config, p: int) -> (r: (Place, int))
    requires
        model::planned(cfg) is Ok,
        0 <= p < model::config_steps(cfg).len(),
    ensures
        stands_at(cfg, model::config_steps(cfg)[p], r.0, r.1),
{
    lemma_no_failure(cfg, p);
    let contract_at = |i: int| model::contract_steps(cfg.labels@, cfg.contracts@[i]);
    let (c, q) = outcome::lemma_joined_from(cfg.contracts@.len(), contract_at, p);
    assert(contract_at(c)[q] == model::config_steps(cfg)[p]);
    lemma_step_in_contract(cfg, c, q)
}

/// Every step of a place is one of the configuration's.
proof fn lemma_step_at(cfg: Config, at: Place, q: int) -> (p: int)
    requires
        has_call(cfg, at),
        cfg.contracts@[at.contract].parsed_abi is Some,
        words::address_bytes(
            text::trimmed(cfg.contracts@[at.contract].instances@[at.instance].address@),
        ) is Some,
        0 <= q < steps_at(cfg, at).len(),
    ensures
        0 <= p < model::config_steps(cfg).len(),
        model::config_steps(cfg)[p] == steps_at(cfg, at)[q],
{
    let ct = cfg.contracts@[at.contract];
    let inst = ct.instances@[at.instance];
    let metric = ct.metrics@[at.metric];
    let fs = ct.parsed_abi->0@;
    let target = words::address_bytes(text::trimmed(inst.address@))->0;
    let subcall_at = |k: int|
        model::subcall_steps(cfg.labels@, ct, fs, inst, target, metric, k);
    let metric_at = |j: int|
        model::metric_steps(cfg.labels@, ct, fs, inst, target, ct.metrics@[j]);
    let instance_at = |i: int| model::instance_steps(cfg.labels@, ct, fs, ct.instances@[i]);
    let contract_at = |i: int| model::contract_steps(cfg.labels@, cfg.contracts@[i]);
    let in_metric = outcome::lemma_joined_at(
        model::subcall_count(metric),
        subcall_at,
        at.call,
        q,
    );
    assert(metric_at(at.metric)[in_metric] == steps_at(cfg, at)[q]);
    let in_instance = outcome::lemma_joined_at(
        ct.metrics@.len(),
        metric_at,
        at.metric,
        in_metric,
    );
    assert(instance_at(at.instance)[in_instance] == steps_at(cfg, at)[q]);
    let in_contract = outcome::lemma_joined_at(
        ct.instances@.len(),
        instance_at,
        at.instance,
        in_instance,
    );
    assert(contract_at(at.contract)[in_contract] == steps_at(cfg, at)[q]);
    outcome::lemma_joined_at(cfg.contracts@.len(), contract_at, at.contract, in_contract)
}

/// The call at a place.
proof fn lemma_call_at(cfg: Config, at: Place) -> (f: sol::FunctionView)
    requires
        model::planned(cfg) is Ok,
        has_call(cfg, at),
    ensures
        cfg.contracts@[at.contract].parsed_abi is Some,
        words::address_bytes(
            text::trimmed(cfg.contracts@[at.contract].instances@[at.instance].address@),
        ) is Some,
        steps_at(cfg, at).len() > 0,
        steps_at(cfg, at)[0] is Call,
        is_call_at(cfg, at, f, steps_at(cfg, at)[0]->Call_0),
        naming::inferred_names(
            cfg.contracts@[at.contract].metrics@[at.metric].name@,
            config::outputs_view(cfg.contracts@[at.contract].metrics@[at.metric].outputs@),
            f,
        ) is Ok,
        steps_at(cfg, at) == seq![steps_at(cfg, at)[0]] + model::output_steps(
            cfg.contracts@[at.contract],
            cfg.contracts@[at.contract].metrics@[at.metric],
            f,
            steps_at(cfg, at)[0]->Call_0,
            model::merged_labels(
                cfg.labels@,
                cfg.contracts@[at.contract].labels@,
                cfg.contracts@[at.contract].instances@[at.instance].labels@,
                model::subcall_labels(
                    cfg.contracts@[at.contract].metrics@[at.metric],
                    at.call,
                ),
            ),
        ),
{
    let ct = cfg.contracts@[at.contract];
    let metric = ct.metrics@[at.metric];
    facts::plans_check_everything(cfg, at.contract, at.instance, at.metric, at.call);
    let fs = ct.parsed_abi->0@;
    let n = abi::named_function(fs, metric.function@)->0;
    abi::functions_are_found_by_name(fs, metric.function@);
    let f = fs[n];
    args::converted_arguments_fit(f, model::subcall_args(metric, at.call));
    assert(is_called(ct, metric.function@, f));
    f
}

/// The draft of an output at a place.
proof fn lemma_draft_at(cfg: Config, at: Place) -> (d: model::DraftView)
    requires
        model::planned(cfg) is Ok,
        has_call(cfg, at),
        0 <= at.output < steps_at(cfg, at).len() - 1,
    ensures
        steps_at(cfg, at)[at.output + 1] == model::StepView::Draft(d),
        is_draft_at(cfg, at, d),
{
    let ct = cfg.contracts@[at.contract];
    let metric = ct.metrics@[at.metric];
    let f = lemma_call_at(cfg, at);
    let p = lemma_step_at(cfg, at, at.output + 1);
    lemma_no_failure(cfg, p);
    let step = steps_at(cfg, at)[at.output + 1];
    let d = step->Draft_0;
    let outs = config::outputs_view(metric.outputs@);
    let selected = naming::selected_outputs(outs, f);
    let o = selected[at.output];
    let merged = model::merged_labels(
        cfg.labels@,
        ct.labels@,
        ct.instances@[at.instance].labels@,
        model::subcall_labels(metric, at.call),
    );
    let call = steps_at(cfg, at)[0]->Call_0;
    let names = naming::inferred_names(metric.name@, outs, f)->Ok_0;
    assert(step == model::output_step(ct, metric, f, call, merged, names[at.output], o));
    lemma_lengths(ct, f);
    abi::fields_are_found_by_name(f, o.index, o.field);
    naming::names_follow_the_outputs(metric.name@, outs, f, names, at.output);
    assert forall|key: Seq<char>| #[trigger] d.labels.dom().contains(key) == (configured_label(
        cfg,
        at,
        key,
    ) is Some) && (configured_label(cfg, at, key) matches Some(value) ==> d.labels[key]
        == value) by {
        facts::nearer_labels_win(
            cfg.labels@,
            ct.labels@,
            ct.instances@[at.instance].labels@,
            model::subcall_labels(metric, at.call),
            key,
        );
    }
    d
}

/// The outputs of a function, and the components of each, are as many as fit into memory.
proof fn lemma_lengths(ct: Contract, f: sol::FunctionView)
    requires
        ct.parsed_abi is Some,
        exists|n: int| 0 <= n < ct.parsed_abi->0@.len() && #[trigger] ct.parsed_abi->0@[n] == f,
    ensures
        f.outputs.len() <= usize::MAX,
        forall|i: int|
            0 <= i < f.outputs.len() ==> (#[trigger] f.outputs[i]).components.len() <= usize::MAX,
{
    let parsed = ct.parsed_abi->0;
    let n = choose|n: int| 0 <= n < parsed@.len() && #[trigger] parsed@[n] == f;
    let function = parsed.functions@[n];
    assert(f == function@);
    assert(function.outputs.len() == f.outputs.len());
    assert forall|i: int| 0 <= i < f.outputs.len() implies (
    #[trigger] f.outputs[i]).components.len() <= usize::MAX by {
        assert(f.outputs[i] == function.outputs@[i]@);
        assert(function.outputs@[i].components.len() == f.outputs[i].components.len());
    }
}

/// The step of a draft.
proof fn lemma_draft_from(steps: Seq<model::StepView>, e: int) -> (p: int)
    requires
        0 <= e < model::drafts(steps).len(),
    ensures
        0 <= p < steps.len(),
        steps[p] == model::StepView::Draft(model::drafts(steps)[e]),
        model::drafts(steps.take(p)) == model::drafts(steps).take(e),
    decreases steps.len(),
{
    let before = steps.drop_last();
    let head = model::drafts(before);
    if e < head.len() {
        let p = lemma_draft_from(before, e);
        assert(steps[p] == before[p]);
        assert(steps.take(p) =~= before.take(p));
        assert(model::drafts(steps).take(e) =~= head.take(e));
        p
    } else {
        assert(steps.take(steps.len() - 1) =~= before);
        assert(model::drafts(steps).take(e) =~= head);
        steps.len() - 1
    }
}

/// The draft of a step.
proof fn lemma_draft_of(steps: Seq<model::StepView>, p: int) -> (e: int)
    requires
        0 <= p < steps.len(),
        steps[p] is Draft,
    ensures
        0 <= e < model::drafts(steps).len(),
        steps[p] == model::StepView::Draft(model::drafts(steps)[e]),
    decreases steps.len(),
{
    let before = steps.drop_last();
    if p < before.len() {
        assert(steps[p] == before[p]);
        let e = lemma_draft_of(before, p);
        assert(model::drafts(steps)[e] == model::drafts(before)[e]);
        e
    } else {
        model::drafts(before).len() as int
    }
}

/// A help text that is known stays.
proof fn lemma_help_stays(ds: Seq<model::DraftView>, n: int, name: Seq<char>)
    requires
        0 <= n <= ds.len(),
        model::help_of(ds.take(n), name).len() > 0,
    ensures
        model::help_of(ds, name) == model::help_of(ds.take(n), name),
    decreases ds.len() - n,
{
    if n < ds.len() {
        let more = ds.take(n + 1);
        assert(more.drop_last() =~= ds.take(n));
        lemma_help_stays(ds, n + 1, name);
    } else {
        assert(ds.take(n) =~= ds);
    }
}

/// A metric that has a help text gives it to its gauge.
proof fn lemma_help(cfg: Config, e: int)
    requires
        model::planned(cfg) is Ok,
        0 <= e < model::drafts(model::config_steps(cfg)).len(),
        model::drafts(model::config_steps(cfg))[e].help.len() > 0,
    ensures
        ({
            let ds = model::drafts(model::config_steps(cfg));
            model::help_of(ds, ds[e].name) == ds[e].help
        }),
{
    let steps = model::config_steps(cfg);
    let ds = model::drafts(steps);
    let p = lemma_draft_from(steps, e);
    lemma_no_failure(cfg, p);
    let name = ds[e].name;
    assert(!model::contradicts(ds.take(e), ds[e]));
    let more = ds.take(e + 1);
    assert(more.drop_last() =~= ds.take(e));
    assert(more.last() == ds[e]);
    assert(model::help_of(more, name) == ds[e].help);
    lemma_help_stays(ds, e + 1, name);
}

/// A help text is that of one of the metrics.
proof fn lemma_help_from(ds: Seq<model::DraftView>, name: Seq<char>) -> (e: int)
    requires
        model::help_of(ds, name).len() > 0,
    ensures
        0 <= e < ds.len(),
        ds[e].name == name,
        ds[e].help == model::help_of(ds, name),
    decreases ds.len(),
{
    let before = ds.drop_last();
    if model::help_of(before, name).len() > 0 {
        let e = lemma_help_from(before, name);
        assert(ds[e] == before[e]);
        e
    } else {
        ds.len() - 1
    }
}

/// Whether a series of a plan is the one of the output at a place of the configuration, in every
/// respect:
/// - its call goes to the instance's address, with the metric's function and the call's arguments;
/// - its value is the selected output and field, or the output at that place where none is selected,
///   divided by the configured scale, which is one where none is set;
/// - its name is the contract's prefix, or the contract's name where it has none, an underscore and
///   the name inferred for the output;
/// - its labels have the configured values, the nearest first, and every configured label is there;
///   `address` and `chain_id` say where it was read; what is configured for other series only is
///   empty;
/// - its gauge has its name and label keys, and the metric's help text if it has one.
pub open spec fn is_series_at(cfg: Config, plan: model::PlanView, e: int, at: Place) -> bool {
    let ct = cfg.contracts@[at.contract];
    let metric = ct.metrics@[at.metric];
    let s = plan.entries[e];
    let f = s.decode.function;
    let outs = metric.outputs@;
    let index = if outs.len() > 0 {
        outs[at.output].index as int
    } else {
        at.output
    };
    let field = if outs.len() > 0 {
        outs[at.output].field@
    } else {
        seq![]
    };
    let scale = if outs.len() > 0 {
        outs[at.output].scale_bits
    } else {
        0
    };
    let names = naming::inferred_names(metric.name@, config::outputs_view(outs), f);
    &&& 0 <= e < plan.entries.len()
    &&& has_call(cfg, at)
    &&& 0 <= at.output < (if outs.len() > 0 {
        outs.len()
    } else {
        f.outputs.len()
    })
    // The call.
    &&& 0 <= s.call_index < plan.calls.len()
    &&& is_call_at(cfg, at, f, plan.calls[s.call_index])
    &&& s.address == plan.calls[s.call_index].target
    &&& s.contract_name == ct.name@
    &&& s.function_name == metric.function@
    // The value.
    &&& s.decode.output_index == index
    &&& field.len() == 0 ==> s.decode.field_index is None
    &&& field.len() > 0 ==> s.decode.output_index < f.outputs.len() && s.decode.field_index is Some
        && config::laws::is_field(
        f.outputs[s.decode.output_index as int].components,
        field,
        s.decode.field_index->0 as int,
    )
    &&& s.decode.scale_bits == (if scale == 0 || scale == 0x8000_0000_0000_0000 {
        0x3ff0_0000_0000_0000
    } else {
        scale
    })
    // The name.
    &&& names is Ok
    &&& s.metric_name == (if ct.metric_prefix@.len() > 0 {
        ct.metric_prefix@ + "_"@ + names->Ok_0[at.output]
    } else if ct.name@.len() > 0 {
        ct.name@ + "_"@ + names->Ok_0[at.output]
    } else {
        names->Ok_0[at.output]
    })
    // The labels.
    &&& s.label_values.len() == s.label_keys.len()
    &&& forall|q: int|
        0 <= q < s.label_keys.len() ==> s.label_values[q] == (if #[trigger] s.label_keys[q]
            == "address"@ {
            text::hex_text(s.address)
        } else if s.label_keys[q] == "chain_id"@ {
            text::decimal(cfg.chain.chain_id as nat)
        } else {
            match configured_label(cfg, at, s.label_keys[q]) {
                Some(value) => value,
                None => seq![],
            }
        })
    &&& s.label_keys.contains("address"@)
    &&& s.label_keys.contains("chain_id"@)
    &&& forall|key: Seq<char>|
        (#[trigger] configured_label(cfg, at, key)) is Some ==> s.label_keys.contains(key)
    // The gauge.
    &&& 0 <= s.gauge_index < plan.gauges.len()
    &&& plan.gauges[s.gauge_index].name == s.metric_name
    &&& plan.gauges[s.gauge_index].label_keys == s.label_keys
    &&& metric.help@.len() > 0 ==> plan.gauges[s.gauge_index].help == metric.help@
}

/// The series of a draft.
proof fn lemma_series_of_draft(cfg: Config, plan: model::PlanView, e: int, at: Place)
    requires
        model::planned(cfg) == Ok::<model::PlanView, PlanErrorOf<Seq<char>>>(plan),
        0 <= e < plan.entries.len(),
        is_draft_at(cfg, at, model::drafts(model::config_steps(cfg))[e]),
    ensures
        is_series_at(cfg, plan, e, at),
{
    let steps = model::config_steps(cfg);
    let ds = model::drafts(steps);
    let d = ds[e];
    let s = plan.entries[e];
    facts::series_read_their_own_call(cfg, e);
    facts::series_refer_to_the_plan(cfg);
    facts::label_keys_are_the_union(cfg, e);
    assert(s.decode == d.decode);
    assert(s.metric_name == d.name);
    assert(0 <= s.call_index < plan.calls.len());
    assert(plan.calls[s.call_index] == d.call);
    if d.help.len() > 0 {
        lemma_help(cfg, e);
        assert(plan.gauges[s.gauge_index] == model::gauge_of(
            ds,
            model::distinct_names(ds)[s.gauge_index],
        ));
    }
    assert forall|q: int| 0 <= q < s.label_keys.len() implies s.label_values[q] == (
    if #[trigger] s.label_keys[q] == "address"@ {
        text::hex_text(s.address)
    } else if s.label_keys[q] == "chain_id"@ {
        text::decimal(cfg.chain.chain_id as nat)
    } else {
        match configured_label(cfg, at, s.label_keys[q]) {
            Some(value) => value,
            None => seq![],
        }
    }) by {
        facts::missing_labels_are_empty(cfg, e, q);
        let key = s.label_keys[q];
        let had = d.labels.dom().contains(key);
        assert(s.label_values[q].len() == 0 ==> s.label_values[q] =~= seq![]);
    }
    let own = s.label_keys.take(s.label_keys.len() - 2);
    assert(s.label_keys[s.label_keys.len() - 2] == "address"@);
    assert(s.label_keys[s.label_keys.len() - 1] == "chain_id"@);
    assert forall|key: Seq<char>| (#[trigger] configured_label(
        cfg,
        at,
        key,
    )) is Some implies s.label_keys.contains(key) by {
        assert(d.labels.dom().contains(key));
        assert(ds[e].name == s.metric_name && ds[e].labels.dom().contains(key));
        assert(own.contains(key));
        assert(s.label_keys[own.index_of(key)] == key);
    }
}

/// Every series of a plan is that of an output at some place of the configuration.
pub proof fn series_come_from_the_configuration(cfg: Config, plan: model::PlanView, e: int) -> (at:
    Place)
    requires
        model::planned(cfg) == Ok::<model::PlanView, PlanErrorOf<Seq<char>>>(plan),
        0 <= e < plan.entries.len(),
    ensures
        is_series_at(cfg, plan, e, at),
{
    let steps = model::config_steps(cfg);
    let p = lemma_draft_from(steps, e);
    let (call_at, q) = lemma_step_from(cfg, p);
    let f = lemma_call_at(cfg, call_at);
    let at = Place { output: q - 1, ..call_at };
    assert(steps_at(cfg, at) == steps_at(cfg, call_at));
    assert(q > 0);
    let d = lemma_draft_at(cfg, at);
    lemma_series_of_draft(cfg, plan, e, at);
    at
}

/// Every output of every call of every metric at every instance of every contract has a series in
/// the plan.
pub proof fn every_output_has_a_series(
    cfg: Config,
    plan: model::PlanView,
    at: Place,
    f: sol::FunctionView,
) -> (e: int)
    requires
        model::planned(cfg) == Ok::<model::PlanView, PlanErrorOf<Seq<char>>>(plan),
        has_call(cfg, at),
        is_called(
            cfg.contracts@[at.contract],
            cfg.contracts@[at.contract].metrics@[at.metric].function@,
            f,
        ),
        0 <= at.output < (if cfg.contracts@[at.contract].metrics@[at.metric].outputs@.len() > 0 {
            cfg.contracts@[at.contract].metrics@[at.metric].outputs@.len()
        } else {
            f.outputs.len()
        }),
    ensures
        is_series_at(cfg, plan, e, at),
{
    let steps = model::config_steps(cfg);
    let g = lemma_call_at(cfg, at);
    lemma_called_once(
        cfg.contracts@[at.contract],
        cfg.contracts@[at.contract].metrics@[at.metric].function@,
        f,
        g,
    );
    let d = lemma_draft_at(cfg, at);
    let p = lemma_step_at(cfg, at, at.output + 1);
    let e = lemma_draft_of(steps, p);
    lemma_series_of_draft(cfg, plan, e, at);
    e
}

/// Only one function is the first of its name.
proof fn lemma_called_once(ct: Contract, name: Seq<char>, f: sol::FunctionView, g: sol::FunctionView)
    requires
        is_called(ct, name, f),
        is_called(ct, name, g),
    ensures
        f == g,
{
    let fs = ct.parsed_abi->0@;
    let n = choose|n: int|
        0 <= n < fs.len() && #[trigger] fs[n] == f && f.name == name && forall|q: int|
            0 <= q < n ==> (#[trigger] fs[q]).name != name;
    let m = choose|n: int|
        0 <= n < fs.len() && #[trigger] fs[n] == g && g.name == name && forall|q: int|
            0 <= q < n ==> (#[trigger] fs[q]).name != name;
    if n < m {
        assert(fs[n].name != name);
    }
    if m < n {
        assert(fs[m].name != name);
    }
}

/// The name of every series begins with its contract: the contract's metric prefix where it has
/// one, else the contract's name, then an underscore, then the name inferred for one of the outputs
/// of one of the contract's metrics.
pub proof fn series_names_begin_with_their_contract(
    cfg: Config,
    plan: model::PlanView,
    e: int,
) -> (r: (Place, Seq<char>))
    requires
        model::planned(cfg) == Ok::<model::PlanView, PlanErrorOf<Seq<char>>>(plan),
        0 <= e < plan.entries.len(),
    ensures
        ({
            let (at, inferred) = r;
            let ct = cfg.contracts@[at.contract];
            let metric = ct.metrics@[at.metric];
            let s = plan.entries[e];
            &&& has_call(cfg, at)
            &&& s.contract_name == ct.name@
            &&& naming::inferred_names(
                metric.name@,
                config::outputs_view(metric.outputs@),
                s.decode.function,
            ) matches Ok(names) && 0 <= at.output < names.len() && names[at.output] == inferred
            &&& ct.metric_prefix@.len() > 0 ==> s.metric_name == ct.metric_prefix@ + "_"@ + inferred
            &&& ct.metric_prefix@.len() == 0 && ct.name@.len() > 0 ==> s.metric_name == ct.name@
                + "_"@ + inferred
        }),
{
    let at = series_come_from_the_configuration(cfg, plan, e);
    let metric = cfg.contracts@[at.contract].metrics@[at.metric];
    let f = plan.entries[e].decode.function;
    let names = naming::inferred_names(
        metric.name@,
        config::outputs_view(metric.outputs@),
        f,
    )->Ok_0;
    lemma_lengths(cfg.contracts@[at.contract], f);
    naming::names_follow_the_outputs(
        metric.name@,
        config::outputs_view(metric.outputs@),
        f,
        names,
        at.output,
    );
    (at, names[at.output])
}

/// Every call of a plan is the one to make at some place of the configuration.
pub proof fn calls_come_from_the_configuration(cfg: Config, plan: model::PlanView, n: int) -> (r: (
    Place,
    sol::FunctionView,
))
    requires
        model::planned(cfg) == Ok::<model::PlanView, PlanErrorOf<Seq<char>>>(plan),
        0 <= n < plan.calls.len(),
    ensures
        has_call(cfg, r.0),
        is_call_at(cfg, r.0, r.1, plan.calls[n]),
{
    let steps = model::config_steps(cfg);
    let call = plan.calls[n];
    facts::planned_calls_are_asked_for(cfg, call);
    assert(plan.calls.contains(call));
    let p = choose|p: int| 0 <= p < steps.len() && facts::asks_for(#[trigger] steps[p], call);
    let (call_at, q) = lemma_step_from(cfg, p);
    let f = lemma_call_at(cfg, call_at);
    if q > 0 {
        let at = Place { output: q - 1, ..call_at };
        assert(steps_at(cfg, at) == steps_at(cfg, call_at));
        let d = lemma_draft_at(cfg, at);
        (at, d.decode.function)
    } else {
        (call_at, f)
    }
}

/// Every call that the configuration asks for is planned.
pub proof fn every_call_is_planned(cfg: Config, plan: model::PlanView, at: Place) -> (r: (
    int,
    sol::FunctionView,
))
    requires
        model::planned(cfg) == Ok::<model::PlanView, PlanErrorOf<Seq<char>>>(plan),
        has_call(cfg, at),
    ensures
        0 <= r.0 < plan.calls.len(),
        is_call_at(cfg, at, r.1, plan.calls[r.0]),
{
    let steps = model::config_steps(cfg);
    let f = lemma_call_at(cfg, at);
    let p = lemma_step_at(cfg, at, 0);
    let call = steps_at(cfg, at)[0]->Call_0;
    facts::planned_calls_are_asked_for(cfg, call);
    assert(facts::asks_for(steps[p], call));
    assert(plan.calls.contains(call));
    (plan.calls.index_of(call), f)
}

/// The help text of a gauge is that of a metric which gives it one of its series, or names the
/// gauge where no such metric has a help text.
pub proof fn help_texts_come_from_the_configuration(
    cfg: Config,
    plan: model::PlanView,
    g: int,
) -> (r: (int, Place))
    requires
        model::planned(cfg) == Ok::<model::PlanView, PlanErrorOf<Seq<char>>>(plan),
        0 <= g < plan.gauges.len(),
    ensures
        plan.gauges[g].help == "EVM contract metric "@ + plan.gauges[g].name || (is_series_at(
            cfg,
            plan,
            r.0,
            r.1,
        ) && plan.entries[r.0].gauge_index == g && plan.gauges[g].help
            == cfg.contracts@[r.1.contract].metrics@[r.1.metric].help@),
{
    let ds = model::drafts(model::config_steps(cfg));
    let name = plan.gauges[g].name;
    facts::lemma_names_distinct(ds);
    facts::lemma_index_of(model::distinct_names(ds), g);
    if model::help_of(ds, name).len() > 0 {
        let e = lemma_help_from(ds, name);
        let at = series_come_from_the_configuration(cfg, plan, e);
        let p = lemma_draft_from(model::config_steps(cfg), e);
        let (call_at, q) = lemma_step_from(cfg, p);
        let f = lemma_call_at(cfg, call_at);
        let there = Place { output: q - 1, ..call_at };
        assert(steps_at(cfg, there) == steps_at(cfg, call_at));
        let d = lemma_draft_at(cfg, there);
        lemma_series_of_draft(cfg, plan, e, there);
        (e, there)
    } else {
        (0, Place { contract: 0, instance: 0, metric: 0, call: 0, output: 0 })
    }
}

/// A plan says its calls, gauges and series, each in its place, and its number of requests; a
/// series says all its parts.
pub proof fn plans_say_what_they_hold(plan: Plan, i: int)
    ensures
        plan@.chunk_count == plan.chunk_count,
        plan@.calls.len() == plan.calls@.len(),
        plan@.gauges.len() == plan.gauges@.len(),
        plan@.entries.len() == plan.entries@.len(),
        0 <= i < plan.calls@.len() ==> plan@.calls[i].target == plan.calls@[i].target@
            && plan@.calls[i].call_data == plan.calls@[i].call_data@,
        0 <= i < plan.gauges@.len() ==> plan@.gauges[i].name == plan.gauges@[i].name@
            && plan@.gauges[i].help == plan.gauges@[i].help@ && plan@.gauges[i].label_keys
            == text::texts(plan.gauges@[i].label_keys@),
        0 <= i < plan.entries@.len() ==> ({
            let held = plan.entries@[i];
            let said = plan@.entries[i];
            &&& said.call_index == held.call_index
            &&& said.gauge_index == held.gauge_index
            &&& said.decode == held.decode@
            &&& said.metric_name == held.metric_name@
            &&& said.label_keys == text::texts(held.label_keys@)
            &&& said.label_values == text::texts(held.label_values@)
            &&& said.contract_name == held.contract_name@
            &&& said.function_name == held.function_name@
            &&& said.address == held.address@
        }),
{
}

/// How many metrics a list of steps asks for.
spec fn draft_count(steps: Seq<model::StepView>) -> nat {
    model::drafts(steps).len()
}

proof fn lemma_drafts_add(a: Seq<model::StepView>, b: Seq<model::StepView>)
    ensures
        draft_count(a + b) == draft_count(a) + draft_count(b),
    decreases b.len(),
{
    if b.len() == 0 {
        assert(a + b =~= a);
    } else {
        lemma_drafts_add(a, b.drop_last());
        assert((a + b).drop_last() =~= a + b.drop_last());
        assert((a + b).last() == b.last());
    }
}

proof fn lemma_drafts_joined(n: nat, at: spec_fn(int) -> Seq<model::StepView>, count: spec_fn(int) -> nat)
    requires
        forall|i: int| 0 <= i < n ==> draft_count(#[trigger] at(i)) == count(i),
    ensures
        draft_count(outcome::joined(n, at)) == outcome::summed(n, count),
    decreases n,
{
    if n > 0 {
        lemma_drafts_joined((n - 1) as nat, at, count);
        lemma_drafts_add(outcome::joined((n - 1) as nat, at), at(n - 1));
        assert(draft_count(at(n - 1)) == count(n - 1));
    }
}

proof fn lemma_drafts_of_outputs(steps: Seq<model::StepView>)
    requires
        steps.len() > 0,
        steps[0] is Call,
        forall|i: int| 0 < i < steps.len() ==> (#[trigger] steps[i]) is Draft,
    ensures
        draft_count(steps) == steps.len() - 1,
    decreases steps.len(),
{
    reveal_with_fuel(model::drafts, 2);
    if steps.len() > 1 {
        let before = steps.drop_last();
        assert forall|i: int| 0 < i < before.len() implies (#[trigger] before[i]) is Draft by {
            assert(steps[i] is Draft);
        }
        lemma_drafts_of_outputs(before);
        assert(steps[steps.len() - 1] is Draft);
    } else {
        assert(steps.drop_last() =~= seq![]);
    }
}

/// How many outputs a metric of a contract shows: those that it selects, or all of its function's
/// where it selects none.
pub open spec fn output_count(ct: Contract, m: int) -> nat {
    let metric = ct.metrics@[m];
    if metric.outputs@.len() > 0 {
        metric.outputs@.len()
    } else {
        (choose|f: sol::FunctionView| #[trigger] is_called(ct, metric.function@, f)).outputs.len()
    }
}

/// How many calls a metric makes: those that it lists, or one.
pub open spec fn call_count(ct: Contract, m: int) -> nat {
    if ct.metrics@[m].calls@.len() > 0 {
        ct.metrics@[m].calls@.len()
    } else {
        1
    }
}

/// A plan has exactly one series per output of each call of each metric at each instance of each
/// contract.
pub proof fn series_are_as_many_as_outputs(cfg: Config, plan: model::PlanView)
    requires
        model::planned(cfg) == Ok::<model::PlanView, PlanErrorOf<Seq<char>>>(plan),
    ensures
        plan.entries.len() == outcome::summed(
            cfg.contracts@.len(),
            |c: int|
                outcome::summed(
                    cfg.contracts@[c].instances@.len(),
                    |i: int|
                        outcome::summed(
                            cfg.contracts@[c].metrics@.len(),
                            |m: int|
                                outcome::summed(
                                    call_count(cfg.contracts@[c], m),
                                    |k: int| output_count(cfg.contracts@[c], m),
                                ),
                        ),
                ),
        ),
{
    let contract_at = |i: int| model::contract_steps(cfg.labels@, cfg.contracts@[i]);
    let contract_count = |c: int|
        outcome::summed(
            cfg.contracts@[c].instances@.len(),
            |i: int|
                outcome::summed(
                    cfg.contracts@[c].metrics@.len(),
                    |m: int|
                        outcome::summed(
                            call_count(cfg.contracts@[c], m),
                            |k: int| output_count(cfg.contracts@[c], m),
                        ),
                ),
        );
    assert forall|c: int| 0 <= c < cfg.contracts@.len() implies draft_count(
        #[trigger] contract_at(c),
    ) == contract_count(c) by {
        lemma_contract_count(cfg, c);
    }
    lemma_drafts_joined(cfg.contracts@.len(), contract_at, contract_count);
}

proof fn lemma_contract_count(cfg: Config, c: int)
    requires
        model::planned(cfg) is Ok,
        0 <= c < cfg.contracts@.len(),
    ensures
        draft_count(model::contract_steps(cfg.labels@, cfg.contracts@[c])) == outcome::summed(
            cfg.contracts@[c].instances@.len(),
            |i: int|
                outcome::summed(
                    cfg.contracts@[c].metrics@.len(),
                    |m: int|
                        outcome::summed(
                            call_count(cfg.contracts@[c], m),
                            |k: int| output_count(cfg.contracts@[c], m),
                        ),
                ),
        ),
{
    let ct = cfg.contracts@[c];
    if ct.parsed_abi is None {
        let contract_at = |i: int| model::contract_steps(cfg.labels@, cfg.contracts@[i]);
        let p = outcome::lemma_joined_at(cfg.contracts@.len(), contract_at, c, 0);
        lemma_no_failure(cfg, p);
        assert(contract_at(c)[0] is Fail);
    }
    let fs = ct.parsed_abi->0@;
    let instance_at = |i: int| model::instance_steps(cfg.labels@, ct, fs, ct.instances@[i]);
    let instance_count = |i: int|
        outcome::summed(
            cfg.contracts@[c].metrics@.len(),
            |m: int|
                outcome::summed(
                    call_count(cfg.contracts@[c], m),
                    |k: int| output_count(cfg.contracts@[c], m),
                ),
        );
    assert forall|i: int| 0 <= i < ct.instances@.len() implies draft_count(
        #[trigger] instance_at(i),
    ) == instance_count(i) by {
        lemma_instance_count(cfg, c, i);
    }
    lemma_drafts_joined(ct.instances@.len(), instance_at, instance_count);
}

proof fn lemma_instance_count(cfg: Config, c: int, i: int)
    requires
        model::planned(cfg) is Ok,
        0 <= c < cfg.contracts@.len(),
        cfg.contracts@[c].parsed_abi is Some,
        0 <= i < cfg.contracts@[c].instances@.len(),
    ensures
        draft_count(
            model::instance_steps(
                cfg.labels@,
                cfg.contracts@[c],
                cfg.contracts@[c].parsed_abi->0@,
                cfg.contracts@[c].instances@[i],
            ),
        ) == outcome::summed(
            cfg.contracts@[c].metrics@.len(),
            |m: int|
                outcome::summed(
                    call_count(cfg.contracts@[c], m),
                    |k: int| output_count(cfg.contracts@[c], m),
                ),
        ),
{
    let ct = cfg.contracts@[c];
    let inst = ct.instances@[i];
    let fs = ct.parsed_abi->0@;
    let address = words::address_bytes(text::trimmed(inst.address@));
    if address is None {
        let instance_at = |i: int| model::instance_steps(cfg.labels@, ct, fs, ct.instances@[i]);
        let contract_at = |i: int| model::contract_steps(cfg.labels@, cfg.contracts@[i]);
        let in_contract = outcome::lemma_joined_at(ct.instances@.len(), instance_at, i, 0);
        assert(contract_at(c)[in_contract] == instance_at(i)[0]);
        let p = outcome::lemma_joined_at(cfg.contracts@.len(), contract_at, c, in_contract);
        lemma_no_failure(cfg, p);
    }
    let target = address->0;
    let metric_at = |j: int|
        model::metric_steps(cfg.labels@, ct, fs, inst, target, ct.metrics@[j]);
    let metric_count = |m: int|
        outcome::summed(
            call_count(cfg.contracts@[c], m),
            |k: int| output_count(cfg.contracts@[c], m),
        );
    assert forall|m: int| 0 <= m < ct.metrics@.len() implies draft_count(#[trigger] metric_at(m))
        == metric_count(m) by {
        let metric = ct.metrics@[m];
        let subcall_at = |k: int|
            model::subcall_steps(cfg.labels@, ct, fs, inst, target, metric, k);
        let subcall_count = |k: int| output_count(cfg.contracts@[c], m);
        assert forall|k: int| 0 <= k < call_count(ct, m) implies draft_count(
            #[trigger] subcall_at(k),
        ) == subcall_count(k) by {
            lemma_call_count(cfg, Place { contract: c, instance: i, metric: m, call: k, output: 0 });
        }
        lemma_drafts_joined(call_count(ct, m), subcall_at, subcall_count);
    }
    lemma_drafts_joined(ct.metrics@.len(), metric_at, metric_count);
}

proof fn lemma_call_count(cfg: Config, at: Place)
    requires
        model::planned(cfg) is Ok,
        has_call(cfg, at),
    ensures
        draft_count(steps_at(cfg, at)) == output_count(cfg.contracts@[at.contract], at.metric),
{
    let ct = cfg.contracts@[at.contract];
    let metric = ct.metrics@[at.metric];
    let steps = steps_at(cfg, at);
    let f = lemma_call_at(cfg, at);
    assert(is_called(ct, metric.function@, f));
    let g = choose|f: sol::FunctionView| #[trigger] is_called(ct, metric.function@, f);
    lemma_called_once(ct, metric.function@, f, g);
    assert forall|q: int| 0 < q < steps.len() implies (#[trigger] steps[q]) is Draft by {
        let there = Place { output: q - 1, ..at };
        assert(steps_at(cfg, there) == steps);
        let d = lemma_draft_at(cfg, there);
    }
    lemma_drafts_of_outputs(steps);
}

/// Whether an error tells the truth about a place of the configuration: the interface was not read,
/// the address is none, the interface has no such function, the arguments do not convert, or the
/// outputs cannot be named or their fields not be found.
pub open spec fn is_true_of(cfg: Config, at: Place, e: PlanErrorOf<Seq<char>>) -> bool {
    let ct = cfg.contracts@[at.contract];
    let metric = ct.metrics@[at.metric];
    let given = if metric.calls@.len() > 0 {
        metric.calls@[at.call].args@
    } else {
        metric.args@
    };
    match e {
        PlanErrorOf::NoAbi { contract } => {
            &&& 0 <= at.contract < cfg.contracts@.len()
            &&& contract == ct.name@
            &&& ct.parsed_abi is None
        },
        PlanErrorOf::Address { contract, address } => {
            &&& 0 <= at.contract < cfg.contracts@.len()
            &&& 0 <= at.instance < ct.instances@.len()
            &&& contract == ct.name@
            &&& address == ct.instances@[at.instance].address@
            &&& words::address_bytes(text::trimmed(address)) is None
        },
        PlanErrorOf::FunctionMissing { contract, function, .. } => {
            &&& has_call(cfg, at)
            &&& contract == ct.name@
            &&& function == metric.function@
            &&& ct.parsed_abi is Some
            &&& forall|n: int|
                0 <= n < ct.parsed_abi->0@.len() ==> (#[trigger] ct.parsed_abi->0@[n]).name
                    != function
        },
        PlanErrorOf::Args { contract, fault, .. } => {
            &&& has_call(cfg, at)
            &&& contract == ct.name@
            &&& exists|f: sol::FunctionView| #[trigger]
                is_called(ct, metric.function@, f) && args::converted(f, given) is Err
                    && args::converted(f, given)->Err_0 == fault
        },
        PlanErrorOf::Outputs { contract, error, .. } => {
            &&& has_call(cfg, at)
            &&& contract == ct.name@
            &&& exists|f: sol::FunctionView| #[trigger]
                is_called(ct, metric.function@, f) && {
                    let names = naming::inferred_names(
                        metric.name@,
                        config::outputs_view(metric.outputs@),
                        f,
                    );
                    ||| names is Err && names->Err_0 == error
                    ||| 0 <= at.output < metric.outputs@.len()
                        && metric.outputs@[at.output].field@.len() > 0 && ({
                        let found = abi::tuple_field(
                            f,
                            metric.outputs@[at.output].index,
                            metric.outputs@[at.output].field@,
                        );
                        found is Err && found->Err_0 == error
                    })
                }
        },
        _ => false,
    }
}

/// A failed step tells the truth.
proof fn lemma_failure_from(cfg: Config, p: int) -> (at: Place)
    requires
        0 <= p < model::config_steps(cfg).len(),
        model::config_steps(cfg)[p] is Fail,
    ensures
        is_true_of(cfg, at, model::config_steps(cfg)[p]->Fail_0),
{
    let step = model::config_steps(cfg)[p];
    let nowhere = Place { contract: 0, instance: 0, metric: 0, call: 0, output: 0 };
    let contract_at = |i: int| model::contract_steps(cfg.labels@, cfg.contracts@[i]);
    let (c, in_contract) = outcome::lemma_joined_from(cfg.contracts@.len(), contract_at, p);
    let ct = cfg.contracts@[c];
    assert(contract_at(c)[in_contract] == step);
    if ct.parsed_abi is None {
        Place { contract: c, ..nowhere }
    } else {
        lemma_failure_in_contract(cfg, c, in_contract)
    }
}

/// A failed step of a contract whose interface was read tells the truth.
proof fn lemma_failure_in_contract(cfg: Config, c: int, in_contract: int) -> (at: Place)
    requires
        0 <= c < cfg.contracts@.len(),
        cfg.contracts@[c].parsed_abi is Some,
        0 <= in_contract < model::contract_steps(cfg.labels@, cfg.contracts@[c]).len(),
        model::contract_steps(cfg.labels@, cfg.contracts@[c])[in_contract] is Fail,
    ensures
        is_true_of(
            cfg,
            at,
            model::contract_steps(cfg.labels@, cfg.contracts@[c])[in_contract]->Fail_0,
        ),
{
    let ct = cfg.contracts@[c];
    let step = model::contract_steps(cfg.labels@, ct)[in_contract];
    let nowhere = Place { contract: 0, instance: 0, metric: 0, call: 0, output: 0 };
    let fs = ct.parsed_abi->0@;
    let instance_at = |i: int| model::instance_steps(cfg.labels@, ct, fs, ct.instances@[i]);
    let (i, in_instance) = outcome::lemma_joined_from(
        ct.instances@.len(),
        instance_at,
        in_contract,
    );
    let inst = ct.instances@[i];
    assert(instance_at(i)[in_instance] == step);
    let address = words::address_bytes(text::trimmed(inst.address@));
    if address is None {
        Place { contract: c, instance: i, ..nowhere }
    } else {
        lemma_failure_in_instance(cfg, c, i, in_instance)
    }
}

/// A failed step of an instance with an address tells the truth.
proof fn lemma_failure_in_instance(cfg: Config, c: int, i: int, in_instance: int) -> (at: Place)
    requires
        0 <= c < cfg.contracts@.len(),
        cfg.contracts@[c].parsed_abi is Some,
        0 <= i < cfg.contracts@[c].instances@.len(),
        words::address_bytes(text::trimmed(cfg.contracts@[c].instances@[i].address@)) is Some,
        ({
            let ct = cfg.contracts@[c];
            let steps = model::instance_steps(
                cfg.labels@,
                ct,
                ct.parsed_abi->0@,
                ct.instances@[i],
            );
            0 <= in_instance < steps.len() && steps[in_instance] is Fail
        }),
    ensures
        ({
            let ct = cfg.contracts@[c];
            let steps = model::instance_steps(
                cfg.labels@,
                ct,
                ct.parsed_abi->0@,
                ct.instances@[i],
            );
            is_true_of(cfg, at, steps[in_instance]->Fail_0)
        }),
{
    let ct = cfg.contracts@[c];
    let fs = ct.parsed_abi->0@;
    let inst = ct.instances@[i];
    let step = model::instance_steps(cfg.labels@, ct, fs, inst)[in_instance];
    let target = words::address_bytes(text::trimmed(inst.address@))->0;
    let metric_at = |j: int|
        model::metric_steps(cfg.labels@, ct, fs, inst, target, ct.metrics@[j]);
    let (m, in_metric) = outcome::lemma_joined_from(ct.metrics@.len(), metric_at, in_instance);
    let metric = ct.metrics@[m];
    assert(metric_at(m)[in_metric] == step);
    let subcall_at = |k: int|
        model::subcall_steps(cfg.labels@, ct, fs, inst, target, metric, k);
    let (k, q) = outcome::lemma_joined_from(model::subcall_count(metric), subcall_at, in_metric);
    assert(subcall_at(k)[q] == step);
    abi::functions_are_found_by_name(fs, metric.function@);
    let at = Place { contract: c, instance: i, metric: m, call: k, output: q - 1 };
    if abi::named_function(fs, metric.function@) is Some {
        let n = abi::named_function(fs, metric.function@)->0;
        let f = fs[n];
        assert(is_called(ct, metric.function@, f));
        args::converted_arguments_fit(f, model::subcall_args(metric, k));
    }
    at
}

/// A configuration that is refused for anything but its help texts and gauges is refused for what
/// is wrong at one of its places.
pub proof fn plans_fail_for_what_is_wrong(cfg: Config, e: PlanErrorOf<Seq<char>>) -> (at: Place)
    requires
        model::planned(cfg) == Err::<model::PlanView, PlanErrorOf<Seq<char>>>(e),
        !(e is HelpConflict),
        !(e is Gauge),
    ensures
        is_true_of(cfg, at, e),
{
    let steps = model::config_steps(cfg);
    if model::steps_fault(steps) is None {
        let gauges = model::gauges_of(model::drafts(steps));
        let gauge_at = |i: int| model::gauge_fault(gauges[i]);
        let g = outcome::lemma_first_failure_at(gauges.len(), gauge_at);
        assert(gauge_at(g) == Some(e));
    }
    let fault_at = |i: int| model::step_fault(steps, i);
    let p = outcome::lemma_first_failure_at(steps.len(), fault_at);
    assert(fault_at(p) == Some(e));
    lemma_failure_from(cfg, p)
}

/// Whether the output at a place gives a series of a name: the contract's prefix, or its name where
/// it has none, an underscore and the name inferred for the output.
pub open spec fn has_name(cfg: Config, at: Place, name: Seq<char>) -> bool {
    let ct = cfg.contracts@[at.contract];
    let metric = ct.metrics@[at.metric];
    exists|f: sol::FunctionView| #[trigger]
        is_called(ct, metric.function@, f) && {
            let names = naming::inferred_names(
                metric.name@,
                config::outputs_view(metric.outputs@),
                f,
            );
            &&& names is Ok
            &&& 0 <= at.output < names->Ok_0.len()
            &&& name == (if ct.metric_prefix@.len() > 0 {
                ct.metric_prefix@ + "_"@ + names->Ok_0[at.output]
            } else if ct.name@.len() > 0 {
                ct.name@ + "_"@ + names->Ok_0[at.output]
            } else {
                names->Ok_0[at.output]
            })
        }
}

/// A configuration is refused for its help texts only if two metrics that give series of one name
/// have different ones.
pub proof fn help_conflicts_are_real(cfg: Config, name: Seq<char>) -> (r: (Place, Place))
    requires
        model::planned(cfg) == Err::<model::PlanView, PlanErrorOf<Seq<char>>>(
            PlanErrorOf::HelpConflict { name },
        ),
    ensures
        has_call(cfg, r.0),
        has_call(cfg, r.1),
        has_name(cfg, r.0, name),
        has_name(cfg, r.1, name),
        cfg.contracts@[r.0.contract].metrics@[r.0.metric].help@.len() > 0,
        cfg.contracts@[r.1.contract].metrics@[r.1.metric].help@.len() > 0,
        cfg.contracts@[r.0.contract].metrics@[r.0.metric].help@
            != cfg.contracts@[r.1.contract].metrics@[r.1.metric].help@,
{
    let e = PlanErrorOf::HelpConflict { name };
    let steps = model::config_steps(cfg);
    if model::steps_fault(steps) is None {
        let gauges = model::gauges_of(model::drafts(steps));
        let gauge_at = |i: int| model::gauge_fault(gauges[i]);
        let g = outcome::lemma_first_failure_at(gauges.len(), gauge_at);
        assert(gauge_at(g) == Some(e));
    }
    let fault_at = |i: int| model::step_fault(steps, i);
    let p = outcome::lemma_first_failure_at(steps.len(), fault_at);
    assert(fault_at(p) == Some(e));
    if steps[p] is Fail {
        let at = lemma_failure_from(cfg, p);
    }
    let d = steps[p]->Draft_0;
    let before = model::drafts(steps.take(p));
    assert(model::contradicts(before, d));
    let first = lemma_help_from(before, d.name);
    let q = lemma_draft_from(steps.take(p), first);
    assert(steps.take(p)[q] == steps[q]);
    (lemma_help_at(cfg, q), lemma_help_at(cfg, p))
}

/// A configuration is refused for a gauge only if Prometheus would refuse it, and for its reason.
pub proof fn refused_gauges_are_wrong(cfg: Config, name: Seq<char>, reason: Seq<char>) -> (g: (
    Seq<char>,
    Seq<Seq<char>>,
))
    requires
        model::planned(cfg) == Err::<model::PlanView, PlanErrorOf<Seq<char>>>(
            PlanErrorOf::Gauge { name, reason },
        ),
    ensures
        !metrics::is_describable(name, g.0, g.1, Set::empty()),
        reason == metrics::description_refusal(name, g.0, g.1),
{
    let e = PlanErrorOf::Gauge { name, reason };
    let steps = model::config_steps(cfg);
    if model::steps_fault(steps) is Some {
        let fault_at = |i: int| model::step_fault(steps, i);
        let p = outcome::lemma_first_failure_at(steps.len(), fault_at);
        assert(fault_at(p) == Some(e));
        let at = lemma_failure_from(cfg, p);
    }
    let gauges = model::gauges_of(model::drafts(steps));
    let gauge_at = |i: int| model::gauge_fault(gauges[i]);
    let i = outcome::lemma_first_failure_at(gauges.len(), gauge_at);
    assert(gauge_at(i) == Some(e));
    (gauges[i].help, gauges[i].label_keys)
}

/// A draft has the help text of the metric at its place, and the name that its output is given.
proof fn lemma_help_at(cfg: Config, p: int) -> (at: Place)
    requires
        0 <= p < model::config_steps(cfg).len(),
        model::config_steps(cfg)[p] is Draft,
    ensures
        has_call(cfg, at),
        model::config_steps(cfg)[p]->Draft_0.help
            == cfg.contracts@[at.contract].metrics@[at.metric].help@,
        has_name(cfg, at, model::config_steps(cfg)[p]->Draft_0.name),
{
    let step = model::config_steps(cfg)[p];
    let contract_at = |i: int| model::contract_steps(cfg.labels@, cfg.contracts@[i]);
    let (c, in_contract) = outcome::lemma_joined_from(cfg.contracts@.len(), contract_at, p);
    let ct = cfg.contracts@[c];
    assert(contract_at(c)[in_contract] == step);
    let fs = ct.parsed_abi->0@;
    let instance_at = |i: int| model::instance_steps(cfg.labels@, ct, fs, ct.instances@[i]);
    let (i, in_instance) = outcome::lemma_joined_from(
        ct.instances@.len(),
        instance_at,
        in_contract,
    );
    let inst = ct.instances@[i];
    assert(instance_at(i)[in_instance] == step);
    let target = words::address_bytes(text::trimmed(inst.address@))->0;
    let metric_at = |j: int|
        model::metric_steps(cfg.labels@, ct, fs, inst, target, ct.metrics@[j]);
    let (m, in_metric) = outcome::lemma_joined_from(ct.metrics@.len(), metric_at, in_instance);
    let metric = ct.metrics@[m];
    assert(metric_at(m)[in_metric] == step);
    let subcall_at = |k: int|
        model::subcall_steps(cfg.labels@, ct, fs, inst, target, metric, k);
    let (k, q) = outcome::lemma_joined_from(model::subcall_count(metric), subcall_at, in_metric);
    assert(subcall_at(k)[q] == step);
    let n = abi::named_function(fs, metric.function@)->0;
    let f = fs[n];
    abi::functions_are_found_by_name(fs, metric.function@);
    assert(is_called(ct, metric.function@, f));
    let outs = config::outputs_view(metric.outputs@);
    naming::one_name_per_output(metric.name@, outs, f);
    Place { contract: c, instance: i, metric: m, call: k, output: q - 1 }
}

/// Whether a place comes before another: an earlier contract, or in one contract an earlier instance,
/// at one instance an earlier metric, in one metric an earlier call, in one call an earlier output.
pub open spec fn comes_before(a: Place, b: Place) -> bool {
    ||| a.contract < b.contract
    ||| a.contract == b.contract && a.instance < b.instance
    ||| a.contract == b.contract && a.instance == b.instance && a.metric < b.metric
    ||| a.contract == b.contract && a.instance == b.instance && a.metric == b.metric && a.call
        < b.call
    ||| a.contract == b.contract && a.instance == b.instance && a.metric == b.metric && a.call
        == b.call && a.output < b.output
}

/// Whether the step `p` of one place comes before the step `q` of another.
spec fn steps_before(a: Place, p: int, b: Place, q: int) -> bool {
    comes_before(Place { output: p, ..a }, Place { output: q, ..b })
}

proof fn lemma_order_in_metric(cfg: Config, c: int, i: int, m: int, p: int, q: int) -> (r: (
    (Place, int),
    (Place, int),
))
    requires
        0 <= c < cfg.contracts@.len(),
        cfg.contracts@[c].parsed_abi is Some,
        0 <= i < cfg.contracts@[c].instances@.len(),
        words::address_bytes(text::trimmed(cfg.contracts@[c].instances@[i].address@)) is Some,
        0 <= m < cfg.contracts@[c].metrics@.len(),
        0 <= p < q < metric_steps_at(cfg, c, i, m).len(),
    ensures
        stands_at(cfg, metric_steps_at(cfg, c, i, m)[p], r.0.0, r.0.1),
        stands_at(cfg, metric_steps_at(cfg, c, i, m)[q], r.1.0, r.1.1),
        steps_before(r.0.0, r.0.1, r.1.0, r.1.1),
{
    let ct = cfg.contracts@[c];
    let inst = ct.instances@[i];
    let metric = ct.metrics@[m];
    let target = words::address_bytes(text::trimmed(inst.address@))->0;
    let subcall_at = |k: int|
        model::subcall_steps(cfg.labels@, ct, ct.parsed_abi->0@, inst, target, metric, k);
    let (a, b) = outcome::lemma_joined_order(model::subcall_count(metric), subcall_at, p, q);
    assert(subcall_at(a.0)[a.1] == metric_steps_at(cfg, c, i, m)[p]);
    assert(subcall_at(b.0)[b.1] == metric_steps_at(cfg, c, i, m)[q]);
    (
        (Place { contract: c, instance: i, metric: m, call: a.0, output: 0 }, a.1),
        (Place { contract: c, instance: i, metric: m, call: b.0, output: 0 }, b.1),
    )
}

proof fn lemma_order_in_instance(cfg: Config, c: int, i: int, p: int, q: int) -> (r: (
    (Place, int),
    (Place, int),
))
    requires
        0 <= c < cfg.contracts@.len(),
        cfg.contracts@[c].parsed_abi is Some,
        0 <= i < cfg.contracts@[c].instances@.len(),
        0 <= p < q < instance_steps_at(cfg, c, i).len(),
        instance_steps_at(cfg, c, i)[p] !is Fail,
        instance_steps_at(cfg, c, i)[q] !is Fail,
    ensures
        stands_at(cfg, instance_steps_at(cfg, c, i)[p], r.0.0, r.0.1),
        stands_at(cfg, instance_steps_at(cfg, c, i)[q], r.1.0, r.1.1),
        steps_before(r.0.0, r.0.1, r.1.0, r.1.1),
{
    let ct = cfg.contracts@[c];
    let inst = ct.instances@[i];
    assert(words::address_bytes(text::trimmed(inst.address@)) is Some);
    let target = words::address_bytes(text::trimmed(inst.address@))->0;
    let metric_at = |j: int|
        model::metric_steps(cfg.labels@, ct, ct.parsed_abi->0@, inst, target, ct.metrics@[j]);
    let (a, b) = outcome::lemma_joined_order(ct.metrics@.len(), metric_at, p, q);
    assert(metric_at(a.0)[a.1] == instance_steps_at(cfg, c, i)[p]);
    assert(metric_at(b.0)[b.1] == instance_steps_at(cfg, c, i)[q]);
    if a.0 < b.0 {
        (lemma_step_in_metric(cfg, c, i, a.0, a.1), lemma_step_in_metric(cfg, c, i, b.0, b.1))
    } else {
        lemma_order_in_metric(cfg, c, i, a.0, a.1, b.1)
    }
}

proof fn lemma_order_in_contract(cfg: Config, c: int, p: int, q: int) -> (r: (
    (Place, int),
    (Place, int),
))
    requires
        0 <= c < cfg.contracts@.len(),
        0 <= p < q < contract_steps_at(cfg, c).len(),
        contract_steps_at(cfg, c)[p] !is Fail,
        contract_steps_at(cfg, c)[q] !is Fail,
    ensures
        stands_at(cfg, contract_steps_at(cfg, c)[p], r.0.0, r.0.1),
        stands_at(cfg, contract_steps_at(cfg, c)[q], r.1.0, r.1.1),
        steps_before(r.0.0, r.0.1, r.1.0, r.1.1),
{
    let ct = cfg.contracts@[c];
    assert(ct.parsed_abi is Some);
    let instance_at = |i: int|
        model::instance_steps(cfg.labels@, ct, ct.parsed_abi->0@, ct.instances@[i]);
    let (a, b) = outcome::lemma_joined_order(ct.instances@.len(), instance_at, p, q);
    assert(instance_at(a.0)[a.1] == contract_steps_at(cfg, c)[p]);
    assert(instance_at(b.0)[b.1] == contract_steps_at(cfg, c)[q]);
    if a.0 < b.0 {
        (lemma_step_in_instance(cfg, c, a.0, a.1), lemma_step_in_instance(cfg, c, b.0, b.1))
    } else {
        lemma_order_in_instance(cfg, c, a.0, a.1, b.1)
    }
}

proof fn lemma_order(cfg: Config, p: int, q: int) -> (r: ((Place, int), (Place, int)))
    requires
        model::planned(cfg) is Ok,
        0 <= p < q < model::config_steps(cfg).len(),
    ensures
        stands_at(cfg, model::config_steps(cfg)[p], r.0.0, r.0.1),
        stands_at(cfg, model::config_steps(cfg)[q], r.1.0, r.1.1),
        steps_before(r.0.0, r.0.1, r.1.0, r.1.1),
{
    lemma_no_failure(cfg, p);
    lemma_no_failure(cfg, q);
    let contract_at = |i: int| model::contract_steps(cfg.labels@, cfg.contracts@[i]);
    let (a, b) = outcome::lemma_joined_order(cfg.contracts@.len(), contract_at, p, q);
    assert(contract_at(a.0)[a.1] == model::config_steps(cfg)[p]);
    assert(contract_at(b.0)[b.1] == model::config_steps(cfg)[q]);
    if a.0 < b.0 {
        (lemma_step_in_contract(cfg, a.0, a.1), lemma_step_in_contract(cfg, b.0, b.1))
    } else {
        lemma_order_in_contract(cfg, a.0, a.1, b.1)
    }
}

/// The series of a plan stand in the order of the configuration.
pub proof fn series_stand_in_order(cfg: Config, plan: model::PlanView, d: int, e: int) -> (r: (
    Place,
    Place,
))
    requires
        model::planned(cfg) == Ok::<model::PlanView, PlanErrorOf<Seq<char>>>(plan),
        0 <= d < e < plan.entries.len(),
    ensures
        is_series_at(cfg, plan, d, r.0),
        is_series_at(cfg, plan, e, r.1),
        comes_before(r.0, r.1),
{
    let steps = model::config_steps(cfg);
    let p = lemma_draft_from(steps, d);
    let q = lemma_draft_from(steps, e);
    assert(p < q) by {
        if q <= p {
            let between = steps.subrange(q, p);
            assert(steps.take(q) + between =~= steps.take(p));
            lemma_drafts_add(steps.take(q), between);
        }
    }
    let ((a, in_a), (b, in_b)) = lemma_order(cfg, p, q);
    let f = lemma_call_at(cfg, a);
    let g = lemma_call_at(cfg, b);
    let first = Place { output: in_a - 1, ..a };
    let second = Place { output: in_b - 1, ..b };
    assert(steps_at(cfg, first) == steps_at(cfg, a));
    assert(steps_at(cfg, second) == steps_at(cfg, b));
    let x = lemma_draft_at(cfg, first);
    let y = lemma_draft_at(cfg, second);
    lemma_series_of_draft(cfg, plan, d, first);
    lemma_series_of_draft(cfg, plan, e, second);
    (first, second)
}

/// The step at which a call is asked for first.
proof fn lemma_first_asked(steps: Seq<model::StepView>, n: int) -> (p: int)
    requires
        0 <= n < model::distinct_calls(steps).len(),
    ensures
        0 <= p < steps.len(),
        facts::asks_for(steps[p], model::distinct_calls(steps)[n]),
        model::distinct_calls(steps.take(p)).len() == n,
    decreases steps.len(),
{
    let before = steps.drop_last();
    let calls = model::distinct_calls(before);
    if n < calls.len() {
        let p = lemma_first_asked(before, n);
        assert(steps[p] == before[p]);
        assert(steps.take(p) =~= before.take(p));
        assert(model::distinct_calls(steps)[n] == calls[n]);
        p
    } else {
        assert(steps.take(steps.len() - 1) =~= before);
        steps.len() - 1
    }
}

proof fn lemma_calls_grow(steps: Seq<model::StepView>, p: int, q: int)
    requires
        0 <= p <= q <= steps.len(),
    ensures
        model::distinct_calls(steps.take(p)).len() <= model::distinct_calls(steps.take(q)).len(),
    decreases q - p,
{
    if p < q {
        facts::lemma_take_next(steps, q - 1);
        lemma_calls_grow(steps, p, q - 1);
    }
}

/// Every step of a place asks for the call there.
proof fn lemma_asked_at(cfg: Config, step: model::StepView, at: Place, q: int, call: multicall::CallView)
    requires
        model::planned(cfg) is Ok,
        stands_at(cfg, step, at, q),
        facts::asks_for(step, call),
    ensures
        call == steps_at(cfg, at)[0]->Call_0,
{
    let f = lemma_call_at(cfg, at);
    if q > 0 {
        let there = Place { output: q - 1, ..at };
        assert(steps_at(cfg, there) == steps_at(cfg, at));
        let d = lemma_draft_at(cfg, there);
        let ct = cfg.contracts@[at.contract];
        lemma_called_once(ct, ct.metrics@[at.metric].function@, f, d.decode.function);
    }
}

/// The calls of a plan stand in the order in which the configuration first asks for them.
pub proof fn calls_stand_in_order(cfg: Config, plan: model::PlanView, m: int, n: int) -> (r: (
    (Place, sol::FunctionView),
    (Place, sol::FunctionView),
))
    requires
        model::planned(cfg) == Ok::<model::PlanView, PlanErrorOf<Seq<char>>>(plan),
        0 <= m < n < plan.calls.len(),
    ensures
        has_call(cfg, r.0.0),
        is_call_at(cfg, r.0.0, r.0.1, plan.calls[m]),
        has_call(cfg, r.1.0),
        is_call_at(cfg, r.1.0, r.1.1, plan.calls[n]),
        comes_before(Place { output: 0, ..r.0.0 }, Place { output: 0, ..r.1.0 }),
{
    let steps = model::config_steps(cfg);
    let p = lemma_first_asked(steps, m);
    let q = lemma_first_asked(steps, n);
    if q <= p {
        lemma_calls_grow(steps, q, p);
    }
    facts::calls_and_gauges_are_distinct(cfg);
    let ((a, in_a), (b, in_b)) = lemma_order(cfg, p, q);
    lemma_asked_at(cfg, steps[p], a, in_a, plan.calls[m]);
    lemma_asked_at(cfg, steps[q], b, in_b, plan.calls[n]);
    let f = lemma_call_at(cfg, a);
    let g = lemma_call_at(cfg, b);
    if a.contract == b.contract && a.instance == b.instance && a.metric == b.metric && a.call
        == b.call {
        assert(steps_at(cfg, a) == steps_at(cfg, b));
    }
    ((a, f), (b, g))
}

/// The metric with which a name occurs first.
proof fn lemma_first_named(ds: Seq<model::DraftView>, g: int) -> (e: int)
    requires
        0 <= g < model::distinct_names(ds).len(),
    ensures
        0 <= e < ds.len(),
        ds[e].name == model::distinct_names(ds)[g],
        model::distinct_names(ds.take(e)).len() == g,
    decreases ds.len(),
{
    let before = ds.drop_last();
    let names = model::distinct_names(before);
    if g < names.len() {
        let e = lemma_first_named(before, g);
        assert(ds[e] == before[e]);
        assert(ds.take(e) =~= before.take(e));
        assert(model::distinct_names(ds)[g] == names[g]);
        e
    } else {
        assert(ds.take(ds.len() - 1) =~= before);
        ds.len() - 1
    }
}

proof fn lemma_names_grow(ds: Seq<model::DraftView>, d: int, e: int)
    requires
        0 <= d <= e <= ds.len(),
    ensures
        model::distinct_names(ds.take(d)).len() <= model::distinct_names(ds.take(e)).len(),
    decreases e - d,
{
    if d < e {
        assert(ds.take(e).drop_last() =~= ds.take(e - 1));
        lemma_names_grow(ds, d, e - 1);
    }
}

/// The gauges of a plan stand in the order of their first series, and each has one.
pub proof fn gauges_stand_in_order(cfg: Config, plan: model::PlanView, g: int, h: int) -> (r: (
    int,
    int,
))
    requires
        model::planned(cfg) == Ok::<model::PlanView, PlanErrorOf<Seq<char>>>(plan),
        0 <= g <= h < plan.gauges.len(),
    ensures
        0 <= r.0 < plan.entries.len(),
        0 <= r.1 < plan.entries.len(),
        plan.entries[r.0].gauge_index == g,
        plan.entries[r.1].gauge_index == h,
        g < h ==> r.0 < r.1,
        forall|e: int| 0 <= e < r.0 ==> (#[trigger] plan.entries[e]).gauge_index != g,
{
    let ds = model::drafts(model::config_steps(cfg));
    let names = model::distinct_names(ds);
    facts::lemma_names_distinct(ds);
    let d = lemma_first_named(ds, g);
    let e = lemma_first_named(ds, h);
    facts::lemma_index_of(names, g);
    facts::lemma_index_of(names, h);
    if g < h && e <= d {
        lemma_names_grow(ds, e, d);
    }
    assert forall|k: int| 0 <= k < d implies (#[trigger] plan.entries[k]).gauge_index != g by {
        if plan.entries[k].gauge_index == g {
            let first = ds.take(d);
            facts::lemma_names_distinct(first);
            assert(first[k] == ds[k]);
            let seen = model::distinct_names(first);
            assert(seen.contains(ds[k].name));
            let at = seen.index_of(ds[k].name);
            lemma_names_prefix(ds, d);
            assert(names[at] == seen[at]);
            assert(names.contains(ds[k].name));
            assert(names[names.index_of(ds[k].name)] == names[at]);
        }
    }
    (d, e)
}

proof fn lemma_names_prefix(ds: Seq<model::DraftView>, d: int)
    requires
        0 <= d <= ds.len(),
    ensures
        model::distinct_names(ds.take(d)).len() <= model::distinct_names(ds).len(),
        forall|i: int|
            0 <= i < model::distinct_names(ds.take(d)).len() ==> #[trigger] model::distinct_names(
                ds.take(d),
            )[i] == model::distinct_names(ds)[i],
    decreases ds.len(),
{
    if d < ds.len() {
        let before = ds.drop_last();
        lemma_names_prefix(before, d);
        assert(ds.take(d) =~= before.take(d));
    } else {
        assert(ds.take(d) =~= ds);
    }
}

} // verus!
