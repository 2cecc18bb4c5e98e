//! Facts about plans.

use crate::config;
use crate::config::abi;
use crate::config::args;
use crate::config::naming;
use crate::config::validate;
use crate::config::{Config, Contract, Instance, Metric};
use crate::labels;
use crate::multicall;
use crate::outcome;
use crate::planner::error::PlanErrorOf;
use crate::planner::model;
use crate::sol;
use crate::words;
use crate::text;
use vstd::prelude::*;

verus! {

/// The list of distinct calls has no repetition.
pub proof fn lemma_calls_distinct(steps: Seq<model::StepView>)
    ensures
        model::distinct_calls(steps).no_duplicates(),
    decreases steps.len(),
{
    if steps.len() > 0 {
        lemma_calls_distinct(steps.drop_last());
    }
}

/// The list of distinct names has no repetition and holds the names that occur.
pub proof fn lemma_names_distinct(ds: Seq<model::DraftView>)
    ensures
        model::distinct_names(ds).no_duplicates(),
        forall|i: int|
            0 <= i < ds.len() ==> model::distinct_names(ds).contains((#[trigger] ds[i]).name),
        forall|n: Seq<char>|
            #[trigger] model::distinct_names(ds).contains(n) ==> exists|i: int|
                0 <= i < ds.len() && (#[trigger] ds[i]).name == n,
    decreases ds.len(),
{
    if ds.len() > 0 {
        let before = ds.drop_last();
        let names = model::distinct_names(before);
        lemma_names_distinct(before);
        let now = model::distinct_names(ds);
        assert(now.contains(ds.last().name)) by {
            if !names.contains(ds.last().name) {
                assert(now[names.len() as int] == ds.last().name);
            }
        }
        assert forall|n: Seq<char>| names.contains(n) implies #[trigger] now.contains(n) by {
            let k = names.index_of(n);
            assert(now[k] == n);
        }
        assert forall|i: int| 0 <= i < ds.len() implies now.contains((#[trigger] ds[i]).name) by {
            if i < before.len() {
                assert(before[i] == ds[i]);
                assert(names.contains(ds[i].name));
            }
        }
        assert forall|n: Seq<char>| #[trigger] now.contains(n) implies exists|i: int|
            0 <= i < ds.len() && (#[trigger] ds[i]).name == n by {
            if names.contains(n) {
                let i = choose|i: int| 0 <= i < before.len() && (#[trigger] before[i]).name == n;
                assert(ds[i].name == n);
            } else {
                let k = now.index_of(n);
                if k < names.len() {
                    assert(names[k] == n);
                    assert(names.contains(n));
                }
                assert(ds[ds.len() - 1].name == n);
            }
        }
    }
}

/// The position of an item in a sequence without repetition.
pub proof fn lemma_index_of<T>(items: Seq<T>, i: int)
    requires
        items.no_duplicates(),
        0 <= i < items.len(),
    ensures
        items.index_of(items[i]) == i,
{
    assert(items.contains(items[i]));
}

/// A name that does not occur has no help text.
pub proof fn lemma_no_help(ds: Seq<model::DraftView>, name: Seq<char>)
    requires
        forall|i: int| 0 <= i < ds.len() ==> (#[trigger] ds[i]).name != name,
    ensures
        model::help_of(ds, name).len() == 0,
    decreases ds.len(),
{
    if ds.len() > 0 {
        let before = ds.drop_last();
        assert forall|i: int| 0 <= i < before.len() implies (#[trigger] before[i]).name
            != name by {
            assert(ds[i] == before[i]);
        }
        lemma_no_help(before, name);
    }
}

/// How one more metric changes the label keys of a name.
pub proof fn lemma_keys_push(ds: Seq<model::DraftView>, d: model::DraftView, name: Seq<char>)
    ensures
        model::keys_of(ds.push(d), name) == (if d.name == name {
            model::keys_of(ds, name).union(d.labels.dom())
        } else {
            model::keys_of(ds, name)
        }),
{
    let all = ds.push(d);
    assert forall|k: Seq<char>| #[trigger]
        model::keys_of(all, name).contains(k) <==> (model::keys_of(ds, name).contains(k) || (d.name
            == name && d.labels.dom().contains(k))) by {
        if model::keys_of(all, name).contains(k) {
            let i = choose|i: int|
                0 <= i < all.len() && (#[trigger] all[i]).name == name
                    && all[i].labels.dom().contains(k);
            if i < ds.len() {
                assert(ds[i] == all[i]);
            }
        }
        if model::keys_of(ds, name).contains(k) {
            let i = choose|i: int|
                0 <= i < ds.len() && (#[trigger] ds[i]).name == name
                    && ds[i].labels.dom().contains(k);
            assert(all[i] == ds[i]);
        }
        if d.name == name && d.labels.dom().contains(k) {
            assert(all[ds.len() as int] == d);
        }
    }
    assert(model::keys_of(all, name) =~= (if d.name == name {
        model::keys_of(ds, name).union(d.labels.dom())
    } else {
        model::keys_of(ds, name)
    }));
}

/// A list of keys is the ordering of the set it lists.
pub proof fn lemma_ordered(q: Seq<Seq<char>>, keys: Set<Seq<char>>)
    requires
        model::lists(q, keys),
    ensures
        model::ordered(keys) == q,
{
    let o = model::ordered(keys);
    assert(model::lists(o, keys));
    labels::ascending_order_is_unique(o, q);
}

/// The steps up to and with the one at `i`.
pub proof fn lemma_take_next(steps: Seq<model::StepView>, i: int)
    requires
        0 <= i < steps.len(),
    ensures
        steps.take(i + 1).drop_last() == steps.take(i),
        steps.take(i + 1).last() == steps[i],
{
    assert(steps.take(i + 1).drop_last() =~= steps.take(i));
}

/// The call of every metric is among the calls.
proof fn lemma_calls_of_drafts(steps: Seq<model::StepView>)
    ensures
        forall|i: int|
            0 <= i < model::drafts(steps).len() ==> model::distinct_calls(steps).contains(
                (#[trigger] model::drafts(steps)[i]).call,
            ),
    decreases steps.len(),
{
    if steps.len() > 0 {
        let before = steps.drop_last();
        lemma_calls_of_drafts(before);
        let old_calls = model::distinct_calls(before);
        let calls = model::distinct_calls(steps);
        assert forall|c: multicall::CallView| old_calls.contains(c) implies #[trigger] calls.contains(
            c,
        ) by {
            let k = old_calls.index_of(c);
            assert(calls[k] == c);
        }
        if let model::StepView::Draft(d) = steps.last() {
            if !old_calls.contains(d.call) {
                assert(calls[old_calls.len() as int] == d.call);
            }
        }
        assert forall|i: int| 0 <= i < model::drafts(steps).len() implies calls.contains(
            (#[trigger] model::drafts(steps)[i]).call,
        ) by {
            if i < model::drafts(before).len() {
                assert(model::drafts(before)[i] == model::drafts(steps)[i]);
            }
        }
    }
}

/// No call is planned twice, and no two gauges have one name.
pub proof fn calls_and_gauges_are_distinct(cfg: Config)
    ensures
        model::planned(cfg) matches Ok(plan) ==> plan.calls.no_duplicates() && (forall|i: int, j: int|
            0 <= i < plan.gauges.len() && 0 <= j < plan.gauges.len() && i != j ==> (
            #[trigger] plan.gauges[i]).name != (#[trigger] plan.gauges[j]).name),
{
    let steps = model::config_steps(cfg);
    lemma_calls_distinct(steps);
    lemma_names_distinct(model::drafts(steps));
}

/// Every series of a plan that steps give refers to a call and a gauge of the plan.
pub proof fn lemma_plan_is_whole(steps: Seq<model::StepView>, chain_id: u64, max_calls: usize)
    ensures
        model::is_whole(model::plan_of(steps, chain_id, max_calls)),
{
    let ds = model::drafts(steps);
    let plan = model::plan_of(steps, chain_id, max_calls);
    lemma_calls_of_drafts(steps);
    lemma_names_distinct(ds);
    assert forall|i: int| 0 <= i < plan.entries.len() implies ({
        let e = #[trigger] plan.entries[i];
        &&& 0 <= e.call_index < plan.calls.len()
        &&& plan.calls[e.call_index].target == e.address
        &&& 0 <= e.gauge_index < plan.gauges.len()
        &&& plan.gauges[e.gauge_index].name == e.metric_name
        &&& plan.gauges[e.gauge_index].label_keys == e.label_keys
        &&& e.label_values.len() == e.label_keys.len()
    }) by {
        assert(plan.calls.contains(ds[i].call));
        assert(model::distinct_names(ds).contains(ds[i].name));
    }
}

/// Every series refers to a call and a gauge of the plan: the call goes to the series' address,
/// the gauge has the series' name and label keys, and there is one label value per key.
pub proof fn series_refer_to_the_plan(cfg: Config)
    ensures
        model::planned(cfg) matches Ok(plan) ==> model::is_whole(plan),
{
    lemma_plan_is_whole(
        model::config_steps(cfg),
        cfg.chain.chain_id,
        cfg.scrape.max_calls_per_batch,
    );
}

/// Every series is read from the call that the configuration asks for.
pub proof fn series_read_their_own_call(cfg: Config, i: int)
    ensures
        model::planned(cfg) matches Ok(plan) ==> (0 <= i < plan.entries.len()
            ==> plan.calls[plan.entries[i].call_index] == model::drafts(
            model::config_steps(cfg),
        )[i].call),
{
    let steps = model::config_steps(cfg);
    lemma_calls_of_drafts(steps);
    if let Ok(plan) = model::planned(cfg) {
        if 0 <= i < plan.entries.len() {
            assert(plan.calls.contains(model::drafts(steps)[i].call));
        }
    }
}

/// Whether a step asks for a call.
pub open spec fn asks_for(step: model::StepView, call: multicall::CallView) -> bool {
    match step {
        model::StepView::Fail(_) => false,
        model::StepView::Call(c) => c == call,
        model::StepView::Draft(d) => d.call == call,
    }
}

proof fn lemma_calls_are_asked_for(steps: Seq<model::StepView>)
    ensures
        forall|c: multicall::CallView| #[trigger]
            model::distinct_calls(steps).contains(c) <==> exists|i: int|
                0 <= i < steps.len() && asks_for(#[trigger] steps[i], c),
    decreases steps.len(),
{
    let calls = model::distinct_calls(steps);
    if steps.len() > 0 {
        let before = steps.drop_last();
        let old_calls = model::distinct_calls(before);
        let last = steps[steps.len() - 1];
        lemma_calls_are_asked_for(before);
        assert forall|c: multicall::CallView| #[trigger] calls.contains(c) <==> (old_calls.contains(
            c,
        ) || asks_for(last, c)) by {
            if old_calls.contains(c) {
                assert(calls[old_calls.index_of(c)] == c);
            }
            if asks_for(last, c) && !old_calls.contains(c) {
                assert(calls[old_calls.len() as int] == c);
            }
            if calls.contains(c) {
                let k = calls.index_of(c);
                if k < old_calls.len() {
                    assert(old_calls[k] == c);
                }
            }
        }
        assert forall|c: multicall::CallView| #[trigger] calls.contains(c) <==> (exists|i: int|
            0 <= i < steps.len() && asks_for(#[trigger] steps[i], c)) by {
            if old_calls.contains(c) {
                let i = choose|i: int| 0 <= i < before.len() && asks_for(#[trigger] before[i], c);
                assert(steps[i] == before[i]);
            }
            if exists|i: int| 0 <= i < steps.len() && asks_for(#[trigger] steps[i], c) {
                let i = choose|i: int| 0 <= i < steps.len() && asks_for(#[trigger] steps[i], c);
                if i < before.len() {
                    assert(before[i] == steps[i]);
                }
            }
        }
    }
}

/// The planned calls are those that the configuration asks for, and no others.
pub proof fn planned_calls_are_asked_for(cfg: Config, call: multicall::CallView)
    ensures
        model::planned(cfg) matches Ok(plan) ==> (plan.calls.contains(call) <==> exists|i: int|
            0 <= i < model::config_steps(cfg).len() && asks_for(
                #[trigger] model::config_steps(cfg)[i],
                call,
            )),
{
    lemma_calls_are_asked_for(model::config_steps(cfg));
}

/// Two series of one metric have the same gauge and the same label keys.
pub proof fn series_of_a_metric_share_their_gauge(cfg: Config, i: int, j: int)
    ensures
        model::planned(cfg) matches Ok(plan) ==> (0 <= i < plan.entries.len() && 0 <= j
            < plan.entries.len() && plan.entries[i].metric_name == plan.entries[j].metric_name
            ==> plan.entries[i].gauge_index == plan.entries[j].gauge_index
            && plan.entries[i].label_keys == plan.entries[j].label_keys),
{
}

/// The planned number of requests is the number of requests into which the calls are split.
pub proof fn planned_requests_are_made(cfg: Config)
    ensures
        model::planned(cfg) matches Ok(plan) ==> plan.chunk_count == multicall::ranges_of(
            plan.calls.len() as int,
            cfg.scrape.max_calls_per_batch as int,
        ).len(),
{
    if let Ok(plan) = model::planned(cfg) {
        let len = plan.calls.len() as int;
        let max = cfg.scrape.max_calls_per_batch as int;
        if len > 0 {
            vstd::arithmetic::div_mod::lemma_div_pos_is_pos(
                len + multicall::chunk_size(len, max) - 1,
                multicall::chunk_size(len, max),
            );
        }
    }
}

/// Of the labels of one key the call's counts before the instance's, that before the contract's,
/// and that before the one of the whole configuration.
pub proof fn nearer_labels_win(
    top: Map<Seq<char>, Seq<char>>,
    contract: Map<Seq<char>, Seq<char>>,
    instance: Map<Seq<char>, Seq<char>>,
    call: Map<Seq<char>, Seq<char>>,
    key: Seq<char>,
)
    ensures
        ({
            let merged = model::merged_labels(top, contract, instance, call);
            if call.dom().contains(key) {
                merged.dom().contains(key) && merged[key] == call[key]
            } else if instance.dom().contains(key) {
                merged.dom().contains(key) && merged[key] == instance[key]
            } else if contract.dom().contains(key) {
                merged.dom().contains(key) && merged[key] == contract[key]
            } else if top.dom().contains(key) {
                merged.dom().contains(key) && merged[key] == top[key]
            } else {
                !merged.dom().contains(key)
            }
        }),
{
}

// A validated configuration.

/// Whether an error of the planner comes from the data of the configuration, an address, an
/// argument, a help text or a label key, and not from an interface that was not read or does not
/// fit.
pub open spec fn is_data_error(e: PlanErrorOf<Seq<char>>) -> bool {
    match e {
        PlanErrorOf::Address { .. } => true,
        PlanErrorOf::Args { fault, .. } => !(fault is Count),
        PlanErrorOf::HelpConflict { .. } => true,
        PlanErrorOf::Gauge { .. } => true,
        _ => false,
    }
}

/// Whether a label set holds none of the keys that the exporter sets.
pub open spec fn free_of_reserved(labels: Map<Seq<char>, Seq<char>>) -> bool {
    !labels.dom().contains("address"@) && !labels.dom().contains("chain_id"@)
}

/// Whether no step has an error but of the data, nor a reserved label.
pub open spec fn sound(steps: Seq<model::StepView>) -> bool {
    forall|i: int|
        0 <= i < steps.len() ==> match #[trigger] steps[i] {
            model::StepView::Fail(e) => is_data_error(e),
            model::StepView::Call(_) => true,
            model::StepView::Draft(d) => free_of_reserved(d.labels),
        }
}

proof fn lemma_joined_sound(n: nat, at: spec_fn(int) -> Seq<model::StepView>)
    requires
        forall|i: int| 0 <= i < n ==> sound(#[trigger] at(i)),
    ensures
        sound(outcome::joined(n, at)),
    decreases n,
{
    if n > 0 {
        lemma_joined_sound((n - 1) as nat, at);
        assert(sound(at(n - 1)));
    }
}

proof fn lemma_reserved(context: Seq<char>, labels: Map<Seq<char>, Seq<char>>)
    requires
        validate::label_fault(context, labels) is None,
    ensures
        free_of_reserved(labels),
{
    assert(config::RESERVED_LABEL_KEYS@[0] == "address");
    assert(config::RESERVED_LABEL_KEYS@[1] == "chain_id");
}

/// Whether a configuration has passed validation, `before` being what it was before.
pub open spec fn passed_validation(
    before: Config,
    after: Config,
    files: Seq<Result<String, String>>,
) -> bool {
    &&& validate::config_outcome(before, files) is Ok
    &&& validate::same_but_interfaces(before, after)
    &&& validate::has_interfaces(after.contracts@, files, before.contracts@.len() as int)
}

/// A metric that passed validation asks for nothing that its interface does not have.
proof fn lemma_subcall_sound(
    top: Map<Seq<char>, Seq<char>>,
    ct: Contract,
    fs: Seq<sol::FunctionView>,
    inst: Instance,
    target: Seq<u8>,
    m: Metric,
    k: int,
)
    requires
        free_of_reserved(top),
        free_of_reserved(ct.labels@),
        free_of_reserved(inst.labels@),
        validate::metric_fault(fs, m) is None,
        0 <= k < model::subcall_count(m),
    ensures
        sound(model::subcall_steps(top, ct, fs, inst, target, m, k)),
{
    let i = abi::resolved_function(fs, m.function@)->Ok_0;
    let f = fs[i];
    let outs = config::outputs_view(m.outputs@);
    assert(abi::named_function(fs, m.function@) == Some(i));
    assert(validate::calls_fault(f, m) is None);
    if m.calls@.len() > 0 {
        let call_at = |j: int| validate::call_fault(f, m.calls@, j);
        outcome::lemma_no_failure(m.calls@.len(), call_at);
        assert(call_at(k) is None);
        lemma_reserved(validate::call_labels_context(k), m.calls@[k].labels@);
    }
    assert(model::subcall_args(m, k).len() == f.inputs.len());
    args::converted_arguments_fit(f, model::subcall_args(m, k));
    if let Err(fault) = args::converted(f, model::subcall_args(m, k)) {
        let arg_at = |j: int| args::argument_at(f.inputs, model::subcall_args(m, k), j);
        lemma_argument_fault(f.inputs.len(), f.inputs, model::subcall_args(m, k));
    } else {
        let merged = model::merged_labels(
            top,
            ct.labels@,
            inst.labels@,
            model::subcall_labels(m, k),
        );
        assert(validate::outputs_fault(f, outs) is None);
        let output_at = |j: int| validate::output_fault(f, outs, j);
        outcome::lemma_no_failure(outs.len(), output_at);
        assert(naming::inferred_names(m.name@, outs, f) is Ok);
        assert forall|j: int| 0 <= j < naming::selected_outputs(outs, f).len() implies ({
            let o = #[trigger] naming::selected_outputs(outs, f)[j];
            o.field.len() == 0 || abi::tuple_field(f, o.index, o.field) is Ok
        }) by {
            if outs.len() > 0 {
                assert(output_at(j) is None);
            }
        }
        let steps = model::subcall_steps(top, ct, fs, inst, target, m, k);
        let values = args::converted(f, model::subcall_args(m, k))->Ok_0;
        let call = multicall::CallView { target, call_data: sol::packed(f, values)->Ok_0 };
        let tail = model::output_steps(ct, m, f, call, merged);
        assert(steps == seq![model::StepView::Call(call)] + tail);
        assert forall|j: int| 0 <= j < steps.len() implies match #[trigger] steps[j] {
            model::StepView::Fail(e) => is_data_error(e),
            model::StepView::Call(_) => true,
            model::StepView::Draft(d) => free_of_reserved(d.labels),
        } by {
            if j > 0 {
                assert(steps[j] == tail[j - 1]);
                let o = naming::selected_outputs(outs, f)[j - 1];
            }
        }
    }
}

/// A failure among arguments of the right number is not one of their number.
proof fn lemma_argument_fault(n: nat, inputs: Seq<sol::ParamView>, values: Seq<crate::yaml::YamlValue>)
    ensures
        outcome::gathered(n, |i: int| args::argument_at(inputs, values, i)) matches Err(e) ==> !(
        e is Count),
    decreases n,
{
    if n > 0 {
        lemma_argument_fault((n - 1) as nat, inputs, values);
    }
}

proof fn lemma_instance_sound(
    top: Map<Seq<char>, Seq<char>>,
    ct: Contract,
    fs: Seq<sol::FunctionView>,
    i: int,
)
    requires
        free_of_reserved(top),
        free_of_reserved(ct.labels@),
        validate::body_fault(ct, fs) is None,
        0 <= i < ct.instances@.len(),
    ensures
        sound(model::instance_steps(top, ct, fs, ct.instances@[i])),
{
    let inst = ct.instances@[i];
    let instance_at = |j: int| validate::instance_fault(ct.instances@, j);
    outcome::lemma_no_failure(ct.instances@.len(), instance_at);
    assert(instance_at(i) is None);
    lemma_reserved(validate::instance_labels_context(i), inst.labels@);
    let fault_at = |j: int| validate::metric_fault_at(fs, ct.metrics@, j);
    outcome::lemma_no_failure(ct.metrics@.len(), fault_at);
    if let Some(target) = words::address_bytes(text::trimmed(inst.address@)) {
        let metric_at = |j: int| model::metric_steps(top, ct, fs, inst, target, ct.metrics@[j]);
        assert forall|j: int| 0 <= j < ct.metrics@.len() implies sound(#[trigger] metric_at(j)) by {
            let m = ct.metrics@[j];
            assert(fault_at(j) is None);
            let subcall_at = |k: int| model::subcall_steps(top, ct, fs, inst, target, m, k);
            assert forall|k: int| 0 <= k < model::subcall_count(m) implies sound(
                #[trigger] subcall_at(k),
            ) by {
                lemma_subcall_sound(top, ct, fs, inst, target, m, k);
            }
            lemma_joined_sound(model::subcall_count(m), subcall_at);
        }
        lemma_joined_sound(ct.metrics@.len(), metric_at);
    }
}

/// The steps of a validated configuration fail for its data only, and no label has a reserved
/// key.
proof fn lemma_validated_steps(before: Config, after: Config, files: Seq<Result<String, String>>)
    requires
        passed_validation(before, after, files),
    ensures
        sound(model::config_steps(after)),
{
    let n = before.contracts@.len();
    let outcome_at = |i: int| validate::contract_outcome_at(before.contracts@, files, i);
    outcome::lemma_gathered(n, outcome_at);
    lemma_reserved("labels"@, before.labels@);
    let contract_at = |i: int| model::contract_steps(after.labels@, after.contracts@[i]);
    assert forall|i: int| 0 <= i < n implies sound(#[trigger] contract_at(i)) by {
        assert(outcome_at(i) is Ok);
        let ct = after.contracts@[i];
        let was = before.contracts@[i];
        assert(ct == (Contract { parsed_abi: ct.parsed_abi, ..was }));
        let fs = ct.parsed_abi->0@;
        assert(validate::abi_outcome(ct, files[i]) == validate::abi_outcome(was, files[i]));
        assert(validate::header_fault(was) is None);
        lemma_reserved("labels"@, was.labels@);
        assert(validate::body_fault(was, fs) is None);
        assert(validate::body_fault(ct, fs) == validate::body_fault(was, fs));
        let instance_at = |j: int| model::instance_steps(after.labels@, ct, fs, ct.instances@[j]);
        assert forall|j: int| 0 <= j < ct.instances@.len() implies sound(
            #[trigger] instance_at(j),
        ) by {
            lemma_instance_sound(after.labels@, ct, fs, j);
        }
        lemma_joined_sound(ct.instances@.len(), instance_at);
    }
    lemma_joined_sound(n, contract_at);
}

/// Planning a validated configuration fails for its data only: an address that is none, an
/// argument that does not have its parameter's type, contradicting help texts, or a label key
/// that Prometheus refuses. It never fails because an interface is missing or does not have what
/// the configuration asks for.
pub proof fn validated_plans_fail_for_data_only(
    before: Config,
    after: Config,
    files: Seq<Result<String, String>>,
)
    requires
        passed_validation(before, after, files),
    ensures
        model::planned(after) matches Err(e) ==> is_data_error(e),
{
    let steps = model::config_steps(after);
    lemma_validated_steps(before, after, files);
    if let Some(e) = model::steps_fault(steps) {
        let at = |i: int| model::step_fault(steps, i);
        let i = outcome::lemma_first_failure_at(steps.len(), at);
        assert(at(i) == Some(e));
    } else {
        let gauges = model::gauges_of(model::drafts(steps));
        let at = |i: int| model::gauge_fault(gauges[i]);
        if outcome::first_failure(gauges.len(), at) is Some {
            let i = outcome::lemma_first_failure_at(gauges.len(), at);
            assert(at(i) is Some);
        }
    }
}

proof fn lemma_drafts_sound(steps: Seq<model::StepView>)
    requires
        sound(steps),
    ensures
        forall|i: int|
            0 <= i < model::drafts(steps).len() ==> free_of_reserved(
                (#[trigger] model::drafts(steps)[i]).labels,
            ),
    decreases steps.len(),
{
    if steps.len() > 0 {
        let before = steps.drop_last();
        assert(sound(before)) by {
            assert forall|i: int| 0 <= i < before.len() implies match #[trigger] before[i] {
                model::StepView::Fail(e) => is_data_error(e),
                model::StepView::Call(_) => true,
                model::StepView::Draft(d) => free_of_reserved(d.labels),
            } by {
                assert(steps[i] == before[i]);
            }
        }
        lemma_drafts_sound(before);
        let last = steps[steps.len() - 1];
        assert forall|i: int| 0 <= i < model::drafts(steps).len() implies free_of_reserved(
            (#[trigger] model::drafts(steps)[i]).labels,
        ) by {
            if i < model::drafts(before).len() {
                assert(model::drafts(before)[i] == model::drafts(steps)[i]);
            }
        }
    }
}

/// The labels of a validated configuration keep clear of the keys that the exporter sets: no
/// series of any metric has one of them.
pub proof fn validated_labels_keep_clear(
    before: Config,
    after: Config,
    files: Seq<Result<String, String>>,
    name: Seq<char>,
)
    requires
        passed_validation(before, after, files),
    ensures
        ({
            let keys = model::keys_of(model::drafts(model::config_steps(after)), name);
            !keys.contains("address"@) && !keys.contains("chain_id"@)
        }),
{
    lemma_validated_steps(before, after, files);
    lemma_drafts_sound(model::config_steps(after));
}

/// Whether the labels of a step, if it has any, are finitely many.
spec fn has_finite_labels(step: model::StepView) -> bool {
    step matches model::StepView::Draft(d) ==> d.labels.dom().finite()
}

proof fn lemma_subcall_finite(
    cfg: Config,
    ct: Contract,
    fs: Seq<sol::FunctionView>,
    inst: Instance,
    target: Seq<u8>,
    m: Metric,
    k: int,
    j: int,
)
    requires
        0 <= k < model::subcall_count(m),
        0 <= j < model::subcall_steps(cfg.labels@, ct, fs, inst, target, m, k).len(),
    ensures
        has_finite_labels(model::subcall_steps(cfg.labels@, ct, fs, inst, target, m, k)[j]),
{
    labels::label_sets_are_finite(cfg.labels);
    labels::label_sets_are_finite(ct.labels);
    labels::label_sets_are_finite(inst.labels);
    if m.calls@.len() > 0 {
        labels::label_sets_are_finite(m.calls@[k].labels);
    }
    let merged = model::merged_labels(
        cfg.labels@,
        ct.labels@,
        inst.labels@,
        model::subcall_labels(m, k),
    );
    assert(merged.dom() =~= cfg.labels@.dom().union(ct.labels@.dom()).union(
        inst.labels@.dom(),
    ).union(model::subcall_labels(m, k).dom()));
    assert(merged.dom().finite());
}

proof fn lemma_instance_finite(cfg: Config, ct: Contract, fs: Seq<sol::FunctionView>, inst: Instance)
    ensures
        forall|j: int|
            0 <= j < model::instance_steps(cfg.labels@, ct, fs, inst).len() ==> has_finite_labels(
                #[trigger] model::instance_steps(cfg.labels@, ct, fs, inst)[j],
            ),
{
    let p = |step: model::StepView| has_finite_labels(step);
    if let Some(target) = words::address_bytes(text::trimmed(inst.address@)) {
        let metric_at = |i: int|
            model::metric_steps(cfg.labels@, ct, fs, inst, target, ct.metrics@[i]);
        assert forall|i: int, j: int|
            #![trigger metric_at(i)[j]]
            0 <= i < ct.metrics@.len() && 0 <= j < metric_at(i).len() implies p(
            metric_at(i)[j],
        ) by {
            let m = ct.metrics@[i];
            let subcall_at = |k: int|
                model::subcall_steps(cfg.labels@, ct, fs, inst, target, m, k);
            assert forall|k: int, q: int|
                #![trigger subcall_at(k)[q]]
                0 <= k < model::subcall_count(m) && 0 <= q < subcall_at(k).len() implies p(
                subcall_at(k)[q],
            ) by {
                lemma_subcall_finite(cfg, ct, fs, inst, target, m, k, q);
            }
            outcome::lemma_joined_all(model::subcall_count(m), subcall_at, p);
        }
        outcome::lemma_joined_all(ct.metrics@.len(), metric_at, p);
        assert forall|j: int|
            0 <= j < model::instance_steps(
                cfg.labels@,
                ct,
                fs,
                inst,
            ).len() implies has_finite_labels(
            #[trigger] model::instance_steps(cfg.labels@, ct, fs, inst)[j],
        ) by {
            assert(p(outcome::joined(ct.metrics@.len(), metric_at)[j]));
        }
    }
}

proof fn lemma_steps_finite(cfg: Config)
    ensures
        forall|j: int|
            0 <= j < model::config_steps(cfg).len() ==> has_finite_labels(
                #[trigger] model::config_steps(cfg)[j],
            ),
{
    let p = |step: model::StepView| has_finite_labels(step);
    let contract_at = |i: int| model::contract_steps(cfg.labels@, cfg.contracts@[i]);
    assert forall|i: int, j: int|
        #![trigger contract_at(i)[j]]
        0 <= i < cfg.contracts@.len() && 0 <= j < contract_at(i).len() implies p(
        contract_at(i)[j],
    ) by {
        let ct = cfg.contracts@[i];
        if let Some(parsed) = ct.parsed_abi {
            let instance_at = |k: int|
                model::instance_steps(cfg.labels@, ct, parsed@, ct.instances@[k]);
            assert forall|k: int, q: int|
                #![trigger instance_at(k)[q]]
                0 <= k < ct.instances@.len() && 0 <= q < instance_at(k).len() implies p(
                instance_at(k)[q],
            ) by {
                lemma_instance_finite(cfg, ct, parsed@, ct.instances@[k]);
            }
            outcome::lemma_joined_all(ct.instances@.len(), instance_at, p);
        }
    }
    outcome::lemma_joined_all(cfg.contracts@.len(), contract_at, p);
    assert forall|j: int| 0 <= j < model::config_steps(cfg).len() implies has_finite_labels(
        #[trigger] model::config_steps(cfg)[j],
    ) by {
        assert(p(outcome::joined(cfg.contracts@.len(), contract_at)[j]));
    }
}

proof fn lemma_drafts_finite(steps: Seq<model::StepView>)
    requires
        forall|j: int| 0 <= j < steps.len() ==> has_finite_labels(#[trigger] steps[j]),
    ensures
        forall|i: int|
            0 <= i < model::drafts(steps).len() ==> (#[trigger] model::drafts(
                steps,
            )[i]).labels.dom().finite(),
    decreases steps.len(),
{
    if steps.len() > 0 {
        let before = steps.drop_last();
        assert forall|j: int| 0 <= j < before.len() implies has_finite_labels(
            #[trigger] before[j],
        ) by {
            assert(steps[j] == before[j]);
        }
        lemma_drafts_finite(before);
        assert(has_finite_labels(steps[steps.len() - 1]));
        assert forall|i: int| 0 <= i < model::drafts(steps).len() implies (#[trigger] model::drafts(
            steps,
        )[i]).labels.dom().finite() by {
            if i < model::drafts(before).len() {
                assert(model::drafts(before)[i] == model::drafts(steps)[i]);
            }
        }
    }
}

proof fn lemma_keys_finite(ds: Seq<model::DraftView>, name: Seq<char>)
    requires
        forall|i: int| 0 <= i < ds.len() ==> (#[trigger] ds[i]).labels.dom().finite(),
    ensures
        model::keys_of(ds, name).finite(),
    decreases ds.len(),
{
    if ds.len() == 0 {
        assert(model::keys_of(ds, name) =~= Set::empty());
    } else {
        let before = ds.drop_last();
        assert forall|i: int| 0 <= i < before.len() implies (
        #[trigger] before[i]).labels.dom().finite() by {
            assert(ds[i] == before[i]);
        }
        lemma_keys_finite(before, name);
        lemma_keys_push(before, ds.last(), name);
        assert(before.push(ds.last()) =~= ds);
        assert(ds[ds.len() - 1].labels.dom().finite());
    }
}

/// The label keys of a series are, in ascending order, the keys that occur with any series of
/// its metric, and then `address` and `chain_id`. So a key that only some series of a metric
/// have is a key of all of them.
pub proof fn label_keys_are_the_union(cfg: Config, i: int)
    ensures
        model::planned(cfg) matches Ok(plan) ==> (0 <= i < plan.entries.len() ==> ({
            let ds = model::drafts(model::config_steps(cfg));
            let keys = plan.entries[i].label_keys;
            let own = keys.take(keys.len() - 2);
            &&& keys.len() >= 2
            &&& keys[keys.len() - 2] == "address"@
            &&& keys[keys.len() - 1] == "chain_id"@
            &&& labels::ascending(own)
            &&& forall|k: Seq<char>| #[trigger]
                own.contains(k) <==> (exists|j: int|
                    0 <= j < ds.len() && (#[trigger] ds[j]).name == plan.entries[i].metric_name
                        && ds[j].labels.dom().contains(k))
        })),
{
    let steps = model::config_steps(cfg);
    let ds = model::drafts(steps);
    lemma_steps_finite(cfg);
    lemma_drafts_finite(steps);
    if let Ok(plan) = model::planned(cfg) {
        if 0 <= i < plan.entries.len() {
            let set = model::keys_of(ds, ds[i].name);
            lemma_keys_finite(ds, ds[i].name);
            let q = labels::finite_sets_have_an_order(set);
            assert(model::lists(q, set));
            lemma_ordered(q, set);
            let keys = plan.entries[i].label_keys;
            assert(keys.take(keys.len() - 2) =~= q);
        }
    }
}

/// The labels of a series have the values that are configured for it, and are empty where only
/// other series of its metric have the key. `address` and `chain_id` are what they say.
pub proof fn missing_labels_are_empty(cfg: Config, i: int, j: int)
    ensures
        model::planned(cfg) matches Ok(plan) ==> (0 <= i < plan.entries.len() && 0 <= j
            < plan.entries[i].label_keys.len() ==> ({
            let d = model::drafts(model::config_steps(cfg))[i];
            let key = plan.entries[i].label_keys[j];
            let value = plan.entries[i].label_values[j];
            if key == "address"@ {
                value == text::hex_text(plan.entries[i].address)
            } else if key == "chain_id"@ {
                value == text::decimal(cfg.chain.chain_id as nat)
            } else if d.labels.dom().contains(key) {
                value == d.labels[key]
            } else {
                value.len() == 0
            }
        })),
{
}

/// The steps of a planned configuration hold no failure.
proof fn lemma_no_failed_step(cfg: Config, c: int, j: int)
    requires
        model::planned(cfg) is Ok,
        0 <= c < cfg.contracts@.len(),
        0 <= j < model::contract_steps(cfg.labels@, cfg.contracts@[c]).len(),
    ensures
        model::contract_steps(cfg.labels@, cfg.contracts@[c])[j] !is Fail,
{
    let steps = model::config_steps(cfg);
    let contract_at = |i: int| model::contract_steps(cfg.labels@, cfg.contracts@[i]);
    let p = outcome::lemma_joined_at(cfg.contracts@.len(), contract_at, c, j);
    let fault_at = |i: int| model::step_fault(steps, i);
    outcome::lemma_no_failure(steps.len(), fault_at);
    assert(fault_at(p) is None);
    assert(contract_at(c)[j] == steps[p]);
}

/// If a configuration can be planned, everything in it checks out: every contract's interface has
/// been read, every instance has an address, and for every call of every metric the interface
/// has the function, the arguments have its parameters' types and the outputs exist.
pub proof fn plans_check_everything(cfg: Config, c: int, i: int, m: int, k: int)
    requires
        model::planned(cfg) is Ok,
        0 <= c < cfg.contracts@.len(),
        0 <= i < cfg.contracts@[c].instances@.len(),
        0 <= m < cfg.contracts@[c].metrics@.len(),
        0 <= k < model::subcall_count(cfg.contracts@[c].metrics@[m]),
    ensures
        ({
            let ct = cfg.contracts@[c];
            let metric = ct.metrics@[m];
            &&& ct.parsed_abi is Some
            &&& words::address_bytes(text::trimmed(ct.instances@[i].address@)) is Some
            &&& abi::named_function(ct.parsed_abi->0@, metric.function@) matches Some(n)
                && args::converted(ct.parsed_abi->0@[n], model::subcall_args(metric, k)) is Ok
                && naming::inferred_names(
                metric.name@,
                config::outputs_view(metric.outputs@),
                ct.parsed_abi->0@[n],
            ) is Ok
        }),
{
    let ct = cfg.contracts@[c];
    let metric = ct.metrics@[m];
    let inst = ct.instances@[i];
    if ct.parsed_abi is None {
        lemma_no_failed_step(cfg, c, 0);
    }
    let fs = ct.parsed_abi->0@;
    let instance_at = |j: int| model::instance_steps(cfg.labels@, ct, fs, ct.instances@[j]);
    let n = ct.instances@.len();
    if words::address_bytes(text::trimmed(inst.address@)) is None {
        let p = outcome::lemma_joined_at(n, instance_at, i, 0);
        lemma_no_failed_step(cfg, c, p);
    }
    let target = words::address_bytes(text::trimmed(inst.address@))->0;
    let metric_at = |j: int|
        model::metric_steps(cfg.labels@, ct, fs, inst, target, ct.metrics@[j]);
    let subcall_at = |j: int|
        model::subcall_steps(cfg.labels@, ct, fs, inst, target, metric, j);
    let steps = subcall_at(k);
    assert forall|q: int| 0 <= q < steps.len() implies #[trigger] steps[q] !is Fail by {
        let in_metric = outcome::lemma_joined_at(model::subcall_count(metric), subcall_at, k, q);
        assert(metric_at(m)[in_metric] == steps[q]);
        let in_instance = outcome::lemma_joined_at(ct.metrics@.len(), metric_at, m, in_metric);
        assert(instance_at(i)[in_instance] == steps[q]);
        let in_contract = outcome::lemma_joined_at(n, instance_at, i, in_instance);
        lemma_no_failed_step(cfg, c, in_contract);
    }
    assert(steps.len() > 0);
    assert(steps[0] !is Fail);
    if let Some(at) = abi::named_function(fs, metric.function@) {
        if naming::inferred_names(
            metric.name@,
            config::outputs_view(metric.outputs@),
            fs[at],
        ) is Err {
            assert(steps[1] !is Fail);
        }
    }
}

} // verus!
