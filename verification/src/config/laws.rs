//! What a configuration must be to pass validation.

use crate::config;
use crate::config::abi;
use crate::config::error::{ConfigErrorOf, ContractErrorOf, MetricErrorOf};
use crate::config::naming;
use crate::config::validate;
use crate::config::{Config, Contract, Metric};
use crate::outcome;
use crate::sol;
use crate::sol::StateMutability;
use crate::text;
use vstd::prelude::*;

verus! {

/// Whether labels have none of the keys that the exporter sets.
pub open spec fn are_free(labels: Map<Seq<char>, Seq<char>>) -> bool {
    !labels.dom().contains("address"@) && !labels.dom().contains("chain_id"@)
}

/// Whether the function at an index is the first of a name.
pub open spec fn is_function(fs: Seq<sol::FunctionView>, name: Seq<char>, n: int) -> bool {
    &&& 0 <= n < fs.len()
    &&& fs[n].name == name
    &&& forall|q: int| 0 <= q < n ==> (#[trigger] fs[q]).name != name
}

/// Whether the component at an index is the first of a name.
pub open spec fn is_field(components: Seq<sol::ParamView>, name: Seq<char>, k: int) -> bool {
    &&& 0 <= k < components.len()
    &&& components[k].name == name
    &&& forall|q: int| 0 <= q < k ==> (#[trigger] components[q]).name != name
}

/// Whether the component at an index is the first of a name and a number or a truth value.
pub open spec fn is_numeric_field(p: sol::ParamView, name: Seq<char>, k: int) -> bool {
    &&& text::begins_with(p.ty, "tuple"@)
    &&& is_field(p.components, name, k)
    &&& sol::param_type(p.components[k]) is Ok
    &&& ({
        let kind = sol::param_type(p.components[k])->Ok_0.kind;
        kind is Uint || kind is Int || kind is Bool
    })
}

/// Whether a selected output exists, is selected once, and is a number or a truth value if it is
/// the field of a tuple.
pub open spec fn is_valid_output(
    f: sol::FunctionView,
    outs: Seq<config::OutputView>,
    i: int,
) -> bool {
    &&& outs[i].index < f.outputs.len()
    &&& forall|j: int|
        0 <= j < i ==> (#[trigger] outs[j]).index != outs[i].index || outs[j].field
            != outs[i].field
    &&& outs[i].field.len() == 0 || exists|k: int| #[trigger]
        is_numeric_field(f.outputs[outs[i].index as int], outs[i].field, k)
}

/// Whether every call of a metric has as many arguments as the function has parameters, and no
/// reserved label.
pub open spec fn has_valid_calls(f: sol::FunctionView, m: Metric) -> bool {
    if m.calls@.len() > 0 {
        forall|k: int|
            0 <= k < m.calls@.len() ==> are_free((#[trigger] m.calls@[k]).labels@)
                && m.calls@[k].args@.len() == f.inputs.len()
    } else {
        m.args@.len() == f.inputs.len()
    }
}

/// Whether a metric has a name, or none, and so has every metric that follows from it.
pub open spec fn has_valid_names(f: sol::FunctionView, m: Metric) -> bool {
    let names = naming::inferred_names(m.name@, config::outputs_view(m.outputs@), f);
    &&& m.name@.len() == 0 || validate::is_prom_name(m.name@)
    &&& names is Ok
    &&& forall|i: int|
        0 <= i < names->Ok_0.len() ==> validate::is_prom_name(#[trigger] names->Ok_0[i])
}

/// Whether a function that only reads gives a metric what it asks for.
pub open spec fn gives(f: sol::FunctionView, m: Metric) -> bool {
    let outs = config::outputs_view(m.outputs@);
    &&& f.state_mutability == StateMutability::View || f.state_mutability == StateMutability::Pure
    &&& forall|i: int| 0 <= i < outs.len() ==> #[trigger] is_valid_output(f, outs, i)
    &&& has_valid_calls(f, m)
    &&& has_valid_names(f, m)
}

/// Whether an output is as wanted exactly if nothing is wrong with it.
proof fn lemma_output(f: sol::FunctionView, outs: Seq<config::OutputView>, i: int)
    requires
        0 <= i < outs.len(),
    ensures
        validate::output_fault(f, outs, i) is None <==> is_valid_output(f, outs, i),
{
    let o = outs[i];
    let p = f.outputs[o.index as int];
    abi::fields_are_found_by_name(f, o.index, o.field);
    if o.index < f.outputs.len() && o.field.len() > 0 {
        if let Ok(k) = abi::tuple_field(f, o.index, o.field) {
            assert(is_field(p.components, o.field, k));
            if validate::output_fault(f, outs, i) is None {
                assert(is_numeric_field(p, o.field, k));
            }
            if exists|q: int| #[trigger] is_numeric_field(p, o.field, q) {
                let q = choose|q: int| #[trigger] is_numeric_field(p, o.field, q);
                lemma_one_field(p.components, o.field, k, q);
            }
        } else {
            if exists|q: int| #[trigger] is_numeric_field(p, o.field, q) {
                let q = choose|q: int| #[trigger] is_numeric_field(p, o.field, q);
                assert(p.components[q].name == o.field);
            }
        }
    }
}

proof fn lemma_one_field(components: Seq<sol::ParamView>, name: Seq<char>, k: int, q: int)
    requires
        is_field(components, name, k),
        is_field(components, name, q),
    ensures
        k == q,
{
    if k < q {
        assert(components[k].name != name);
    }
    if q < k {
        assert(components[q].name != name);
    }
}

/// A metric passes validation exactly if its labels are free of reserved keys, it names a function
/// and not both arguments and calls, and the first function of that name only reads and has the
/// outputs, fields and parameters that the metric asks for, all under proper names.
pub proof fn valid_metrics_pass(fs: Seq<sol::FunctionView>, m: Metric)
    ensures
        validate::metric_fault(fs, m) is None <==> (are_free(m.labels@) && m.function@.len() > 0 && (
        m.args@.len() == 0 || m.calls@.len() == 0) && exists|n: int| #[trigger]
            is_function(fs, m.function@, n) && gives(fs[n], m)),
{
    validate::reserved_labels_are_refused("labels"@, m.labels@);
    abi::functions_are_found_by_name(fs, m.function@);
    if let Some(n) = abi::named_function(fs, m.function@) {
        let f = fs[n];
        assert(is_function(fs, m.function@, n));
        abi::only_reading_functions_are_called(fs, m.function@, n);
        lemma_gives(f, m);
        assert forall|q: int| #[trigger] is_function(fs, m.function@, q) implies q == n by {
            if q < n {
                assert(fs[q].name != m.function@);
            }
            if n < q {
                assert(fs[n].name != m.function@);
            }
        }
    } else {
        assert forall|q: int| !#[trigger] is_function(fs, m.function@, q) by {
            if 0 <= q < fs.len() {
                assert(fs[q].name != m.function@);
            }
        }
    }
}

proof fn lemma_gives(f: sol::FunctionView, m: Metric)
    ensures
        (validate::outputs_fault(f, config::outputs_view(m.outputs@)) is None
            && validate::calls_fault(f, m) is None && validate::names_fault(f, m) is None) <==> {
            let outs = config::outputs_view(m.outputs@);
            &&& forall|i: int| 0 <= i < outs.len() ==> #[trigger] is_valid_output(f, outs, i)
            &&& has_valid_calls(f, m)
            &&& has_valid_names(f, m)
        },
{
    let outs = config::outputs_view(m.outputs@);
    let output_at = |i: int| validate::output_fault(f, outs, i);
    outcome::lemma_no_failure(outs.len(), output_at);
    assert forall|i: int| 0 <= i < outs.len() implies ((#[trigger] output_at(i)) is None
        <==> is_valid_output(f, outs, i)) by {
        lemma_output(f, outs, i);
    }
    if forall|i: int| 0 <= i < outs.len() ==> (#[trigger] output_at(i)) is None {
        assert forall|i: int| 0 <= i < outs.len() implies #[trigger] is_valid_output(
            f,
            outs,
            i,
        ) by {
            assert(output_at(i) is None);
        }
    }
    lemma_calls(f, m);
    lemma_names(f, m);
}

proof fn lemma_calls(f: sol::FunctionView, m: Metric)
    ensures
        validate::calls_fault(f, m) is None <==> has_valid_calls(f, m),
{
    let call_at = |i: int| validate::call_fault(f, m.calls@, i);
    outcome::lemma_no_failure(m.calls@.len(), call_at);
    assert forall|k: int| 0 <= k < m.calls@.len() implies ((#[trigger] call_at(k)) is None <==> (
    are_free(m.calls@[k].labels@) && m.calls@[k].args@.len() == f.inputs.len())) by {
        validate::reserved_labels_are_refused(
            validate::call_labels_context(k),
            m.calls@[k].labels@,
        );
    }
    if forall|k: int| 0 <= k < m.calls@.len() ==> (#[trigger] call_at(k)) is None {
        assert forall|k: int| 0 <= k < m.calls@.len() implies are_free(
            (#[trigger] m.calls@[k]).labels@,
        ) && m.calls@[k].args@.len() == f.inputs.len() by {
            assert(call_at(k) is None);
        }
    }
}

proof fn lemma_names(f: sol::FunctionView, m: Metric)
    ensures
        validate::names_fault(f, m) is None <==> has_valid_names(f, m),
{
    if let Ok(names) = naming::inferred_names(m.name@, config::outputs_view(m.outputs@), f) {
        let name_at = |i: int|
            if validate::is_prom_name(names[i]) {
                None
            } else {
                Some(MetricErrorOf::InferredName { name: names[i] })
            };
        outcome::lemma_no_failure(names.len(), name_at);
        if forall|i: int| 0 <= i < names.len() ==> (#[trigger] name_at(i)) is None {
            assert forall|i: int| 0 <= i < names.len() implies validate::is_prom_name(
                #[trigger] names[i],
            ) by {
                assert(name_at(i) is None);
            }
        }
    }
}

/// The text of a contract's interface: the one in the configuration, else that of its file.
pub open spec fn interface_text(ct: Contract, file: Result<String, String>) -> Option<Seq<char>> {
    if ct.abi_inline@.len() > 0 {
        Some(ct.abi_inline@)
    } else if file is Ok {
        Some(file->Ok_0@)
    } else {
        None
    }
}

/// A contract passes validation, with the functions of its interface, exactly if it has a name, no
/// reserved label, its interface in one of the two ways and as a text that is one, instances that
/// all have an address and no reserved label, and metrics that all pass.
pub proof fn valid_contracts_pass(
    ct: Contract,
    file: Result<String, String>,
    fs: Seq<sol::FunctionView>,
)
    ensures
        validate::contract_outcome(ct, file) == Ok::<
            Seq<sol::FunctionView>,
            ContractErrorOf<Seq<char>>,
        >(fs) <==> {
            &&& ct.name@.len() > 0
            &&& are_free(ct.labels@)
            &&& (ct.abi_path@.len() > 0) != (ct.abi_inline@.len() > 0)
            &&& interface_text(ct, file) is Some
            &&& sol::json_functions(interface_text(ct, file)->0) == Ok::<
                Seq<sol::FunctionView>,
                Seq<char>,
            >(fs)
            &&& ct.instances@.len() > 0
            &&& forall|i: int|
                0 <= i < ct.instances@.len() ==> (#[trigger] ct.instances@[i]).address@.len() > 0
                    && are_free(ct.instances@[i].labels@)
            &&& ct.metrics@.len() > 0
            &&& forall|m: int|
                0 <= m < ct.metrics@.len() ==> validate::metric_fault(
                    fs,
                    #[trigger] ct.metrics@[m],
                ) is None
        },
{
    validate::reserved_labels_are_refused("labels"@, ct.labels@);
    let instance_at = |i: int| validate::instance_fault(ct.instances@, i);
    outcome::lemma_no_failure(ct.instances@.len(), instance_at);
    assert forall|i: int| 0 <= i < ct.instances@.len() implies ((#[trigger] instance_at(i)) is None
        <==> (ct.instances@[i].address@.len() > 0 && are_free(ct.instances@[i].labels@))) by {
        validate::reserved_labels_are_refused(
            validate::instance_labels_context(i),
            ct.instances@[i].labels@,
        );
    }
    if forall|i: int| 0 <= i < ct.instances@.len() ==> (#[trigger] instance_at(i)) is None {
        assert forall|i: int| 0 <= i < ct.instances@.len() implies (
        #[trigger] ct.instances@[i]).address@.len() > 0 && are_free(ct.instances@[i].labels@) by {
            assert(instance_at(i) is None);
        }
    }
    let metric_at = |i: int| validate::metric_fault_at(fs, ct.metrics@, i);
    outcome::lemma_no_failure(ct.metrics@.len(), metric_at);
    if forall|i: int| 0 <= i < ct.metrics@.len() ==> (#[trigger] metric_at(i)) is None {
        assert forall|m: int| 0 <= m < ct.metrics@.len() implies validate::metric_fault(
            fs,
            #[trigger] ct.metrics@[m],
        ) is None by {
            assert(metric_at(m) is None);
        }
    }
}

/// A configuration passes validation exactly if it names an RPC server and a chain, has contracts
/// that all pass, and no reserved label. The outcome is the interface of each contract, in order.
pub proof fn valid_configurations_pass(cfg: Config, files: Seq<Result<String, String>>)
    ensures
        validate::config_outcome(cfg, files) is Ok <==> {
            &&& cfg.chain.rpc_url@.len() > 0
            &&& cfg.chain.chain_id != 0
            &&& cfg.contracts@.len() > 0
            &&& are_free(cfg.labels@)
            &&& forall|c: int|
                0 <= c < cfg.contracts@.len() ==> validate::contract_outcome(
                    #[trigger] cfg.contracts@[c],
                    files[c],
                ) is Ok
        },
        validate::config_outcome(cfg, files) matches Ok(interfaces) ==> interfaces.len()
            == cfg.contracts@.len() && forall|c: int|
            0 <= c < cfg.contracts@.len() ==> validate::contract_outcome(
                cfg.contracts@[c],
                files[c],
            ) == Ok::<Seq<sol::FunctionView>, ContractErrorOf<Seq<char>>>(
                #[trigger] interfaces[c],
            ),
{
    validate::reserved_labels_are_refused("labels"@, cfg.labels@);
    let contract_at = |i: int| validate::contract_outcome_at(cfg.contracts@, files, i);
    outcome::lemma_gathered(cfg.contracts@.len(), contract_at);
    if forall|i: int| 0 <= i < cfg.contracts@.len() ==> (#[trigger] contract_at(i)) is Ok {
        assert forall|c: int| 0 <= c < cfg.contracts@.len() implies validate::contract_outcome(
            #[trigger] cfg.contracts@[c],
            files[c],
        ) is Ok by {
            assert(contract_at(c) is Ok);
        }
    }
    if let Ok(interfaces) = validate::config_outcome(cfg, files) {
        assert forall|c: int| 0 <= c < cfg.contracts@.len() implies validate::contract_outcome(
            cfg.contracts@[c],
            files[c],
        ) == Ok::<Seq<sol::FunctionView>, ContractErrorOf<Seq<char>>>(
            #[trigger] interfaces[c],
        ) by {
            assert(contract_at(c) is Ok);
        }
    }
}

/// What a configuration is refused for is true of it: the RPC server or the chain is missing, there
/// is no contract, a label is reserved, or the contract at the index, of that name, is refused for
/// the error while all before it pass.
pub proof fn configurations_are_refused_for_what_is_wrong(
    cfg: Config,
    files: Seq<Result<String, String>>,
    e: ConfigErrorOf<Seq<char>>,
)
    requires
        validate::config_outcome(cfg, files) == Err::<
            Seq<Seq<sol::FunctionView>>,
            ConfigErrorOf<Seq<char>>,
        >(e),
    ensures
        match e {
            ConfigErrorOf::RpcUrlRequired => cfg.chain.rpc_url@.len() == 0,
            ConfigErrorOf::ChainIdRequired => cfg.chain.chain_id == 0,
            ConfigErrorOf::NoContract => cfg.contracts@.len() == 0,
            ConfigErrorOf::Label(label) => cfg.labels@.dom().contains(label.key) && !are_free(
                cfg.labels@,
            ) && label.context == "labels"@,
            ConfigErrorOf::Contract { index, name, error } => {
                &&& index < cfg.contracts@.len()
                &&& name == cfg.contracts@[index as int].name@
                &&& validate::contract_outcome(cfg.contracts@[index as int], files[index as int])
                    == Err::<Seq<sol::FunctionView>, ContractErrorOf<Seq<char>>>(error)
                &&& forall|c: int|
                    0 <= c < index ==> validate::contract_outcome(
                        #[trigger] cfg.contracts@[c],
                        files[c],
                    ) is Ok
            },
        },
{
    validate::reserved_labels_are_refused("labels"@, cfg.labels@);
    assert(cfg.contracts.len() == cfg.contracts@.len());
    if validate::top_fault(cfg) is None {
        let contract_at = |i: int| validate::contract_outcome_at(cfg.contracts@, files, i);
        let i = outcome::lemma_gathered_failure_at(cfg.contracts@.len(), contract_at);
        assert(contract_at(i) is Err);
        assert forall|c: int| 0 <= c < i implies validate::contract_outcome(
            #[trigger] cfg.contracts@[c],
            files[c],
        ) is Ok by {
            assert(contract_at(c) is Ok);
        }
    }
}

/// What a contract is refused for is true of it.
pub proof fn contracts_are_refused_for_what_is_wrong(
    ct: Contract,
    file: Result<String, String>,
    e: ContractErrorOf<Seq<char>>,
)
    requires
        validate::contract_outcome(ct, file) == Err::<
            Seq<sol::FunctionView>,
            ContractErrorOf<Seq<char>>,
        >(e),
    ensures
        match e {
            ContractErrorOf::NameRequired => ct.name@.len() == 0,
            ContractErrorOf::Label(label) => (ct.labels@.dom().contains(label.key) && !are_free(
                ct.labels@,
            ) && label.context == "labels"@) || exists|i: int|
                0 <= i < ct.instances@.len() && !are_free((#[trigger] ct.instances@[i]).labels@)
                    && ct.instances@[i].labels@.dom().contains(label.key) && label.context
                    == "instances["@ + text::decimal(i as nat) + "].labels"@,
            ContractErrorOf::NoAbi => ct.abi_path@.len() == 0 && ct.abi_inline@.len() == 0,
            ContractErrorOf::TwoAbis => ct.abi_path@.len() > 0 && ct.abi_inline@.len() > 0,
            ContractErrorOf::AbiUnreadable { path, reason } => ct.abi_inline@.len() == 0 && path
                == ct.abi_path@ && file is Err && file->Err_0@ == reason,
            ContractErrorOf::AbiUnparsable { reason } => interface_text(ct, file) is Some
                && sol::json_functions(interface_text(ct, file)->0) == Err::<
                Seq<sol::FunctionView>,
                Seq<char>,
            >(reason),
            ContractErrorOf::NoInstance => ct.instances@.len() == 0,
            ContractErrorOf::AddressRequired { instance } => instance < ct.instances@.len()
                && ct.instances@[instance as int].address@.len() == 0,
            ContractErrorOf::NoMetric => ct.metrics@.len() == 0,
            ContractErrorOf::Metric { index, descriptor, error } => {
                &&& index < ct.metrics@.len()
                &&& interface_text(ct, file) is Some
                &&& sol::json_functions(interface_text(ct, file)->0) is Ok
                &&& validate::metric_fault(
                    sol::json_functions(interface_text(ct, file)->0)->Ok_0,
                    ct.metrics@[index as int],
                ) == Some(error)
                &&& ct.metrics@[index as int].name@.len() > 0 ==> descriptor
                    == ct.metrics@[index as int].name@
                &&& ct.metrics@[index as int].name@.len() == 0
                    && ct.metrics@[index as int].function@.len() > 0 ==> descriptor
                    == ct.metrics@[index as int].function@
            },
        },
{
    validate::reserved_labels_are_refused("labels"@, ct.labels@);
    assert(ct.instances.len() == ct.instances@.len());
    assert(ct.metrics.len() == ct.metrics@.len());
    if validate::header_fault(ct) is None {
        if let Ok(fs) = validate::abi_outcome(ct, file) {
            let instance_at = |i: int| validate::instance_fault(ct.instances@, i);
            let metric_at = |i: int| validate::metric_fault_at(fs, ct.metrics@, i);
            if ct.instances@.len() > 0 {
                if outcome::first_failure(ct.instances@.len(), instance_at) is Some {
                    let i = outcome::lemma_first_failure_at(ct.instances@.len(), instance_at);
                    assert(instance_at(i) == Some(e));
                    validate::reserved_labels_are_refused(
                        validate::instance_labels_context(i),
                        ct.instances@[i].labels@,
                    );
                    let inst = ct.instances@[i];
                } else if ct.metrics@.len() > 0 {
                    let i = outcome::lemma_first_failure_at(ct.metrics@.len(), metric_at);
                    assert(metric_at(i) == Some(e));
                }
            }
        }
    }
}

/// Whether the component at an index is the first of a name, of the given type, and neither a
/// number nor a truth value.
pub open spec fn is_other_field(p: sol::ParamView, name: Seq<char>, k: int, ty: Seq<char>) -> bool {
    &&& is_field(p.components, name, k)
    &&& p.components[k].ty == ty
    &&& sol::param_type(p.components[k]) is Ok
    &&& ({
        let kind = sol::param_type(p.components[k])->Ok_0.kind;
        !(kind is Uint || kind is Int || kind is Bool)
    })
}

/// Whether the component at an index is the first of a name, and its type is not known.
pub open spec fn is_unknown_field(
    p: sol::ParamView,
    name: Seq<char>,
    k: int,
    reason: Seq<char>,
) -> bool {
    &&& is_field(p.components, name, k)
    &&& sol::param_type(p.components[k]) == Err::<sol::ParamTypeView, Seq<char>>(reason)
}

/// What a metric is refused for is true of it and of the function that it names.
pub proof fn metrics_are_refused_for_what_is_wrong(
    fs: Seq<sol::FunctionView>,
    m: Metric,
    e: MetricErrorOf<Seq<char>>,
    n: int,
)
    requires
        validate::metric_fault(fs, m) == Some(e),
        is_function(fs, m.function@, n) || forall|q: int|
            0 <= q < fs.len() ==> (#[trigger] fs[q]).name != m.function@,
        fs[n].outputs.len() <= usize::MAX,
        fs[n].inputs.len() <= usize::MAX,
    ensures
        match e {
            MetricErrorOf::Label(label) => (!are_free(m.labels@) && m.labels@.dom().contains(
                label.key,
            ) && label.context == "labels"@) || exists|k: int|
                0 <= k < m.calls@.len() && !are_free((#[trigger] m.calls@[k]).labels@)
                    && m.calls@[k].labels@.dom().contains(label.key) && label.context == "calls["@
                    + text::decimal(k as nat) + "].labels"@,
            MetricErrorOf::FunctionRequired => m.function@.len() == 0,
            MetricErrorOf::ArgsAndCalls => m.args@.len() > 0 && m.calls@.len() > 0,
            MetricErrorOf::Abi(error) => {
                ||| abi::resolved_function(fs, m.function@) == Err::<
                    int,
                    abi::AbiErrorOf<Seq<char>>,
                >(error)
                ||| is_function(fs, m.function@, n) && exists|i: int|
                    0 <= i < m.outputs@.len() && abi::tuple_field(
                        fs[n],
                        (#[trigger] m.outputs@[i]).index,
                        m.outputs@[i].field@,
                    ) == Err::<int, abi::AbiErrorOf<Seq<char>>>(error)
                ||| is_function(fs, m.function@, n) && naming::inferred_names(
                    m.name@,
                    config::outputs_view(m.outputs@),
                    fs[n],
                ) == Err::<Seq<Seq<char>>, abi::AbiErrorOf<Seq<char>>>(error)
            },
            MetricErrorOf::OutputIndex { position, index, function, count } => {
                &&& position < m.outputs@.len()
                &&& m.outputs@[position as int].index == index
                &&& function == fs[n].name
                &&& index >= count
                &&& count == fs[n].outputs.len()
            },
            MetricErrorOf::DuplicateOutput { position, index, field } => {
                &&& position < m.outputs@.len()
                &&& m.outputs@[position as int].index == index
                &&& m.outputs@[position as int].field@ == field
                &&& exists|j: int|
                    0 <= j < position && (#[trigger] m.outputs@[j]).index == index
                        && m.outputs@[j].field@ == field
            },
            MetricErrorOf::FieldType { field, reason } => exists|i: int, k: int|
                0 <= i < m.outputs@.len() && m.outputs@[i].field@ == field
                    && #[trigger] is_unknown_field(
                    fs[n].outputs[m.outputs@[i].index as int],
                    field,
                    k,
                    reason,
                ),
            MetricErrorOf::FieldNotNumeric { position, field, ty } => {
                &&& position < m.outputs@.len()
                &&& m.outputs@[position as int].field@ == field
                &&& exists|k: int| #[trigger]
                    is_other_field(
                        fs[n].outputs[m.outputs@[position as int].index as int],
                        field,
                        k,
                        ty,
                    )
            },
            MetricErrorOf::CallArgCount { call, function, expected, got } => {
                &&& call < m.calls@.len()
                &&& function == fs[n].name
                &&& expected == fs[n].inputs.len()
                &&& got == m.calls@[call as int].args@.len()
                &&& expected != got
            },
            MetricErrorOf::ArgCount { function, expected, got } => {
                &&& m.calls@.len() == 0
                &&& function == fs[n].name
                &&& expected == fs[n].inputs.len()
                &&& got == m.args@.len()
                &&& expected != got
            },
            MetricErrorOf::Name { name } => name == m.name@ && !validate::is_prom_name(name),
            MetricErrorOf::InferredName { name } => !validate::is_prom_name(name) && ({
                let names = naming::inferred_names(
                    m.name@,
                    config::outputs_view(m.outputs@),
                    fs[n],
                );
                names is Ok && names->Ok_0.contains(name)
            }),
        },
{
    validate::reserved_labels_are_refused("labels"@, m.labels@);
    abi::functions_are_found_by_name(fs, m.function@);
    assert(m.outputs.len() == m.outputs@.len());
    assert(m.calls.len() == m.calls@.len());
    assert(m.args.len() == m.args@.len());
    if validate::label_fault("labels"@, m.labels@) is None && m.function@.len() > 0 && (
    m.args@.len() == 0 || m.calls@.len() == 0) {
        if let Ok(k) = abi::resolved_function(fs, m.function@) {
            if is_function(fs, m.function@, n) {
                if k < n {
                    assert(fs[k].name != m.function@);
                }
                if n < k {
                    assert(fs[n].name != m.function@);
                }
            } else {
                assert(fs[k].name != m.function@);
            }
            assert(k == n);
            let f = fs[n];
            let outs = config::outputs_view(m.outputs@);
            let output_at = |i: int| validate::output_fault(f, outs, i);
            let call_at = |i: int| validate::call_fault(f, m.calls@, i);
            if outcome::first_failure(outs.len(), output_at) is Some {
                let i = outcome::lemma_first_failure_at(outs.len(), output_at);
                assert(output_at(i) == Some(e));
                let o = outs[i];
                assert(m.outputs@[i]@ == o);
                abi::fields_are_found_by_name(f, o.index, o.field);
                if o.index < f.outputs.len() && o.field.len() > 0 {
                    if let Ok(k) = abi::tuple_field(f, o.index, o.field) {
                        let p = f.outputs[o.index as int];
                        assert(is_field(p.components, o.field, k));
                        if let MetricErrorOf::FieldType { field, reason } = e {
                            assert(is_unknown_field(
                                fs[n].outputs[m.outputs@[i].index as int],
                                field,
                                k,
                                reason,
                            ));
                        }
                        if let MetricErrorOf::FieldNotNumeric { field, ty, .. } = e {
                            assert(is_other_field(
                                fs[n].outputs[m.outputs@[i].index as int],
                                field,
                                k,
                                ty,
                            ));
                        }
                    }
                }
                if e is DuplicateOutput {
                    let j = choose|j: int|
                        0 <= j < i && (#[trigger] outs[j]).index == outs[i].index && outs[j].field
                            == outs[i].field;
                    assert(m.outputs@[j].index == outs[j].index);
                }
            } else if validate::calls_fault(f, m) is Some {
                if m.calls@.len() > 0 {
                    let i = outcome::lemma_first_failure_at(m.calls@.len(), call_at);
                    assert(call_at(i) == Some(e));
                    validate::reserved_labels_are_refused(
                        validate::call_labels_context(i),
                        m.calls@[i].labels@,
                    );
                    let call = m.calls@[i];
                    assert(call.args.len() == call.args@.len());
                }
            } else if let Ok(names) = naming::inferred_names(m.name@, outs, f) {
                let name_at = |i: int|
                    if validate::is_prom_name(names[i]) {
                        None
                    } else {
                        Some(MetricErrorOf::InferredName { name: names[i] })
                    };
                if m.name@.len() == 0 || validate::is_prom_name(m.name@) {
                    let i = outcome::lemma_first_failure_at(names.len(), name_at);
                    assert(name_at(i) == Some(e));
                }
            }
        }
    }
}

} // verus!
