//! The offline validation of a configuration.

use crate::config;
use crate::config::abi;
use crate::config::error::{
    ConfigError, ConfigErrorOf, ContractError, ContractErrorOf, MetricError, MetricErrorOf,
    ReservedLabel, ReservedLabelOf,
};
use crate::config::naming;
use crate::config::{Call, Config, Contract, Instance, Metric, Output, RESERVED_LABEL_KEYS};
use crate::labels::Labels;
use crate::outcome;
use crate::sol;
use crate::sol::{AbiFunction, JsonAbi};
use crate::text;
use vstd::prelude::*;

verus! {

/// The first reserved key of a label set.
pub open spec fn reserved_key(labels: Map<Seq<char>, Seq<char>>) -> Option<Seq<char>> {
    if labels.dom().contains(RESERVED_LABEL_KEYS@[0]@) {
        Some(RESERVED_LABEL_KEYS@[0]@)
    } else if labels.dom().contains(RESERVED_LABEL_KEYS@[1]@) {
        Some(RESERVED_LABEL_KEYS@[1]@)
    } else {
        None
    }
}

/// What is wrong with the labels at a place of the configuration.
pub open spec fn label_fault(context: Seq<char>, labels: Map<Seq<char>, Seq<char>>) -> Option<
    ReservedLabelOf<Seq<char>>,
> {
    match reserved_key(labels) {
        Some(key) => Some(ReservedLabelOf { context, key }),
        None => None,
    }
}

/// Checks that no label has a key that the exporter sets itself.
pub fn check_reserved_labels(context: &str, labels: &Labels) -> (r: Result<(), ReservedLabel>)
    ensures
        match r {
            Ok(()) => label_fault(context@, labels@) is None,
            Err(e) => label_fault(context@, labels@) == Some(e@),
        },
{
    let mut i: usize = 0;
    while i < 2
        invariant
            i <= 2,
            i > 0 ==> !labels@.dom().contains(RESERVED_LABEL_KEYS@[0]@),
            i > 1 ==> !labels@.dom().contains(RESERVED_LABEL_KEYS@[1]@),
        decreases 2 - i,
    {
        let key: &str = RESERVED_LABEL_KEYS[i];
        if labels.get(key).is_some() {
            return Err(ReservedLabelOf { context: context.to_string(), key: key.to_string() });
        }
        i = i + 1;
    }
    Ok(())
}

/// Whether a character can begin the name of a metric.
pub open spec fn begins_prom_name(c: char) -> bool {
    c == '_' || c == ':' || 'a' <= c <= 'z' || 'A' <= c <= 'Z'
}

/// Whether a text is the name of a metric.
pub open spec fn is_prom_name(s: Seq<char>) -> bool {
    &&& s.len() > 0
    &&& begins_prom_name(s[0])
    &&& forall|i: int|
        0 <= i < s.len() ==> begins_prom_name(#[trigger] s[i]) || '0' <= s[i] <= '9'
}

/// Whether a text is the name of a metric: it matches `[a-zA-Z_:][a-zA-Z0-9_:]*`.
pub fn is_valid_prom_name(name: &str) -> (r: bool)
    ensures
        r == is_prom_name(name@),
{
    let chars = text::to_chars(name);
    if chars.len() == 0 {
        return false;
    }
    for i in 0..chars.len()
        invariant
            chars@ == name@,
            chars@.len() > 0,
            i > 0 ==> begins_prom_name(name@[0]),
            forall|j: int|
                0 <= j < i ==> begins_prom_name(#[trigger] name@[j]) || '0' <= name@[j] <= '9',
    {
        let c = chars[i];
        let letter = c == '_' || c == ':' || ('a' <= c && c <= 'z') || ('A' <= c && c <= 'Z');
        let digit = '0' <= c && c <= '9';
        assert(c == name@[i as int]);
        if !(letter || (i > 0 && digit)) {
            return false;
        }
    }
    true
}

/// How messages name a metric.
pub open spec fn descriptor(m: Metric) -> Seq<char> {
    if m.name@.len() > 0 {
        m.name@
    } else if m.function@.len() > 0 {
        m.function@
    } else if m.calls@.len() > 0 {
        "calls[...]"@
    } else {
        "<unnamed>"@
    }
}

/// Names a metric for messages: by its name, else its function.
pub fn metric_descriptor(m: &Metric) -> (r: String)
    ensures
        r@ == descriptor(*m),
{
    if !m.name.as_str().is_empty() {
        m.name.clone()
    } else if !m.function.as_str().is_empty() {
        m.function.clone()
    } else if m.calls.len() > 0 {
        "calls[...]".to_string()
    } else {
        "<unnamed>".to_string()
    }
}

/// What is wrong with the selected output at a position.
pub open spec fn output_fault(f: sol::FunctionView, outputs: Seq<config::OutputView>, i: int) -> Option<
    MetricErrorOf<Seq<char>>,
> {
    let o = outputs[i];
    if o.index >= f.outputs.len() {
        Some(
            MetricErrorOf::OutputIndex {
                position: i as usize,
                index: o.index,
                function: f.name,
                count: f.outputs.len() as usize,
            },
        )
    } else if exists|j: int|
        0 <= j < i && (#[trigger] outputs[j]).index == o.index && outputs[j].field == o.field {
        Some(
            MetricErrorOf::DuplicateOutput { position: i as usize, index: o.index, field: o.field },
        )
    } else if o.field.len() == 0 {
        None
    } else {
        match abi::tuple_field(f, o.index, o.field) {
            Err(e) => Some(MetricErrorOf::Abi(e)),
            Ok(k) => {
                let component = f.outputs[o.index as int].components[k];
                match sol::param_type(component) {
                    Err(reason) => Some(MetricErrorOf::FieldType { field: o.field, reason }),
                    Ok(ty) => if abi::is_numeric(ty.kind) {
                        None
                    } else {
                        Some(
                            MetricErrorOf::FieldNotNumeric {
                                position: i as usize,
                                field: o.field,
                                ty: component.ty,
                            },
                        )
                    },
                }
            },
        }
    }
}

/// What is wrong with the selected outputs.
pub open spec fn outputs_fault(f: sol::FunctionView, outputs: Seq<config::OutputView>) -> Option<
    MetricErrorOf<Seq<char>>,
> {
    outcome::first_failure(outputs.len(), |i: int| output_fault(f, outputs, i))
}

/// The place of the labels of a call.
pub open spec fn call_labels_context(i: int) -> Seq<char> {
    "calls["@ + text::decimal(i as nat) + "].labels"@
}

/// What is wrong with one of several calls.
pub open spec fn call_fault(f: sol::FunctionView, calls: Seq<Call>, i: int) -> Option<
    MetricErrorOf<Seq<char>>,
> {
    match label_fault(call_labels_context(i), calls[i].labels@) {
        Some(e) => Some(MetricErrorOf::Label(e)),
        None => if calls[i].args@.len() != f.inputs.len() {
            Some(
                MetricErrorOf::CallArgCount {
                    call: i as usize,
                    function: f.name,
                    expected: f.inputs.len() as usize,
                    got: calls[i].args@.len() as usize,
                },
            )
        } else {
            None
        },
    }
}

/// What is wrong with the calls of a metric, or with the arguments of its single call.
pub open spec fn calls_fault(f: sol::FunctionView, m: Metric) -> Option<
    MetricErrorOf<Seq<char>>,
> {
    if m.calls@.len() > 0 {
        outcome::first_failure(m.calls@.len(), |i: int| call_fault(f, m.calls@, i))
    } else if m.args@.len() != f.inputs.len() {
        Some(
            MetricErrorOf::ArgCount {
                function: f.name,
                expected: f.inputs.len() as usize,
                got: m.args@.len() as usize,
            },
        )
    } else {
        None
    }
}

/// What is wrong with the names of the metrics that a metric stands for.
pub open spec fn names_fault(f: sol::FunctionView, m: Metric) -> Option<
    MetricErrorOf<Seq<char>>,
> {
    if m.name@.len() > 0 && !is_prom_name(m.name@) {
        Some(MetricErrorOf::Name { name: m.name@ })
    } else {
        match naming::inferred_names(m.name@, config::outputs_view(m.outputs@), f) {
            Err(e) => Some(MetricErrorOf::Abi(e)),
            Ok(names) => outcome::first_failure(
                names.len(),
                |i: int|
                    if is_prom_name(names[i]) {
                        None
                    } else {
                        Some(MetricErrorOf::InferredName { name: names[i] })
                    },
            ),
        }
    }
}

/// What is wrong with a metric of a contract with the given functions.
pub open spec fn metric_fault(fs: Seq<sol::FunctionView>, m: Metric) -> Option<
    MetricErrorOf<Seq<char>>,
> {
    match label_fault("labels"@, m.labels@) {
        Some(e) => Some(MetricErrorOf::Label(e)),
        None => if m.function@.len() == 0 {
            Some(MetricErrorOf::FunctionRequired)
        } else if m.args@.len() > 0 && m.calls@.len() > 0 {
            Some(MetricErrorOf::ArgsAndCalls)
        } else {
            match abi::resolved_function(fs, m.function@) {
                Err(e) => Some(MetricErrorOf::Abi(e)),
                Ok(k) => match outputs_fault(fs[k], config::outputs_view(m.outputs@)) {
                    Some(e) => Some(e),
                    None => match calls_fault(fs[k], m) {
                        Some(e) => Some(e),
                        None => names_fault(fs[k], m),
                    },
                },
            }
        },
    }
}

/// Whether the output at a position has the index and field of an earlier one.
fn is_repeated(outputs: &Vec<Output>, i: usize) -> (r: bool)
    requires
        i < outputs@.len(),
    ensures
        r == exists|j: int|
            0 <= j < i && (#[trigger] config::outputs_view(outputs@)[j]).index
                == outputs@[i as int].index
                && config::outputs_view(outputs@)[j].field == outputs@[i as int].field@,
{
    for j in 0..i
        invariant
            i < outputs@.len(),
            forall|k: int|
                0 <= k < j ==> !((#[trigger] config::outputs_view(outputs@)[k]).index
                    == outputs@[i as int].index && config::outputs_view(outputs@)[k].field
                    == outputs@[i as int].field@),
    {
        assert(config::outputs_view(outputs@)[j as int] == outputs@[j as int]@);
        if outputs[j].index == outputs[i].index && text::same(
            outputs[j].field.as_str(),
            outputs[i].field.as_str(),
        ) {
            return true;
        }
    }
    false
}

/// Checks one of a metric's selected outputs.
fn validate_output(f: &AbiFunction, outputs: &Vec<Output>, i: usize) -> (r: Result<(), MetricError>)
    requires
        i < outputs@.len(),
    ensures
        match r {
            Ok(()) => output_fault(f@, config::outputs_view(outputs@), i as int) is None,
            Err(e) => output_fault(f@, config::outputs_view(outputs@), i as int) == Some(e@),
        },
{
    let o = &outputs[i];
    assert(config::outputs_view(outputs@)[i as int] == o@);
    if o.index >= f.outputs.len() {
        return Err(
            MetricErrorOf::OutputIndex {
                position: i,
                index: o.index,
                function: f.name.clone(),
                count: f.outputs.len(),
            },
        );
    }
    if is_repeated(outputs, i) {
        return Err(
            MetricErrorOf::DuplicateOutput { position: i, index: o.index, field: o.field.clone() },
        );
    }
    if o.field.as_str().is_empty() {
        return Ok(());
    }
    match abi::resolve_tuple_field(f, o.index, o.field.as_str()) {
        Err(e) => Err(MetricErrorOf::Abi(e)),
        Ok((k, _)) => {
            let component = &f.outputs[o.index].components[k];
            assert(f@.outputs[o.index as int].components[k as int] == component@);
            match sol::resolve_type(component) {
                Err(reason) => Err(MetricErrorOf::FieldType { field: o.field.clone(), reason }),
                Ok(ty) => if abi::output_scalar_is_numeric(&ty.kind) {
                    Ok(())
                } else {
                    Err(
                        MetricErrorOf::FieldNotNumeric {
                            position: i,
                            field: o.field.clone(),
                            ty: component.ty.clone(),
                        },
                    )
                },
            }
        },
    }
}

/// Checks the selected outputs of a metric: each exists, none is selected twice, and a selected
/// field is a number or a truth value.
pub fn validate_outputs(f: &AbiFunction, outputs: &Vec<Output>) -> (r: Result<(), MetricError>)
    ensures
        match r {
            Ok(()) => outputs_fault(f@, config::outputs_view(outputs@)) is None,
            Err(e) => outputs_fault(f@, config::outputs_view(outputs@)) == Some(e@),
        },
{
    let ghost at = |i: int| output_fault(f@, config::outputs_view(outputs@), i);
    for i in 0..outputs.len()
        invariant
            at == (|i: int| output_fault(f@, config::outputs_view(outputs@), i)),
            outcome::first_failure(i as nat, at) is None,
    {
        match validate_output(f, outputs, i) {
            Ok(()) => {},
            Err(e) => {
                proof {
                    assert(outcome::first_failure((i + 1) as nat, at) == Some(e@));
                    outcome::lemma_first_failure_stays((i + 1) as nat, outputs@.len(), at);
                }
                return Err(e);
            },
        }
    }
    Ok(())
}

/// Checks one of several calls of a metric.
fn validate_call(f: &AbiFunction, calls: &Vec<Call>, i: usize) -> (r: Result<(), MetricError>)
    requires
        i < calls@.len(),
    ensures
        match r {
            Ok(()) => call_fault(f@, calls@, i as int) is None,
            Err(e) => call_fault(f@, calls@, i as int) == Some(e@),
        },
{
    let mut context = "calls[".to_string();
    context.append(text::count_text(i).as_str());
    context.append("].labels");
    match check_reserved_labels(context.as_str(), &calls[i].labels) {
        Err(e) => {
            return Err(MetricErrorOf::Label(e));
        },
        Ok(()) => {},
    }
    if calls[i].args.len() != f.inputs.len() {
        return Err(
            MetricErrorOf::CallArgCount {
                call: i,
                function: f.name.clone(),
                expected: f.inputs.len(),
                got: calls[i].args.len(),
            },
        );
    }
    Ok(())
}

/// Checks the calls of a metric, or the arguments of its single call.
fn validate_calls(f: &AbiFunction, m: &Metric) -> (r: Result<(), MetricError>)
    ensures
        match r {
            Ok(()) => calls_fault(f@, *m) is None,
            Err(e) => calls_fault(f@, *m) == Some(e@),
        },
{
    if m.calls.len() > 0 {
        let ghost at = |i: int| call_fault(f@, m.calls@, i);
        for i in 0..m.calls.len()
            invariant
                at == (|i: int| call_fault(f@, m.calls@, i)),
                outcome::first_failure(i as nat, at) is None,
                m.calls@.len() > 0,
        {
            match validate_call(f, &m.calls, i) {
                Ok(()) => {},
                Err(e) => {
                    proof {
                        assert(outcome::first_failure((i + 1) as nat, at) == Some(e@));
                        outcome::lemma_first_failure_stays((i + 1) as nat, m.calls@.len(), at);
                    }
                    return Err(e);
                },
            }
        }
        Ok(())
    } else if m.args.len() != f.inputs.len() {
        Err(
            MetricErrorOf::ArgCount {
                function: f.name.clone(),
                expected: f.inputs.len(),
                got: m.args.len(),
            },
        )
    } else {
        Ok(())
    }
}

/// Checks the names of the metrics that a metric stands for.
fn validate_names(f: &AbiFunction, m: &Metric) -> (r: Result<(), MetricError>)
    ensures
        match r {
            Ok(()) => names_fault(f@, *m) is None,
            Err(e) => names_fault(f@, *m) == Some(e@),
        },
{
    if !m.name.as_str().is_empty() && !is_valid_prom_name(m.name.as_str()) {
        return Err(MetricErrorOf::Name { name: m.name.clone() });
    }
    match naming::infer_metric_names(m, f) {
        Err(e) => Err(MetricErrorOf::Abi(e)),
        Ok(names) => {
            let ghost want = text::texts(names@);
            let ghost at = |i: int|
                if is_prom_name(want[i]) {
                    None
                } else {
                    Some(MetricErrorOf::InferredName { name: want[i] })
                };
            for i in 0..names.len()
                invariant
                    want == text::texts(names@),
                    at == (|i: int|
                        if is_prom_name(want[i]) {
                            None
                        } else {
                            Some(MetricErrorOf::InferredName { name: want[i] })
                        }),
                    outcome::first_failure(i as nat, at) is None,
                    outcome::first_failure(want.len(), at) == names_fault(f@, *m),
            {
                assert(want[i as int] == names@[i as int]@);
                if !is_valid_prom_name(names[i].as_str()) {
                    let e: MetricError = MetricErrorOf::InferredName { name: names[i].clone() };
                    proof {
                        assert(outcome::first_failure((i + 1) as nat, at) == Some(e@));
                        outcome::lemma_first_failure_stays((i + 1) as nat, want.len(), at);
                    }
                    return Err(e);
                }
            }
            Ok(())
        },
    }
}

/// Checks a metric against the interface of its contract.
pub fn validate_metric(parsed: &JsonAbi, m: &Metric) -> (r: Result<(), MetricError>)
    ensures
        match r {
            Ok(()) => metric_fault(parsed@, *m) is None,
            Err(e) => metric_fault(parsed@, *m) == Some(e@),
        },
{
    match check_reserved_labels("labels", &m.labels) {
        Err(e) => {
            return Err(MetricErrorOf::Label(e));
        },
        Ok(()) => {},
    }
    if m.function.as_str().is_empty() {
        return Err(MetricErrorOf::FunctionRequired);
    }
    if m.args.len() > 0 && m.calls.len() > 0 {
        return Err(MetricErrorOf::ArgsAndCalls);
    }
    match abi::resolve_function(parsed, m.function.as_str()) {
        Err(e) => Err(MetricErrorOf::Abi(e)),
        Ok(f) => {
            match validate_outputs(f, &m.outputs) {
                Err(e) => {
                    return Err(e);
                },
                Ok(()) => {},
            }
            match validate_calls(f, m) {
                Err(e) => {
                    return Err(e);
                },
                Ok(()) => {},
            }
            validate_names(f, m)
        },
    }
}

/// The functions of a contract's interface, from the text in the configuration or from the file
/// that `file` is the outcome of reading.
pub open spec fn abi_outcome(ct: Contract, file: Result<String, String>) -> Result<
    Seq<sol::FunctionView>,
    ContractErrorOf<Seq<char>>,
> {
    if ct.abi_inline@.len() > 0 {
        parse_outcome(ct.abi_inline@)
    } else {
        match file {
            Ok(raw) => parse_outcome(raw@),
            Err(reason) => Err(
                ContractErrorOf::AbiUnreadable { path: ct.abi_path@, reason: reason@ },
            ),
        }
    }
}

/// The functions of an interface's text.
pub open spec fn parse_outcome(raw: Seq<char>) -> Result<
    Seq<sol::FunctionView>,
    ContractErrorOf<Seq<char>>,
> {
    match sol::json_functions(raw) {
        Ok(fs) => Ok(fs),
        Err(reason) => Err(ContractErrorOf::AbiUnparsable { reason }),
    }
}

/// The place of the labels of an instance.
pub open spec fn instance_labels_context(i: int) -> Seq<char> {
    "instances["@ + text::decimal(i as nat) + "].labels"@
}

/// What is wrong with an instance of a contract.
pub open spec fn instance_fault(instances: Seq<Instance>, i: int) -> Option<
    ContractErrorOf<Seq<char>>,
> {
    if instances[i].address@.len() == 0 {
        Some(ContractErrorOf::AddressRequired { instance: i as usize })
    } else {
        match label_fault(instance_labels_context(i), instances[i].labels@) {
            Some(e) => Some(ContractErrorOf::Label(e)),
            None => None,
        }
    }
}

/// What is wrong with a metric at its position in a contract.
pub open spec fn metric_fault_at(
    fs: Seq<sol::FunctionView>,
    metrics: Seq<Metric>,
    i: int,
) -> Option<ContractErrorOf<Seq<char>>> {
    match metric_fault(fs, metrics[i]) {
        Some(error) => Some(
            ContractErrorOf::Metric {
                index: i as usize,
                descriptor: descriptor(metrics[i]),
                error,
            },
        ),
        None => None,
    }
}

/// What is wrong with a contract before its interface is read.
pub open spec fn header_fault(ct: Contract) -> Option<ContractErrorOf<Seq<char>>> {
    if ct.name@.len() == 0 {
        Some(ContractErrorOf::NameRequired)
    } else {
        match label_fault("labels"@, ct.labels@) {
            Some(e) => Some(ContractErrorOf::Label(e)),
            None => if ct.abi_path@.len() == 0 && ct.abi_inline@.len() == 0 {
                Some(ContractErrorOf::NoAbi)
            } else if ct.abi_path@.len() > 0 && ct.abi_inline@.len() > 0 {
                Some(ContractErrorOf::TwoAbis)
            } else {
                None
            },
        }
    }
}

/// What is wrong with a contract whose interface has the given functions.
pub open spec fn body_fault(ct: Contract, fs: Seq<sol::FunctionView>) -> Option<
    ContractErrorOf<Seq<char>>,
> {
    if ct.instances@.len() == 0 {
        Some(ContractErrorOf::NoInstance)
    } else {
        match outcome::first_failure(
            ct.instances@.len(),
            |i: int| instance_fault(ct.instances@, i),
        ) {
            Some(e) => Some(e),
            None => if ct.metrics@.len() == 0 {
                Some(ContractErrorOf::NoMetric)
            } else {
                outcome::first_failure(
                    ct.metrics@.len(),
                    |i: int| metric_fault_at(fs, ct.metrics@, i),
                )
            },
        }
    }
}

/// The functions of a contract's interface, or what is wrong with the contract.
pub open spec fn contract_outcome(ct: Contract, file: Result<String, String>) -> Result<
    Seq<sol::FunctionView>,
    ContractErrorOf<Seq<char>>,
> {
    match header_fault(ct) {
        Some(e) => Err(e),
        None => match abi_outcome(ct, file) {
            Err(e) => Err(e),
            Ok(fs) => match body_fault(ct, fs) {
                Some(e) => Err(e),
                None => Ok(fs),
            },
        },
    }
}

/// What is wrong with a configuration apart from its contracts.
pub open spec fn top_fault(cfg: Config) -> Option<ConfigErrorOf<Seq<char>>> {
    if cfg.chain.rpc_url@.len() == 0 {
        Some(ConfigErrorOf::RpcUrlRequired)
    } else if cfg.chain.chain_id == 0 {
        Some(ConfigErrorOf::ChainIdRequired)
    } else if cfg.contracts@.len() == 0 {
        Some(ConfigErrorOf::NoContract)
    } else {
        match label_fault("labels"@, cfg.labels@) {
            Some(e) => Some(ConfigErrorOf::Label(e)),
            None => None,
        }
    }
}

/// The functions of a contract's interface, or what is wrong with the contract, at its position.
pub open spec fn contract_outcome_at(
    contracts: Seq<Contract>,
    files: Seq<Result<String, String>>,
    i: int,
) -> Result<Seq<sol::FunctionView>, ConfigErrorOf<Seq<char>>> {
    match contract_outcome(contracts[i], files[i]) {
        Ok(fs) => Ok(fs),
        Err(error) => Err(
            ConfigErrorOf::Contract { index: i as usize, name: contracts[i].name@, error },
        ),
    }
}

/// The interfaces of all contracts, or what is wrong with the configuration.
pub open spec fn config_outcome(cfg: Config, files: Seq<Result<String, String>>) -> Result<
    Seq<Seq<sol::FunctionView>>,
    ConfigErrorOf<Seq<char>>,
> {
    match top_fault(cfg) {
        Some(e) => Err(e),
        None => outcome::gathered(
            cfg.contracts@.len(),
            |i: int| contract_outcome_at(cfg.contracts@, files, i),
        ),
    }
}

/// Whether `after` is `before` but for the interfaces of its contracts.
pub open spec fn same_but_interfaces(before: Config, after: Config) -> bool {
    &&& after.chain == before.chain
    &&& after.server == before.server
    &&& after.scrape == before.scrape
    &&& after.labels == before.labels
    &&& after.contracts@.len() == before.contracts@.len()
    &&& forall|i: int|
        0 <= i < before.contracts@.len() ==> #[trigger] after.contracts@[i] == (Contract {
            parsed_abi: after.contracts@[i].parsed_abi,
            ..before.contracts@[i]
        })
}

/// Whether the first `n` contracts hold the interfaces that their texts give.
pub open spec fn has_interfaces(
    contracts: Seq<Contract>,
    files: Seq<Result<String, String>>,
    n: int,
) -> bool {
    forall|i: int|
        0 <= i < n ==> ((#[trigger] contracts[i]).parsed_abi matches Some(parsed) && abi_outcome(
            contracts[i],
            files[i],
        ) == Ok::<Seq<sol::FunctionView>, ContractErrorOf<Seq<char>>>(parsed@))
}

/// Reads the interface of a contract.
fn load_abi(ct: &Contract, file: &Result<String, String>) -> (r: Result<JsonAbi, ContractError>)
    ensures
        match r {
            Ok(parsed) => abi_outcome(*ct, *file) == Ok::<
                Seq<sol::FunctionView>,
                ContractErrorOf<Seq<char>>,
            >(parsed@),
            Err(e) => abi_outcome(*ct, *file) == Err::<
                Seq<sol::FunctionView>,
                ContractErrorOf<Seq<char>>,
            >(e@),
        },
{
    let raw: &str = if !ct.abi_inline.as_str().is_empty() {
        ct.abi_inline.as_str()
    } else {
        match file {
            Ok(raw) => raw.as_str(),
            Err(reason) => {
                return Err(
                    ContractErrorOf::AbiUnreadable {
                        path: ct.abi_path.clone(),
                        reason: reason.clone(),
                    },
                );
            },
        }
    };
    match sol::parse_abi(raw) {
        Ok(parsed) => Ok(parsed),
        Err(reason) => Err(ContractErrorOf::AbiUnparsable { reason }),
    }
}

/// Checks what of a contract does not depend on its interface.
fn validate_header(ct: &Contract) -> (r: Result<(), ContractError>)
    ensures
        match r {
            Ok(()) => header_fault(*ct) is None,
            Err(e) => header_fault(*ct) == Some(e@),
        },
{
    if ct.name.as_str().is_empty() {
        return Err(ContractErrorOf::NameRequired);
    }
    match check_reserved_labels("labels", &ct.labels) {
        Err(e) => {
            return Err(ContractErrorOf::Label(e));
        },
        Ok(()) => {},
    }
    match (ct.abi_path.as_str().is_empty(), ct.abi_inline.as_str().is_empty()) {
        (true, true) => Err(ContractErrorOf::NoAbi),
        (false, false) => Err(ContractErrorOf::TwoAbis),
        _ => Ok(()),
    }
}

/// Checks an instance of a contract.
fn validate_instance(instances: &Vec<Instance>, i: usize) -> (r: Result<(), ContractError>)
    requires
        i < instances@.len(),
    ensures
        match r {
            Ok(()) => instance_fault(instances@, i as int) is None,
            Err(e) => instance_fault(instances@, i as int) == Some(e@),
        },
{
    if instances[i].address.as_str().is_empty() {
        return Err(ContractErrorOf::AddressRequired { instance: i });
    }
    let mut context = "instances[".to_string();
    context.append(text::count_text(i).as_str());
    context.append("].labels");
    match check_reserved_labels(context.as_str(), &instances[i].labels) {
        Err(e) => Err(ContractErrorOf::Label(e)),
        Ok(()) => Ok(()),
    }
}

/// Checks the instances and metrics of a contract.
fn validate_body(ct: &Contract, parsed: &JsonAbi) -> (r: Result<(), ContractError>)
    ensures
        match r {
            Ok(()) => body_fault(*ct, parsed@) is None,
            Err(e) => body_fault(*ct, parsed@) == Some(e@),
        },
{
    if ct.instances.len() == 0 {
        return Err(ContractErrorOf::NoInstance);
    }
    let ghost instance_at = |i: int| instance_fault(ct.instances@, i);
    for i in 0..ct.instances.len()
        invariant
            ct.instances@.len() > 0,
            instance_at == (|i: int| instance_fault(ct.instances@, i)),
            outcome::first_failure(i as nat, instance_at) is None,
    {
        match validate_instance(&ct.instances, i) {
            Ok(()) => {},
            Err(e) => {
                proof {
                    assert(outcome::first_failure((i + 1) as nat, instance_at) == Some(e@));
                    outcome::lemma_first_failure_stays(
                        (i + 1) as nat,
                        ct.instances@.len(),
                        instance_at,
                    );
                }
                return Err(e);
            },
        }
    }
    if ct.metrics.len() == 0 {
        return Err(ContractErrorOf::NoMetric);
    }
    let ghost metric_at = |i: int| metric_fault_at(parsed@, ct.metrics@, i);
    for i in 0..ct.metrics.len()
        invariant
            ct.instances@.len() > 0,
            ct.metrics@.len() > 0,
            instance_at == (|i: int| instance_fault(ct.instances@, i)),
            outcome::first_failure(ct.instances@.len(), instance_at) is None,
            metric_at == (|i: int| metric_fault_at(parsed@, ct.metrics@, i)),
            outcome::first_failure(i as nat, metric_at) is None,
    {
        match validate_metric(parsed, &ct.metrics[i]) {
            Ok(()) => {},
            Err(error) => {
                let e: ContractError = ContractErrorOf::Metric {
                    index: i,
                    descriptor: metric_descriptor(&ct.metrics[i]),
                    error,
                };
                proof {
                    assert(outcome::first_failure((i + 1) as nat, metric_at) == Some(e@));
                    outcome::lemma_first_failure_stays(
                        (i + 1) as nat,
                        ct.metrics@.len(),
                        metric_at,
                    );
                }
                return Err(e);
            },
        }
    }
    Ok(())
}

/// Checks a contract and gives its interface.
pub fn validate_contract(ct: &Contract, file: &Result<String, String>) -> (r: Result<
    JsonAbi,
    ContractError,
>)
    ensures
        match r {
            Ok(parsed) => contract_outcome(*ct, *file) == Ok::<
                Seq<sol::FunctionView>,
                ContractErrorOf<Seq<char>>,
            >(parsed@),
            Err(e) => contract_outcome(*ct, *file) == Err::<
                Seq<sol::FunctionView>,
                ContractErrorOf<Seq<char>>,
            >(e@),
        },
{
    match validate_header(ct) {
        Err(e) => {
            return Err(e);
        },
        Ok(()) => {},
    }
    match load_abi(ct, file) {
        Err(e) => Err(e),
        Ok(parsed) => match validate_body(ct, &parsed) {
            Err(e) => Err(e),
            Ok(()) => Ok(parsed),
        },
    }
}

impl Config {
    /// Checks everything of the configuration that can be checked offline, and reads the
    /// interfaces of its contracts. `abi_files` holds, by the position of the contract, the text
    /// of the file that `abi_path` names or the reason why it cannot be read.
    pub fn validate(&mut self, abi_files: &Vec<Result<String, String>>) -> (r: Result<
        (),
        ConfigError,
    >)
        requires
            old(self).contracts@.len() <= abi_files@.len(),
        ensures
            same_but_interfaces(*old(self), *final(self)),
            match r {
                Ok(()) => config_outcome(*old(self), abi_files@) is Ok && has_interfaces(
                    final(self).contracts@,
                    abi_files@,
                    old(self).contracts@.len() as int,
                ),
                Err(e) => config_outcome(*old(self), abi_files@) == Err::<
                    Seq<Seq<sol::FunctionView>>,
                    ConfigErrorOf<Seq<char>>,
                >(e@) && (match e {
                    ConfigErrorOf::Contract { index, .. } => has_interfaces(
                        final(self).contracts@,
                        abi_files@,
                        index as int,
                    ) && (forall|j: int|
                        index <= j < old(self).contracts@.len() ==> #[trigger] final(self).contracts@[j]
                            == old(self).contracts@[j]),
                    _ => *final(self) == *old(self),
                }),
            },
    {
        if self.chain.rpc_url.as_str().is_empty() {
            return Err(ConfigErrorOf::RpcUrlRequired);
        }
        if self.chain.chain_id == 0 {
            return Err(ConfigErrorOf::ChainIdRequired);
        }
        if self.contracts.len() == 0 {
            return Err(ConfigErrorOf::NoContract);
        }
        match check_reserved_labels("labels", &self.labels) {
            Err(e) => {
                return Err(ConfigErrorOf::Label(e));
            },
            Ok(()) => {},
        }
        let ghost before = *self;
        let ghost at = |i: int| contract_outcome_at(before.contracts@, abi_files@, i);
        let n: usize = self.contracts.len();
        for i in 0..n
            invariant
                n == before.contracts@.len() <= abi_files@.len(),
                top_fault(before) is None,
                same_but_interfaces(before, *self),
                forall|j: int|
                    i <= j < n ==> #[trigger] self.contracts@[j] == before.contracts@[j],
                at == (|i: int| contract_outcome_at(before.contracts@, abi_files@, i)),
                outcome::gathered(i as nat, at) is Ok,
                has_interfaces(self.contracts@, abi_files@, i as int),
                before == *old(self),
        {
            match validate_contract(&self.contracts[i], &abi_files[i]) {
                Ok(parsed) => {
                    self.contracts[i].parsed_abi = Some(parsed);
                },
                Err(error) => {
                    let e: ConfigError = ConfigErrorOf::Contract {
                        index: i,
                        name: self.contracts[i].name.clone(),
                        error,
                    };
                    proof {
                        outcome::lemma_gathered_failure_stays((i + 1) as nat, n as nat, at);
                    }
                    return Err(e);
                },
            }
        }
        Ok(())
    }
}

/// Validation does not depend on the interfaces that an earlier validation has read, so it can be
/// repeated with the same outcome.
pub proof fn validation_can_be_repeated(
    before: Config,
    after: Config,
    files: Seq<Result<String, String>>,
)
    requires
        same_but_interfaces(before, after),
    ensures
        config_outcome(after, files) == config_outcome(before, files),
{
    let n = before.contracts@.len();
    let was = |i: int| contract_outcome_at(before.contracts@, files, i);
    let is = |i: int| contract_outcome_at(after.contracts@, files, i);
    assert forall|i: int| 0 <= i < n implies (#[trigger] is(i)) == was(i) by {
        let ct = after.contracts@[i];
        let old_ct = before.contracts@[i];
        assert(ct == (Contract { parsed_abi: ct.parsed_abi, ..old_ct }));
        assert(header_fault(ct) == header_fault(old_ct));
        assert(abi_outcome(ct, files[i]) == abi_outcome(old_ct, files[i]));
        if let Ok(fs) = abi_outcome(ct, files[i]) {
            assert(body_fault(ct, fs) == body_fault(old_ct, fs));
        }
    }
    outcome::lemma_gathered_same(n, is, was);
}

/// The name of a metric begins with a letter, an underscore or a colon and goes on with those and
/// digits.
pub proof fn metric_names_follow_the_grammar(s: Seq<char>, c: char)
    ensures
        !is_prom_name(seq![]),
        is_prom_name(seq![c]) <==> c == '_' || c == ':' || 'a' <= c <= 'z' || 'A' <= c <= 'Z',
        s.len() > 0 ==> (is_prom_name(s.push(c)) <==> is_prom_name(s) && (c == '_' || c == ':' || 'a'
            <= c <= 'z' || 'A' <= c <= 'Z' || '0' <= c <= '9')),
{
    let one = seq![c];
    assert(one[0] == c);
    let more = s.push(c);
    if s.len() > 0 {
        assert(more[0] == s[0]);
        assert(more[s.len() as int] == c);
        if is_prom_name(more) {
            assert forall|i: int| 0 <= i < s.len() implies begins_prom_name(#[trigger] s[i]) || '0'
                <= s[i] <= '9' by {
                assert(more[i] == s[i]);
            }
        }
    }
}

/// Labels are refused exactly if they have one of the keys that the exporter sets, and for that
/// key.
pub proof fn reserved_labels_are_refused(context: Seq<char>, labels: Map<Seq<char>, Seq<char>>)
    ensures
        label_fault(context, labels) is Some <==> labels.dom().contains("address"@)
            || labels.dom().contains("chain_id"@),
        label_fault(context, labels) matches Some(e) ==> e.context == context && (e.key
            == "address"@ || e.key == "chain_id"@) && labels.dom().contains(e.key),
{
    assert(RESERVED_LABEL_KEYS@[0] == "address");
    assert(RESERVED_LABEL_KEYS@[1] == "chain_id");
}

} // verus!
