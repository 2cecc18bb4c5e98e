//! Why a configuration is refused.

use crate::config::abi;
use crate::config::abi::AbiErrorOf;
use crate::text;
use vstd::prelude::*;

verus! {

/// What the name of a metric looks like.
pub const PROM_NAME_RE_NOTE: &'static str =
    "Prometheus metric name grammar: ^[a-zA-Z_:][a-zA-Z0-9_:]*$";

/// A label key that the exporter sets itself, at the place where the configuration sets it.
#[derive(Debug)]
pub struct ReservedLabelOf<S> {
    pub context: S,
    pub key: S,
}

/// A label key that the exporter sets itself, at the place where the configuration sets it.
pub type ReservedLabel = ReservedLabelOf<String>;

impl View for ReservedLabel {
    type V = ReservedLabelOf<Seq<char>>;

    open spec fn view(&self) -> ReservedLabelOf<Seq<char>> {
        ReservedLabelOf { context: self.context@, key: self.key@ }
    }
}

/// The message of a [`ReservedLabel`].
pub open spec fn label_message(e: ReservedLabelOf<Seq<char>>) -> Seq<char> {
    e.context + ": label "@ + text::debug_form(e.key) + " is reserved and set by the exporter"@
}

impl ReservedLabelOf<String> {
    /// The error as a text for people.
    pub fn message(&self) -> (r: String)
        ensures
            r@ == label_message(self@),
    {
        let mut s = self.context.clone();
        s.append(": label ");
        s.append(text::quoted(self.key.as_str()).as_str());
        s.append(" is reserved and set by the exporter");
        s
    }
}

/// Why a metric of the configuration is refused. `S` is the type of texts.
#[derive(Debug)]
pub enum MetricErrorOf<S> {
    /// A label key is reserved.
    Label(ReservedLabelOf<S>),
    /// No function is named.
    FunctionRequired,
    /// Both arguments and calls are given.
    ArgsAndCalls,
    /// The function, an output or a field does not exist or cannot be used.
    Abi(AbiErrorOf<S>),
    /// A selected output does not exist.
    OutputIndex { position: usize, index: usize, function: S, count: usize },
    /// An output, or a field of it, is selected twice.
    DuplicateOutput { position: usize, index: usize, field: S },
    /// The type of a field is not known.
    FieldType { field: S, reason: S },
    /// A field is neither a number nor a truth value.
    FieldNotNumeric { position: usize, field: S, ty: S },
    /// A call has more or fewer arguments than the function has parameters.
    CallArgCount { call: usize, function: S, expected: usize, got: usize },
    /// There are more or fewer arguments than the function has parameters.
    ArgCount { function: S, expected: usize, got: usize },
    /// The configured name is no name of a metric.
    Name { name: S },
    /// The name that follows from the configuration is no name of a metric.
    InferredName { name: S },
}

/// Why a metric of the configuration is refused.
pub type MetricError = MetricErrorOf<String>;

/// Why a contract of the configuration is refused. `S` is the type of texts.
#[derive(Debug)]
pub enum ContractErrorOf<S> {
    /// The contract has no name.
    NameRequired,
    /// A label key is reserved.
    Label(ReservedLabelOf<S>),
    /// No interface is given.
    NoAbi,
    /// The interface is given twice.
    TwoAbis,
    /// The interface's file cannot be read.
    AbiUnreadable { path: S, reason: S },
    /// The interface's text is no interface.
    AbiUnparsable { reason: S },
    /// The contract has no instance.
    NoInstance,
    /// An instance has no address.
    AddressRequired { instance: usize },
    /// The contract has no metric.
    NoMetric,
    /// A metric is refused.
    Metric { index: usize, descriptor: S, error: MetricErrorOf<S> },
}

/// Why a contract of the configuration is refused.
pub type ContractError = ContractErrorOf<String>;

/// Why a configuration is refused. `S` is the type of texts.
#[derive(Debug)]
pub enum ConfigErrorOf<S> {
    /// The address of the RPC server is missing.
    RpcUrlRequired,
    /// The chain id is missing or zero.
    ChainIdRequired,
    /// No contract is configured.
    NoContract,
    /// A label key is reserved.
    Label(ReservedLabelOf<S>),
    /// A contract is refused.
    Contract { index: usize, name: S, error: ContractErrorOf<S> },
}

/// Why a configuration is refused.
pub type ConfigError = ConfigErrorOf<String>;

impl View for MetricError {
    type V = MetricErrorOf<Seq<char>>;

    open spec fn view(&self) -> MetricErrorOf<Seq<char>> {
        match *self {
            MetricErrorOf::Label(e) => MetricErrorOf::Label(e@),
            MetricErrorOf::FunctionRequired => MetricErrorOf::FunctionRequired,
            MetricErrorOf::ArgsAndCalls => MetricErrorOf::ArgsAndCalls,
            MetricErrorOf::Abi(e) => MetricErrorOf::Abi(e@),
            MetricErrorOf::OutputIndex { position, index, function, count } =>
                MetricErrorOf::OutputIndex { position, index, function: function@, count },
            MetricErrorOf::DuplicateOutput { position, index, field } =>
                MetricErrorOf::DuplicateOutput { position, index, field: field@ },
            MetricErrorOf::FieldType { field, reason } => MetricErrorOf::FieldType {
                field: field@,
                reason: reason@,
            },
            MetricErrorOf::FieldNotNumeric { position, field, ty } =>
                MetricErrorOf::FieldNotNumeric { position, field: field@, ty: ty@ },
            MetricErrorOf::CallArgCount { call, function, expected, got } =>
                MetricErrorOf::CallArgCount { call, function: function@, expected, got },
            MetricErrorOf::ArgCount { function, expected, got } => MetricErrorOf::ArgCount {
                function: function@,
                expected,
                got,
            },
            MetricErrorOf::Name { name } => MetricErrorOf::Name { name: name@ },
            MetricErrorOf::InferredName { name } => MetricErrorOf::InferredName { name: name@ },
        }
    }
}

impl View for ContractError {
    type V = ContractErrorOf<Seq<char>>;

    open spec fn view(&self) -> ContractErrorOf<Seq<char>> {
        match *self {
            ContractErrorOf::NameRequired => ContractErrorOf::NameRequired,
            ContractErrorOf::Label(e) => ContractErrorOf::Label(e@),
            ContractErrorOf::NoAbi => ContractErrorOf::NoAbi,
            ContractErrorOf::TwoAbis => ContractErrorOf::TwoAbis,
            ContractErrorOf::AbiUnreadable { path, reason } => ContractErrorOf::AbiUnreadable {
                path: path@,
                reason: reason@,
            },
            ContractErrorOf::AbiUnparsable { reason } => ContractErrorOf::AbiUnparsable {
                reason: reason@,
            },
            ContractErrorOf::NoInstance => ContractErrorOf::NoInstance,
            ContractErrorOf::AddressRequired { instance } => ContractErrorOf::AddressRequired {
                instance,
            },
            ContractErrorOf::NoMetric => ContractErrorOf::NoMetric,
            ContractErrorOf::Metric { index, descriptor, error } => ContractErrorOf::Metric {
                index,
                descriptor: descriptor@,
                error: error@,
            },
        }
    }
}

impl View for ConfigError {
    type V = ConfigErrorOf<Seq<char>>;

    open spec fn view(&self) -> ConfigErrorOf<Seq<char>> {
        match *self {
            ConfigErrorOf::RpcUrlRequired => ConfigErrorOf::RpcUrlRequired,
            ConfigErrorOf::ChainIdRequired => ConfigErrorOf::ChainIdRequired,
            ConfigErrorOf::NoContract => ConfigErrorOf::NoContract,
            ConfigErrorOf::Label(e) => ConfigErrorOf::Label(e@),
            ConfigErrorOf::Contract { index, name, error } => ConfigErrorOf::Contract {
                index,
                name: name@,
                error: error@,
            },
        }
    }
}

/// How many arguments a function takes and how many there are.
pub open spec fn count_message(function: Seq<char>, expected: usize, got: usize) -> Seq<char> {
    "function "@ + text::debug_form(function) + " expects "@ + text::decimal(expected as nat)
        + " argument(s), got "@ + text::decimal(got as nat)
}

/// The message of a [`MetricError`].
pub open spec fn metric_message(e: MetricErrorOf<Seq<char>>) -> Seq<char> {
    match e {
        MetricErrorOf::Label(e) => label_message(e),
        MetricErrorOf::FunctionRequired => "function is required"@,
        MetricErrorOf::ArgsAndCalls => "args and calls are mutually exclusive"@,
        MetricErrorOf::Abi(e) => abi::abi_message(e),
        MetricErrorOf::OutputIndex { position, index, function, count } => "outputs["@
            + text::decimal(position as nat) + "].index "@ + text::decimal(index as nat)
            + " out of range (function "@ + text::debug_form(function) + " has "@ + text::decimal(
            count as nat,
        ) + " output(s))"@,
        MetricErrorOf::DuplicateOutput { position, index, field } => {
            let head = "outputs["@ + text::decimal(position as nat) + "]: duplicate index "@
                + text::decimal(index as nat);
            if field.len() > 0 {
                head + " field "@ + text::debug_form(field)
            } else {
                head
            }
        },
        MetricErrorOf::FieldType { field, reason } => "resolve tuple field type for "@
            + text::debug_form(field) + ": "@ + reason,
        MetricErrorOf::FieldNotNumeric { position, field, ty } => "outputs["@ + text::decimal(
            position as nat,
        ) + "]: tuple field "@ + text::debug_form(field) + " has type "@ + ty
            + ", not a numeric/bool scalar"@,
        MetricErrorOf::CallArgCount { call, function, expected, got } => "calls["@ + text::decimal(
            call as nat,
        ) + "]: "@ + count_message(function, expected, got),
        MetricErrorOf::ArgCount { function, expected, got } => count_message(
            function,
            expected,
            got,
        ),
        MetricErrorOf::Name { name } => "metric name "@ + text::debug_form(name)
            + " does not match "@ + PROM_NAME_RE_NOTE@,
        MetricErrorOf::InferredName { name } => "inferred metric name "@ + text::debug_form(name)
            + " does not match "@ + PROM_NAME_RE_NOTE@,
    }
}

/// The message of a [`ContractError`].
pub open spec fn contract_message(e: ContractErrorOf<Seq<char>>) -> Seq<char> {
    match e {
        ContractErrorOf::NameRequired => "name is required"@,
        ContractErrorOf::Label(e) => label_message(e),
        ContractErrorOf::NoAbi => "one of abi_path or abi_inline is required"@,
        ContractErrorOf::TwoAbis => "abi_path and abi_inline are mutually exclusive"@,
        ContractErrorOf::AbiUnreadable { path, reason } => "read abi_path "@ + text::debug_form(
            path,
        ) + ": "@ + reason,
        ContractErrorOf::AbiUnparsable { reason } => "parse abi: "@ + reason,
        ContractErrorOf::NoInstance => "at least one instance is required"@,
        ContractErrorOf::AddressRequired { instance } => "instances["@ + text::decimal(
            instance as nat,
        ) + "]: address is required"@,
        ContractErrorOf::NoMetric => "at least one metric is required"@,
        ContractErrorOf::Metric { index, descriptor, error } => "metrics["@ + text::decimal(
            index as nat,
        ) + "] ("@ + descriptor + "): "@ + metric_message(error),
    }
}

/// The message of a [`ConfigError`].
pub open spec fn config_message(e: ConfigErrorOf<Seq<char>>) -> Seq<char> {
    match e {
        ConfigErrorOf::RpcUrlRequired => "chain.rpc_url is required"@,
        ConfigErrorOf::ChainIdRequired => "chain.chain_id is required and must be non-zero"@,
        ConfigErrorOf::NoContract => "at least one contract must be configured"@,
        ConfigErrorOf::Label(e) => label_message(e),
        ConfigErrorOf::Contract { index, name, error } => "contracts["@ + text::decimal(
            index as nat,
        ) + "] ("@ + name + "): "@ + contract_message(error),
    }
}

/// How many arguments a function takes and how many there are.
fn count_text(function: &str, expected: usize, got: usize) -> (r: String)
    ensures
        r@ == count_message(function@, expected, got),
{
    let mut s = "function ".to_string();
    s.append(text::quoted(function).as_str());
    s.append(" expects ");
    s.append(text::count_text(expected).as_str());
    s.append(" argument(s), got ");
    s.append(text::count_text(got).as_str());
    s
}

impl MetricErrorOf<String> {
    /// The error as a text for people.
    pub fn message(&self) -> (r: String)
        ensures
            r@ == metric_message(self@),
    {
        match self {
            MetricErrorOf::Label(e) => e.message(),
            MetricErrorOf::FunctionRequired => "function is required".to_string(),
            MetricErrorOf::ArgsAndCalls => "args and calls are mutually exclusive".to_string(),
            MetricErrorOf::Abi(e) => e.message(),
            MetricErrorOf::OutputIndex { position, index, function, count } => {
                let mut s = "outputs[".to_string();
                s.append(text::count_text(*position).as_str());
                s.append("].index ");
                s.append(text::count_text(*index).as_str());
                s.append(" out of range (function ");
                s.append(text::quoted(function).as_str());
                s.append(" has ");
                s.append(text::count_text(*count).as_str());
                s.append(" output(s))");
                s
            },
            MetricErrorOf::DuplicateOutput { position, index, field } => {
                let mut s = "outputs[".to_string();
                s.append(text::count_text(*position).as_str());
                s.append("]: duplicate index ");
                s.append(text::count_text(*index).as_str());
                if !field.as_str().is_empty() {
                    s.append(" field ");
                    s.append(text::quoted(field).as_str());
                }
                s
            },
            MetricErrorOf::FieldType { field, reason } => {
                let mut s = "resolve tuple field type for ".to_string();
                s.append(text::quoted(field).as_str());
                s.append(": ");
                s.append(reason);
                s
            },
            MetricErrorOf::FieldNotNumeric { position, field, ty } => {
                let mut s = "outputs[".to_string();
                s.append(text::count_text(*position).as_str());
                s.append("]: tuple field ");
                s.append(text::quoted(field).as_str());
                s.append(" has type ");
                s.append(ty);
                s.append(", not a numeric/bool scalar");
                s
            },
            MetricErrorOf::CallArgCount { call, function, expected, got } => {
                let mut s = "calls[".to_string();
                s.append(text::count_text(*call).as_str());
                s.append("]: ");
                s.append(count_text(function, *expected, *got).as_str());
                s
            },
            MetricErrorOf::ArgCount { function, expected, got } => count_text(
                function,
                *expected,
                *got,
            ),
            MetricErrorOf::Name { name } => {
                let mut s = "metric name ".to_string();
                s.append(text::quoted(name).as_str());
                s.append(" does not match ");
                s.append(PROM_NAME_RE_NOTE);
                s
            },
            MetricErrorOf::InferredName { name } => {
                let mut s = "inferred metric name ".to_string();
                s.append(text::quoted(name).as_str());
                s.append(" does not match ");
                s.append(PROM_NAME_RE_NOTE);
                s
            },
        }
    }
}

impl ContractErrorOf<String> {
    /// The error as a text for people.
    pub fn message(&self) -> (r: String)
        ensures
            r@ == contract_message(self@),
    {
        match self {
            ContractErrorOf::NameRequired => "name is required".to_string(),
            ContractErrorOf::Label(e) => e.message(),
            ContractErrorOf::NoAbi => "one of abi_path or abi_inline is required".to_string(),
            ContractErrorOf::TwoAbis =>
                "abi_path and abi_inline are mutually exclusive".to_string(),
            ContractErrorOf::AbiUnreadable { path, reason } => {
                let mut s = "read abi_path ".to_string();
                s.append(text::quoted(path).as_str());
                s.append(": ");
                s.append(reason);
                s
            },
            ContractErrorOf::AbiUnparsable { reason } => {
                let mut s = "parse abi: ".to_string();
                s.append(reason);
                s
            },
            ContractErrorOf::NoInstance => "at least one instance is required".to_string(),
            ContractErrorOf::AddressRequired { instance } => {
                let mut s = "instances[".to_string();
                s.append(text::count_text(*instance).as_str());
                s.append("]: address is required");
                s
            },
            ContractErrorOf::NoMetric => "at least one metric is required".to_string(),
            ContractErrorOf::Metric { index, descriptor, error } => {
                let mut s = "metrics[".to_string();
                s.append(text::count_text(*index).as_str());
                s.append("] (");
                s.append(descriptor);
                s.append("): ");
                s.append(error.message().as_str());
                s
            },
        }
    }
}

impl ConfigErrorOf<String> {
    /// The error as a text for people.
    pub fn message(&self) -> (r: String)
        ensures
            r@ == config_message(self@),
    {
        match self {
            ConfigErrorOf::RpcUrlRequired => "chain.rpc_url is required".to_string(),
            ConfigErrorOf::ChainIdRequired =>
                "chain.chain_id is required and must be non-zero".to_string(),
            ConfigErrorOf::NoContract => "at least one contract must be configured".to_string(),
            ConfigErrorOf::Label(e) => e.message(),
            ConfigErrorOf::Contract { index, name, error } => {
                let mut s = "contracts[".to_string();
                s.append(text::count_text(*index).as_str());
                s.append("] (");
                s.append(name);
                s.append("): ");
                s.append(error.message().as_str());
                s
            },
        }
    }
}

/// What is missing at the top of a configuration is named.
pub proof fn missing_settings_are_named()
    ensures
        config_message(ConfigErrorOf::RpcUrlRequired) == "chain.rpc_url is required"@,
        config_message(ConfigErrorOf::ChainIdRequired)
            == "chain.chain_id is required and must be non-zero"@,
        metric_message(MetricErrorOf::ArgsAndCalls) == "args and calls are mutually exclusive"@,
{
}

} // verus!
