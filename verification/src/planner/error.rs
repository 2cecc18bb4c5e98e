//! Why no plan can be made.

use crate::config::abi;
use crate::config::abi::AbiErrorOf;
use crate::config::args;
use crate::config::args::ArgErrorOf;
use crate::text;
use vstd::prelude::*;

verus! {

/// Why no plan can be made. `S` is the type of texts.
#[derive(Debug)]
pub enum PlanErrorOf<S> {
    /// The interface of a contract has not been read.
    NoAbi { contract: S },
    /// The address of an instance is none.
    Address { contract: S, address: S },
    /// The interface has no function of that name.
    FunctionMissing { contract: S, metric: S, function: S },
    /// The arguments do not fit the function.
    Args { contract: S, metric: S, fault: ArgErrorOf<S> },
    /// The arguments cannot be encoded.
    Pack { contract: S, metric: S, function: S, reason: S },
    /// An output or a field does not exist.
    Outputs { contract: S, metric: S, error: AbiErrorOf<S> },
    /// A metric has two different help texts.
    HelpConflict { name: S },
    /// A metric cannot be described to Prometheus.
    Gauge { name: S, reason: S },
}

/// Why no plan can be made.
pub type PlanError = PlanErrorOf<String>;

impl View for PlanError {
    type V = PlanErrorOf<Seq<char>>;

    open spec fn view(&self) -> PlanErrorOf<Seq<char>> {
        match *self {
            PlanErrorOf::NoAbi { contract } => PlanErrorOf::NoAbi { contract: contract@ },
            PlanErrorOf::Address { contract, address } => PlanErrorOf::Address {
                contract: contract@,
                address: address@,
            },
            PlanErrorOf::FunctionMissing { contract, metric, function } =>
                PlanErrorOf::FunctionMissing {
                    contract: contract@,
                    metric: metric@,
                    function: function@,
                },
            PlanErrorOf::Args { contract, metric, fault } => PlanErrorOf::Args {
                contract: contract@,
                metric: metric@,
                fault: fault@,
            },
            PlanErrorOf::Pack { contract, metric, function, reason } => PlanErrorOf::Pack {
                contract: contract@,
                metric: metric@,
                function: function@,
                reason: reason@,
            },
            PlanErrorOf::Outputs { contract, metric, error } => PlanErrorOf::Outputs {
                contract: contract@,
                metric: metric@,
                error: error@,
            },
            PlanErrorOf::HelpConflict { name } => PlanErrorOf::HelpConflict { name: name@ },
            PlanErrorOf::Gauge { name, reason } => PlanErrorOf::Gauge {
                name: name@,
                reason: reason@,
            },
        }
    }
}

/// The contract and the metric that a message is about.
pub open spec fn metric_place(contract: Seq<char>, metric: Seq<char>) -> Seq<char> {
    "contract "@ + text::debug_form(contract) + " metric "@ + text::debug_form(metric) + ": "@
}

/// The message of a [`PlanError`].
pub open spec fn plan_message(e: PlanErrorOf<Seq<char>>) -> Seq<char> {
    match e {
        PlanErrorOf::NoAbi { contract } => "contract "@ + text::debug_form(contract)
            + " has no parsed ABI (config not validated?)"@,
        PlanErrorOf::Address { contract, address } => "contract "@ + text::debug_form(contract)
            + " instance "@ + text::debug_form(address) + ": invalid address"@,
        PlanErrorOf::FunctionMissing { contract, metric, function } => metric_place(
            contract,
            metric,
        ) + "function "@ + text::debug_form(function) + " missing from ABI"@,
        PlanErrorOf::Args { contract, metric, fault } => metric_place(contract, metric)
            + args::arg_message(fault),
        PlanErrorOf::Pack { contract, metric, function, reason } => metric_place(contract, metric)
            + "pack "@ + text::debug_form(function) + ": "@ + reason,
        PlanErrorOf::Outputs { contract, metric, error } => metric_place(contract, metric)
            + abi::abi_message(error),
        PlanErrorOf::HelpConflict { name } => "metric "@ + text::debug_form(name)
            + " has conflicting Help texts across contracts"@,
        PlanErrorOf::Gauge { name, reason } => "create gauge "@ + text::debug_form(name) + ": "@
            + reason,
    }
}

/// The contract and the metric that a message is about.
fn place_text(contract: &str, metric: &str) -> (r: String)
    ensures
        r@ == metric_place(contract@, metric@),
{
    let mut s = "contract ".to_string();
    s.append(text::quoted(contract).as_str());
    s.append(" metric ");
    s.append(text::quoted(metric).as_str());
    s.append(": ");
    s
}

impl PlanErrorOf<String> {
    /// The error as a text for people.
    pub fn message(&self) -> (r: String)
        ensures
            r@ == plan_message(self@),
    {
        match self {
            PlanErrorOf::NoAbi { contract } => {
                let mut s = "contract ".to_string();
                s.append(text::quoted(contract).as_str());
                s.append(" has no parsed ABI (config not validated?)");
                s
            },
            PlanErrorOf::Address { contract, address } => {
                let mut s = "contract ".to_string();
                s.append(text::quoted(contract).as_str());
                s.append(" instance ");
                s.append(text::quoted(address).as_str());
                s.append(": invalid address");
                s
            },
            PlanErrorOf::FunctionMissing { contract, metric, function } => {
                let mut s = place_text(contract, metric);
                s.append("function ");
                s.append(text::quoted(function).as_str());
                s.append(" missing from ABI");
                s
            },
            PlanErrorOf::Args { contract, metric, fault } => {
                let mut s = place_text(contract, metric);
                s.append(fault.message().as_str());
                s
            },
            PlanErrorOf::Pack { contract, metric, function, reason } => {
                let mut s = place_text(contract, metric);
                s.append("pack ");
                s.append(text::quoted(function).as_str());
                s.append(": ");
                s.append(reason);
                s
            },
            PlanErrorOf::Outputs { contract, metric, error } => {
                let mut s = place_text(contract, metric);
                s.append(error.message().as_str());
                s
            },
            PlanErrorOf::HelpConflict { name } => {
                let mut s = "metric ".to_string();
                s.append(text::quoted(name).as_str());
                s.append(" has conflicting Help texts across contracts");
                s
            },
            PlanErrorOf::Gauge { name, reason } => {
                let mut s = "create gauge ".to_string();
                s.append(text::quoted(name).as_str());
                s.append(": ");
                s.append(reason);
                s
            },
        }
    }
}

} // verus!
