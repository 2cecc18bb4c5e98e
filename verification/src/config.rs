//! The exporter's configuration: its data and its defaults.

pub mod abi;
pub mod args;
pub mod env;
pub mod error;
pub mod laws;
pub mod naming;
pub mod validate;

use crate::labels::Labels;
use crate::sol::JsonAbi;
use crate::yaml::YamlValue;
use vstd::prelude::*;

verus! {

/// The address at which Multicall3 is deployed on most chains.
pub const DEFAULT_MULTICALL3_ADDRESS: &'static str = "0xcA11bde05977b3631167028862bE2a173976CA11";

/// The block to read from where none is configured.
pub const DEFAULT_BLOCK_TAG: &'static str = "finalized";

/// The time limit of a request, in seconds.
pub const DEFAULT_REQUEST_TIMEOUT: u64 = 10;

/// The time between two scrapes, in seconds.
pub const DEFAULT_SCRAPE_INTERVAL: u64 = 30;

/// The time limit of a scrape, in seconds.
pub const DEFAULT_SCRAPE_TIMEOUT: u64 = 25;

/// The number of calls that go into one request.
pub const DEFAULT_MAX_CALLS_PER_BATCH: usize = 500;

/// The address to serve on.
pub const DEFAULT_LISTEN_ADDRESS: &'static str = "0.0.0.0:9100";

/// The path of the metrics.
pub const DEFAULT_METRICS_PATH: &'static str = "/metrics";

/// The path of the health check.
pub const DEFAULT_HEALTH_PATH: &'static str = "/healthz";

/// The label keys that the exporter sets itself.
pub const RESERVED_LABEL_KEYS: [&'static str; 2] = ["address", "chain_id"];

/// A span of time.
#[derive(Debug, Clone, Copy, PartialEq, Eq, Default, Structural)]
pub struct Duration {
    pub secs: u64,
    pub nanos: u32,
}

impl Duration {
    /// The span of a number of seconds.
    pub fn from_secs(secs: u64) -> (r: Duration)
        ensures
            r == (Duration { secs, nanos: 0 }),
    {
        Duration { secs, nanos: 0 }
    }

    /// Whether the span is empty.
    pub fn is_zero(&self) -> (r: bool)
        ensures
            r == (*self == Duration { secs: 0, nanos: 0 }),
    {
        self.secs == 0 && self.nanos == 0
    }
}

/// The whole configuration.
#[derive(Debug, Default)]
pub struct Config {
    pub chain: Chain,
    pub server: Server,
    pub scrape: Scrape,
    /// Labels of every metric.
    pub labels: Labels,
    pub contracts: Vec<Contract>,
}

/// The chain to read from.
#[derive(Debug, Default)]
pub struct Chain {
    pub rpc_url: String,
    pub chain_id: u64,
    pub multicall3_address: String,
    pub block_tag: String,
    pub request_timeout: Duration,
}

/// Where the metrics are served.
#[derive(Debug, Default)]
pub struct Server {
    pub listen_address: String,
    pub metrics_path: String,
    pub health_path: String,
}

/// How often and in what portions the chain is read.
#[derive(Debug, Default)]
pub struct Scrape {
    pub interval: Duration,
    pub timeout: Duration,
    pub max_calls_per_batch: usize,
}

/// A contract interface, the addresses at which it is deployed, and the metrics to read there.
#[derive(Debug, Default)]
pub struct Contract {
    pub name: String,
    pub metric_prefix: String,
    pub abi_path: String,
    pub abi_inline: String,
    pub labels: Labels,
    pub instances: Vec<Instance>,
    pub metrics: Vec<Metric>,
    /// The interface, once validation has read it.
    pub parsed_abi: Option<JsonAbi>,
}

/// One deployment of a contract.
#[derive(Debug, Default)]
pub struct Instance {
    pub address: String,
    pub labels: Labels,
}

/// A function to call and the metrics to make of what it returns.
#[derive(Debug, Default)]
pub struct Metric {
    pub name: String,
    pub help: String,
    pub function: String,
    pub args: Vec<YamlValue>,
    pub outputs: Vec<Output>,
    pub calls: Vec<Call>,
    pub labels: Labels,
}

/// One output of a function, or a field of a tuple output.
#[derive(Debug, Default)]
pub struct Output {
    pub index: usize,
    pub field: String,
    pub name: String,
    /// The divisor of the value, as the bits of an IEEE 754 double; zero where none is set.
    pub scale_bits: u64,
}

/// One of several calls of a metric's function.
#[derive(Debug, Default)]
pub struct Call {
    pub args: Vec<YamlValue>,
    pub labels: Labels,
}

/// What an [`Output`] says.
#[verifier::ext_equal]
pub struct OutputView {
    pub index: usize,
    pub field: Seq<char>,
    pub name: Seq<char>,
    pub scale_bits: u64,
}

impl View for Output {
    type V = OutputView;

    open spec fn view(&self) -> OutputView {
        OutputView {
            index: self.index,
            field: self.field@,
            name: self.name@,
            scale_bits: self.scale_bits,
        }
    }
}

/// What a list of outputs says.
pub open spec fn outputs_view(outputs: Seq<Output>) -> Seq<OutputView> {
    Seq::new(outputs.len(), |i: int| outputs[i]@)
}

/// The bits of the double 1.
pub const ONE_BITS: u64 = 0x3ff0_0000_0000_0000;

/// The bits of the double -0.
pub const NEGATIVE_ZERO_BITS: u64 = 0x8000_0000_0000_0000;

/// The divisor that stands for a configured one: 1 for either zero, else itself.
pub open spec fn effective_bits(bits: u64) -> u64 {
    if bits == 0 || bits == NEGATIVE_ZERO_BITS {
        ONE_BITS
    } else {
        bits
    }
}

/// The divisor that stands for a configured one, both by their bits.
pub fn effective_divisor(bits: u64) -> (r: u64)
    ensures
        r == effective_bits(bits),
{
    if bits == 0 || bits == NEGATIVE_ZERO_BITS {
        ONE_BITS
    } else {
        bits
    }
}

impl Output {
    /// The output at an index, with nothing else set.
    pub fn at(index: usize) -> (r: Output)
        ensures
            r@ == (OutputView { index, field: seq![], name: seq![], scale_bits: 0 }),
    {
        Output { index, field: String::new(), name: String::new(), scale_bits: 0 }
    }

    /// A second copy of the output.
    pub fn duplicate(&self) -> (r: Output)
        ensures
            r@ == self@,
    {
        Output {
            index: self.index,
            field: self.field.clone(),
            name: self.name.clone(),
            scale_bits: self.scale_bits,
        }
    }

    /// The bits of the divisor, 1 if it is not set.
    pub fn effective_scale(&self) -> (r: u64)
        ensures
            r == effective_bits(self.scale_bits),
    {
        effective_divisor(self.scale_bits)
    }
}

/// A text, or another in its place where it is empty.
pub open spec fn text_or(s: Seq<char>, default: Seq<char>) -> Seq<char> {
    if s.len() == 0 {
        default
    } else {
        s
    }
}

/// A span of time, or a number of seconds in its place where it is zero.
pub open spec fn span_or(d: Duration, default: u64) -> Duration {
    if d == (Duration { secs: 0, nanos: 0 }) {
        Duration { secs: default, nanos: 0 }
    } else {
        d
    }
}

/// Whether `after` is `before` with its defaults filled in.
pub open spec fn has_defaults_of(before: Config, after: Config) -> bool {
    &&& after.chain.rpc_url == before.chain.rpc_url
    &&& after.chain.chain_id == before.chain.chain_id
    &&& after.chain.multicall3_address@ == text_or(
        before.chain.multicall3_address@,
        DEFAULT_MULTICALL3_ADDRESS@,
    )
    &&& after.chain.block_tag@ == text_or(before.chain.block_tag@, DEFAULT_BLOCK_TAG@)
    &&& after.chain.request_timeout == span_or(
        before.chain.request_timeout,
        DEFAULT_REQUEST_TIMEOUT,
    )
    &&& after.scrape.interval == span_or(before.scrape.interval, DEFAULT_SCRAPE_INTERVAL)
    &&& after.scrape.timeout == span_or(before.scrape.timeout, DEFAULT_SCRAPE_TIMEOUT)
    &&& after.scrape.max_calls_per_batch == (if before.scrape.max_calls_per_batch == 0 {
        DEFAULT_MAX_CALLS_PER_BATCH
    } else {
        before.scrape.max_calls_per_batch
    })
    &&& after.server.listen_address@ == text_or(
        before.server.listen_address@,
        DEFAULT_LISTEN_ADDRESS@,
    )
    &&& after.server.metrics_path@ == text_or(before.server.metrics_path@, DEFAULT_METRICS_PATH@)
    &&& after.server.health_path@ == text_or(before.server.health_path@, DEFAULT_HEALTH_PATH@)
    &&& after.labels == before.labels
    &&& after.contracts == before.contracts
}

impl Config {
    /// Fills in the default of everything that is not set.
    pub fn apply_defaults(&mut self)
        ensures
            has_defaults_of(*old(self), *final(self)),
    {
        if self.chain.multicall3_address.as_str().is_empty() {
            self.chain.multicall3_address = DEFAULT_MULTICALL3_ADDRESS.to_string();
        }
        if self.chain.block_tag.as_str().is_empty() {
            self.chain.block_tag = DEFAULT_BLOCK_TAG.to_string();
        }
        if self.chain.request_timeout.is_zero() {
            self.chain.request_timeout = Duration::from_secs(DEFAULT_REQUEST_TIMEOUT);
        }
        if self.scrape.interval.is_zero() {
            self.scrape.interval = Duration::from_secs(DEFAULT_SCRAPE_INTERVAL);
        }
        if self.scrape.timeout.is_zero() {
            self.scrape.timeout = Duration::from_secs(DEFAULT_SCRAPE_TIMEOUT);
        }
        if self.scrape.max_calls_per_batch == 0 {
            self.scrape.max_calls_per_batch = DEFAULT_MAX_CALLS_PER_BATCH;
        }
        if self.server.listen_address.as_str().is_empty() {
            self.server.listen_address = DEFAULT_LISTEN_ADDRESS.to_string();
        }
        if self.server.metrics_path.as_str().is_empty() {
            self.server.metrics_path = DEFAULT_METRICS_PATH.to_string();
        }
        if self.server.health_path.as_str().is_empty() {
            self.server.health_path = DEFAULT_HEALTH_PATH.to_string();
        }
    }
}

/// Once the defaults are filled in nothing that has one is empty or zero, and filling them in
/// again changes nothing.
pub proof fn defaults_settle(before: Config, after: Config, again: Config)
    requires
        has_defaults_of(before, after),
        has_defaults_of(after, again),
    ensures
        after.chain.multicall3_address@.len() > 0,
        after.chain.block_tag@.len() > 0,
        after.chain.request_timeout != (Duration { secs: 0, nanos: 0 }),
        after.scrape.interval != (Duration { secs: 0, nanos: 0 }),
        after.scrape.timeout != (Duration { secs: 0, nanos: 0 }),
        after.scrape.max_calls_per_batch > 0,
        after.server.listen_address@.len() > 0,
        after.server.metrics_path@.len() > 0,
        after.server.health_path@.len() > 0,
        again.chain.rpc_url == after.chain.rpc_url,
        again.chain.chain_id == after.chain.chain_id,
        again.chain.multicall3_address@ == after.chain.multicall3_address@,
        again.chain.block_tag@ == after.chain.block_tag@,
        again.chain.request_timeout == after.chain.request_timeout,
        again.scrape == after.scrape,
        again.server.listen_address@ == after.server.listen_address@,
        again.server.metrics_path@ == after.server.metrics_path@,
        again.server.health_path@ == after.server.health_path@,
        again.labels == after.labels,
        again.contracts == after.contracts,
{
    reveal_strlit("0xcA11bde05977b3631167028862bE2a173976CA11");
    reveal_strlit("finalized");
    reveal_strlit("0.0.0.0:9100");
    reveal_strlit("/metrics");
    reveal_strlit("/healthz");
}

impl Contract {
    /// The prefix of the names of the contract's metrics: the configured one, else its name.
    pub fn effective_metric_prefix(&self) -> (r: &str)
        ensures
            r@ == text_or(self.metric_prefix@, self.name@),
    {
        if self.metric_prefix.as_str().is_empty() {
            self.name.as_str()
        } else {
            self.metric_prefix.as_str()
        }
    }
}

/// Filling in the defaults keeps everything that is set.
pub proof fn set_fields_are_kept(before: Config, after: Config)
    requires
        has_defaults_of(before, after),
    ensures
        after.chain.rpc_url@ == before.chain.rpc_url@,
        after.chain.chain_id == before.chain.chain_id,
        before.chain.multicall3_address@.len() > 0 ==> after.chain.multicall3_address@
            == before.chain.multicall3_address@,
        before.chain.block_tag@.len() > 0 ==> after.chain.block_tag@ == before.chain.block_tag@,
        before.chain.request_timeout.secs > 0 || before.chain.request_timeout.nanos > 0
            ==> after.chain.request_timeout == before.chain.request_timeout,
        before.scrape.interval.secs > 0 || before.scrape.interval.nanos > 0
            ==> after.scrape.interval == before.scrape.interval,
        before.scrape.timeout.secs > 0 || before.scrape.timeout.nanos > 0 ==> after.scrape.timeout
            == before.scrape.timeout,
        before.scrape.max_calls_per_batch > 0 ==> after.scrape.max_calls_per_batch
            == before.scrape.max_calls_per_batch,
        before.server.listen_address@.len() > 0 ==> after.server.listen_address@
            == before.server.listen_address@,
        before.server.metrics_path@.len() > 0 ==> after.server.metrics_path@
            == before.server.metrics_path@,
        before.server.health_path@.len() > 0 ==> after.server.health_path@
            == before.server.health_path@,
        after.labels == before.labels,
        after.contracts == before.contracts,
{
}

/// What is not set gets the documented default.
pub proof fn unset_fields_get_their_defaults(before: Config, after: Config)
    requires
        has_defaults_of(before, after),
    ensures
        before.chain.multicall3_address@.len() == 0 ==> after.chain.multicall3_address@
            == "0xcA11bde05977b3631167028862bE2a173976CA11"@,
        before.chain.block_tag@.len() == 0 ==> after.chain.block_tag@ == "finalized"@,
        before.chain.request_timeout == (Duration { secs: 0, nanos: 0 })
            ==> after.chain.request_timeout == (Duration { secs: 10, nanos: 0 }),
        before.scrape.interval == (Duration { secs: 0, nanos: 0 }) ==> after.scrape.interval == (
        Duration { secs: 30, nanos: 0 }),
        before.scrape.timeout == (Duration { secs: 0, nanos: 0 }) ==> after.scrape.timeout == (
        Duration { secs: 25, nanos: 0 }),
        before.scrape.max_calls_per_batch == 0 ==> after.scrape.max_calls_per_batch == 500,
        before.server.listen_address@.len() == 0 ==> after.server.listen_address@
            == "0.0.0.0:9100"@,
        before.server.metrics_path@.len() == 0 ==> after.server.metrics_path@ == "/metrics"@,
        before.server.health_path@.len() == 0 ==> after.server.health_path@ == "/healthz"@,
{
}

/// A divisor that is set stays; the two zeros, which have no bits or the sign bit alone, become
/// one.
pub proof fn divisors_are_never_zero(bits: u64)
    ensures
        bits != 0 && bits != 0x8000_0000_0000_0000 ==> effective_bits(bits) == bits,
        bits == 0 || bits == 0x8000_0000_0000_0000 ==> effective_bits(bits)
            == 0x3ff0_0000_0000_0000,
{
}

/// A text that is not empty is never replaced; an empty one always is.
pub proof fn only_empty_texts_are_replaced(s: Seq<char>, default: Seq<char>)
    ensures
        s.len() > 0 ==> text_or(s, default) == s,
        s.len() == 0 ==> text_or(s, default) == default,
{
}

/// An output says its index, field, name and divisor, and a list of outputs says each in its
/// place.
pub proof fn outputs_say_what_they_hold(outputs: Seq<Output>, i: int)
    requires
        0 <= i < outputs.len(),
    ensures
        outputs_view(outputs).len() == outputs.len(),
        outputs_view(outputs)[i].index == outputs[i].index,
        outputs_view(outputs)[i].field == outputs[i].field@,
        outputs_view(outputs)[i].name == outputs[i].name@,
        outputs_view(outputs)[i].scale_bits == outputs[i].scale_bits,
{
}

} // verus!
