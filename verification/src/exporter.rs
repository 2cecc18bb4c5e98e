//! The exporter's start and its scrapes: what follows from the replies of the chain.

use crate::config::Config;
use crate::decoder;
use crate::decoder::{DecodeErrorOf, ReadingOf};
use crate::metrics;
use crate::metrics::{MetricDef, MetricKind, SelfMetricError, SelfMetrics};
use crate::multicall::CallResult;
use crate::outcome;
use crate::planner;
use crate::planner::error;
use crate::planner::error::PlanError;
use crate::planner::model;
use crate::planner::{Entry, GaugeSpec, Plan};
use crate::server;
use crate::server::Server;
use crate::text;
use crate::words;
use alloy_eips::BlockNumberOrTag;
use vstd::prelude::*;

verus! {

/// What the program was built from.
#[derive(Debug, Default)]
pub struct Build {
    pub version: String,
    pub commit: String,
    pub rust_version: String,
}

/// A block to read from, as the chain names it.
#[derive(Debug, Clone, Copy, PartialEq, Eq, Structural)]
pub enum BlockTag {
    Latest,
    Finalized,
    Safe,
}

/// The block that a tag of the configuration stands for.
pub open spec fn block_tag(tag: Seq<char>) -> Option<BlockTag> {
    if tag.len() == 0 || tag == "latest"@ {
        Some(BlockTag::Latest)
    } else if tag == "finalized"@ {
        Some(BlockTag::Finalized)
    } else if tag == "safe"@ {
        Some(BlockTag::Safe)
    } else {
        None
    }
}

/// A block tag that the exporter does not know.
#[derive(Debug)]
pub struct UnsupportedTag(pub String);

impl UnsupportedTag {
    /// The error as a text for people.
    pub fn message(&self) -> (r: String)
        ensures
            r@ == "unsupported block_tag "@ + text::debug_form(self.0@),
    {
        let mut s = "unsupported block_tag ".to_string();
        s.append(text::quoted(self.0.as_str()).as_str());
        s
    }
}

/// Reads a block tag of the configuration: `latest`, which is meant where none is set,
/// `finalized` or `safe`.
pub fn parse_block_tag(tag: &str) -> (r: Result<BlockTag, UnsupportedTag>)
    ensures
        match r {
            Ok(t) => block_tag(tag@) == Some(t),
            Err(e) => block_tag(tag@) is None && e.0@ == tag@,
        },
{
    if tag.is_empty() || text::same(tag, "latest") {
        Ok(BlockTag::Latest)
    } else if text::same(tag, "finalized") {
        Ok(BlockTag::Finalized)
    } else if text::same(tag, "safe") {
        Ok(BlockTag::Safe)
    } else {
        Err(UnsupportedTag(tag.to_string()))
    }
}

/// The name of a block.
pub open spec fn tag_name(tag: BlockTag) -> Seq<char> {
    match tag {
        BlockTag::Latest => "latest"@,
        BlockTag::Finalized => "finalized"@,
        BlockTag::Safe => "safe"@,
    }
}

/// `<alloy_eips::BlockNumberOrTag as Debug>::fmt` of the block of the same name: its name in lower
/// case.
#[verifier::external_body]
fn show_tag(tag: &BlockTag) -> (r: String)
    ensures
        r@ == tag_name(*tag),
{
    let tag = match tag {
        BlockTag::Latest => BlockNumberOrTag::Latest,
        BlockTag::Finalized => BlockNumberOrTag::Finalized,
        BlockTag::Safe => BlockNumberOrTag::Safe,
    };
    format!("{tag:?}")
}

/// What is said where the chain gives no block for a tag of the configuration. A tag that is not
/// known is no block that it could have.
pub open spec fn no_block(tag: Seq<char>) -> Seq<char> {
    match block_tag(tag) {
        Some(t) => "probe block_tag="@ + tag_name(t) + ": rpc returned no block"@,
        None => "unsupported block_tag "@ + text::debug_form(tag),
    }
}

/// Says that the chain gives no block for a tag of the configuration.
fn say_no_block(tag: &str) -> (r: String)
    ensures
        r@ == no_block(tag@),
{
    match parse_block_tag(tag) {
        Ok(t) => {
            let mut s = "probe block_tag=".to_string();
            s.append(show_tag(&t).as_str());
            s.append(": rpc returned no block");
            s
        },
        Err(e) => e.message(),
    }
}

/// Why the exporter does not start. `S` is the type of texts.
#[derive(Debug)]
pub enum ProbeErrorOf<S> {
    /// The chain id cannot be read.
    ChainId { reason: S },
    /// The chain is not the configured one.
    ChainMismatch { configured: u64, got: u64 },
    /// The block cannot be read.
    Block { tag: S, reason: S },
}

/// Why the exporter does not start.
pub type ProbeError = ProbeErrorOf<String>;

impl View for ProbeError {
    type V = ProbeErrorOf<Seq<char>>;

    open spec fn view(&self) -> ProbeErrorOf<Seq<char>> {
        match *self {
            ProbeErrorOf::ChainId { reason } => ProbeErrorOf::ChainId { reason: reason@ },
            ProbeErrorOf::ChainMismatch { configured, got } => ProbeErrorOf::ChainMismatch {
                configured,
                got,
            },
            ProbeErrorOf::Block { tag, reason } => ProbeErrorOf::Block {
                tag: tag@,
                reason: reason@,
            },
        }
    }
}

/// The message of a [`ProbeError`].
pub open spec fn probe_message(e: ProbeErrorOf<Seq<char>>) -> Seq<char> {
    match e {
        ProbeErrorOf::ChainId { reason } => "eth_chainId probe: "@ + reason,
        ProbeErrorOf::ChainMismatch { configured, got } => "chain_id mismatch: config="@
            + text::decimal(configured as nat) + ", rpc="@ + text::decimal(got as nat),
        ProbeErrorOf::Block { tag, reason } => "probe block_tag="@ + text::debug_form(tag) + ": "@
            + reason,
    }
}

impl ProbeErrorOf<String> {
    /// The error as a text for people.
    pub fn message(&self) -> (r: String)
        ensures
            r@ == probe_message(self@),
    {
        match self {
            ProbeErrorOf::ChainId { reason } => {
                let mut s = "eth_chainId probe: ".to_string();
                s.append(reason);
                s
            },
            ProbeErrorOf::ChainMismatch { configured, got } => {
                let mut s = "chain_id mismatch: config=".to_string();
                s.append(text::decimal_text(*configured).as_str());
                s.append(", rpc=");
                s.append(text::decimal_text(*got).as_str());
                s
            },
            ProbeErrorOf::Block { tag, reason } => {
                let mut s = "probe block_tag=".to_string();
                s.append(text::quoted(tag).as_str());
                s.append(": ");
                s.append(reason);
                s
            },
        }
    }
}

/// Takes up the reply to the question for the chain id: it must be the configured one.
pub fn accept_chain_id(cfg: &Config, reply: Result<u64, String>) -> (r: Result<(), ProbeError>)
    ensures
        match r {
            Ok(()) => reply == Ok::<u64, String>(cfg.chain.chain_id),
            Err(e) => match reply {
                Err(reason) => e@ == (ProbeErrorOf::ChainId { reason: reason@ }),
                Ok(got) => got != cfg.chain.chain_id && e@ == (ProbeErrorOf::ChainMismatch::<
                    Seq<char>,
                > { configured: cfg.chain.chain_id, got }),
            },
        },
{
    match reply {
        Err(reason) => Err(ProbeErrorOf::ChainId { reason }),
        Ok(got) => if got != cfg.chain.chain_id {
            Err(ProbeErrorOf::ChainMismatch { configured: cfg.chain.chain_id, got })
        } else {
            Ok(())
        },
    }
}

/// Takes up the reply to the question for the number of the configured block: the chain must have
/// one.
pub fn accept_block(cfg: &Config, reply: Result<Option<u64>, String>) -> (r: Result<
    u64,
    ProbeError,
>)
    ensures
        match reply {
            Ok(Some(n)) => r == Ok::<u64, ProbeError>(n),
            Ok(None) => r matches Err(e) && e@ == (ProbeErrorOf::Block {
                tag: cfg.chain.block_tag@,
                reason: no_block(cfg.chain.block_tag@),
            }),
            Err(reason) => r matches Err(e) && e@ == (ProbeErrorOf::Block {
                tag: cfg.chain.block_tag@,
                reason: reason@,
            }),
        },
{
    match reply {
        Ok(Some(n)) => Ok(n),
        Ok(None) => Err(
            ProbeErrorOf::Block {
                tag: cfg.chain.block_tag.clone(),
                reason: say_no_block(cfg.chain.block_tag.as_str()),
            },
        ),
        Err(reason) => Err(ProbeErrorOf::Block { tag: cfg.chain.block_tag.clone(), reason }),
    }
}

/// Why a scrape fails as a whole. `S` is the type of texts.
#[derive(Debug)]
pub enum ScrapeErrorOf<S> {
    /// The question for the number of the block fails.
    RpcError { reason: S },
    /// The chain does not have the block.
    BlockNotAvailable { reason: S },
    /// A request fails.
    ChunkFailed { reason: S },
    /// There are more or fewer results than calls.
    ResultCount { got: usize, expected: usize },
    /// The scrape takes too long.
    Timeout,
}

/// Why a scrape fails as a whole.
pub type ScrapeError = ScrapeErrorOf<String>;

impl View for ScrapeError {
    type V = ScrapeErrorOf<Seq<char>>;

    open spec fn view(&self) -> ScrapeErrorOf<Seq<char>> {
        match *self {
            ScrapeErrorOf::RpcError { reason } => ScrapeErrorOf::RpcError { reason: reason@ },
            ScrapeErrorOf::BlockNotAvailable { reason } => ScrapeErrorOf::BlockNotAvailable {
                reason: reason@,
            },
            ScrapeErrorOf::ChunkFailed { reason } => ScrapeErrorOf::ChunkFailed {
                reason: reason@,
            },
            ScrapeErrorOf::ResultCount { got, expected } => ScrapeErrorOf::ResultCount {
                got,
                expected,
            },
            ScrapeErrorOf::Timeout => ScrapeErrorOf::Timeout,
        }
    }
}

/// The `reason` label under which a failed scrape is counted.
pub open spec fn scrape_reason(e: ScrapeErrorOf<Seq<char>>) -> Seq<char> {
    match e {
        ScrapeErrorOf::RpcError { .. } => "rpc_error"@,
        ScrapeErrorOf::BlockNotAvailable { .. } => "block_not_available"@,
        ScrapeErrorOf::ChunkFailed { .. } => "chunk_failed"@,
        ScrapeErrorOf::ResultCount { .. } => "chunk_failed"@,
        ScrapeErrorOf::Timeout => "timeout"@,
    }
}

/// The message of a [`ScrapeError`].
pub open spec fn scrape_message(e: ScrapeErrorOf<Seq<char>>) -> Seq<char> {
    match e {
        ScrapeErrorOf::RpcError { reason } => reason,
        ScrapeErrorOf::BlockNotAvailable { reason } => reason,
        ScrapeErrorOf::ChunkFailed { reason } => reason,
        ScrapeErrorOf::ResultCount { got, expected } => "multicall returned "@ + text::decimal(
            got as nat,
        ) + " results, expected "@ + text::decimal(expected as nat),
        ScrapeErrorOf::Timeout => "scrape timed out"@,
    }
}

impl ScrapeErrorOf<String> {
    /// The `reason` label under which the failure is counted.
    pub fn reason(&self) -> (r: String)
        ensures
            r@ == scrape_reason(self@),
    {
        match self {
            ScrapeErrorOf::RpcError { .. } => "rpc_error".to_string(),
            ScrapeErrorOf::BlockNotAvailable { .. } => "block_not_available".to_string(),
            ScrapeErrorOf::ChunkFailed { .. } => "chunk_failed".to_string(),
            ScrapeErrorOf::ResultCount { .. } => "chunk_failed".to_string(),
            ScrapeErrorOf::Timeout => "timeout".to_string(),
        }
    }

    /// The error as a text for people.
    pub fn message(&self) -> (r: String)
        ensures
            r@ == scrape_message(self@),
    {
        match self {
            ScrapeErrorOf::RpcError { reason } => reason.clone(),
            ScrapeErrorOf::BlockNotAvailable { reason } => reason.clone(),
            ScrapeErrorOf::ChunkFailed { reason } => reason.clone(),
            ScrapeErrorOf::ResultCount { got, expected } => {
                let mut s = "multicall returned ".to_string();
                s.append(text::count_text(*got).as_str());
                s.append(" results, expected ");
                s.append(text::count_text(*expected).as_str());
                s
            },
            ScrapeErrorOf::Timeout => "scrape timed out".to_string(),
        }
    }
}

/// What a scrape gives for one series. `S` is the type of texts.
#[derive(Debug)]
pub enum OutcomeOf<S> {
    /// The call was reverted.
    Reverted,
    /// The return data gives no value.
    Undecodable(DecodeErrorOf<S>),
    /// The series has a value.
    Sample(ReadingOf<S>),
}

/// What a scrape gives for one series.
pub type Outcome = OutcomeOf<String>;

impl View for Outcome {
    type V = OutcomeOf<Seq<char>>;

    open spec fn view(&self) -> OutcomeOf<Seq<char>> {
        match *self {
            OutcomeOf::Reverted => OutcomeOf::Reverted,
            OutcomeOf::Undecodable(e) => OutcomeOf::Undecodable(e@),
            OutcomeOf::Sample(reading) => OutcomeOf::Sample(reading@),
        }
    }
}

/// What a series gets from the result of its call.
pub open spec fn outcome_of(target: decoder::DecodeTargetView, result: CallResult) -> OutcomeOf<
    Seq<char>,
> {
    if !result.success {
        OutcomeOf::Reverted
    } else {
        match decoder::data_reading(result.return_data@, target) {
            Ok(reading) => OutcomeOf::Sample(reading),
            Err(e) => OutcomeOf::Undecodable(e),
        }
    }
}

/// What each series gets from the results of all calls.
pub open spec fn outcomes_of(entries: Seq<Entry>, results: Seq<CallResult>) -> Seq<
    OutcomeOf<Seq<char>>,
> {
    Seq::new(
        entries.len(),
        |i: int| outcome_of(entries[i].decode@, results[entries[i].call_index as int]),
    )
}

/// What a list of outcomes says.
pub open spec fn outcomes_view(outcomes: Seq<Outcome>) -> Seq<OutcomeOf<Seq<char>>> {
    Seq::new(outcomes.len(), |i: int| outcomes[i]@)
}

/// How many outcomes are errors.
pub open spec fn error_count(outcomes: Seq<OutcomeOf<Seq<char>>>) -> nat
    decreases outcomes.len(),
{
    if outcomes.len() == 0 {
        0
    } else {
        error_count(outcomes.drop_last()) + (if outcomes.last() is Sample {
            0nat
        } else {
            1nat
        })
    }
}

/// What a scrape has read: per series of the plan its outcome, how many of them are errors, the
/// block, the number of calls and the number of requests.
#[derive(Debug)]
pub struct Report {
    pub block_number: u64,
    pub outcomes: Vec<Outcome>,
    pub error_count: usize,
    pub calls_total: usize,
    pub chunks_total: usize,
}

/// Takes up the reply to the question for the number of the configured block at the beginning of a
/// scrape.
pub fn begin_scrape(cfg: &Config, reply: Result<Option<u64>, String>) -> (r: Result<
    u64,
    ScrapeError,
>)
    ensures
        match reply {
            Ok(Some(n)) => r == Ok::<u64, ScrapeError>(n),
            Ok(None) => r matches Err(e) && e@ == (ScrapeErrorOf::BlockNotAvailable {
                reason: no_block(cfg.chain.block_tag@),
            }),
            Err(reason) => r matches Err(e) && e@ == (ScrapeErrorOf::RpcError { reason: reason@ }),
        },
{
    match reply {
        Ok(Some(n)) => Ok(n),
        Ok(None) => Err(
            ScrapeErrorOf::BlockNotAvailable {
                reason: say_no_block(cfg.chain.block_tag.as_str()),
            },
        ),
        Err(reason) => Err(ScrapeErrorOf::RpcError { reason }),
    }
}

/// Reads one series from the result of its call.
pub fn read_series(entry: &Entry, result: &CallResult) -> (r: Outcome)
    ensures
        r@ == outcome_of(entry.decode@, *result),
{
    if !result.success {
        return OutcomeOf::Reverted;
    }
    match decoder::decode(result.return_data.as_slice(), &entry.decode) {
        Ok(reading) => OutcomeOf::Sample(reading),
        Err(e) => OutcomeOf::Undecodable(e),
    }
}

/// Whether every series of a plan refers to one of its calls.
pub open spec fn calls_exist(plan: Plan) -> bool {
    forall|i: int|
        0 <= i < plan.entries@.len() ==> (#[trigger] plan.entries@[i]).call_index
            < plan.calls@.len()
}

/// A plan that the planner made has a call for every series.
pub proof fn whole_plans_have_their_calls(plan: Plan)
    requires
        model::is_whole(plan@),
    ensures
        calls_exist(plan),
{
    assert forall|i: int| 0 <= i < plan.entries@.len() implies (
    #[trigger] plan.entries@[i]).call_index < plan.calls@.len() by {
        assert(plan@.entries[i] == plan.entries@[i]@);
    }
}

/// Whether `r` is what a scrape gives for a reply to the calls of a plan: refused as a whole if
/// the calls failed or their results are not as many as the calls, else an outcome for every
/// series, the number of errors among them, and the numbers of the scrape.
pub open spec fn is_scrape_of(
    plan: Plan,
    block_number: u64,
    reply: Result<Vec<CallResult>, String>,
    r: Result<Report, ScrapeError>,
) -> bool {
    match reply {
        Err(reason) => r matches Err(e) && e@ == (ScrapeErrorOf::ChunkFailed {
            reason: reason@,
        }),
        Ok(results) => if results@.len() != plan.calls@.len() {
            r matches Err(e) && e@ == (ScrapeErrorOf::ResultCount::<Seq<char>> {
                got: results@.len() as usize,
                expected: plan.calls@.len() as usize,
            })
        } else {
            r matches Ok(report) && {
                &&& report.block_number == block_number
                &&& outcomes_view(report.outcomes@) == outcomes_of(plan.entries@, results@)
                &&& report.error_count == error_count(outcomes_of(plan.entries@, results@))
                &&& report.calls_total == plan.calls@.len()
                &&& report.chunks_total == plan.chunk_count
            }
        },
    }
}

/// Takes up the reply to the calls of a scrape: reads every series of the plan.
pub fn finish_scrape(plan: &Plan, block_number: u64, reply: Result<Vec<CallResult>, String>) -> (r:
    Result<Report, ScrapeError>)
    requires
        calls_exist(*plan),
    ensures
        is_scrape_of(*plan, block_number, reply, r),
{
    let results = match reply {
        Err(reason) => {
            return Err(ScrapeErrorOf::ChunkFailed { reason });
        },
        Ok(results) => results,
    };
    if results.len() != plan.calls.len() {
        return Err(
            ScrapeErrorOf::ResultCount { got: results.len(), expected: plan.calls.len() },
        );
    }
    let ghost want = outcomes_of(plan.entries@, results@);
    let mut outcomes: Vec<Outcome> = Vec::new();
    let mut errors: usize = 0;
    assert(outcomes_view(outcomes@) =~= want.take(0));
    for i in 0..plan.entries.len()
        invariant
            calls_exist(*plan),
            results@.len() == plan.calls@.len(),
            want == outcomes_of(plan.entries@, results@),
            outcomes_view(outcomes@) == want.take(i as int),
            errors == error_count(want.take(i as int)),
            errors <= i,
    {
        let entry = &plan.entries[i];
        let one = read_series(entry, &results[entry.call_index]);
        let ghost before = outcomes@;
        let failed = match &one {
            OutcomeOf::Sample(_) => false,
            _ => true,
        };
        proof {
            assert(want.take(i + 1).drop_last() =~= want.take(i as int));
            assert(want.take(i + 1).last() == one@);
        }
        if failed {
            errors = errors + 1;
        }
        outcomes.push(one);
        assert(outcomes_view(outcomes@) =~= want.take(i + 1)) by {
            assert(outcomes_view(outcomes@) =~= outcomes_view(before).push(one@));
        }
    }
    assert(want.take(plan.entries@.len() as int) =~= want);
    Ok(
        Report {
            block_number,
            outcomes,
            error_count: errors,
            calls_total: plan.calls.len(),
            chunks_total: plan.chunk_count,
        },
    )
}

/// A scrape that is not refused as a whole gives every series an outcome, whatever becomes of the
/// others: the errors and the samples are as many as the series.
pub proof fn errors_are_counted_once(outcomes: Seq<OutcomeOf<Seq<char>>>)
    ensures
        error_count(outcomes) + outcomes.filter(|o: OutcomeOf<Seq<char>>| o is Sample).len()
            == outcomes.len(),
    decreases outcomes.len(),
{
    let p = |o: OutcomeOf<Seq<char>>| o is Sample;
    reveal(Seq::filter);
    if outcomes.len() > 0 {
        errors_are_counted_once(outcomes.drop_last());
    }
}

/// Whether the value of a series is to be set after a scrape.
pub open spec fn is_set(r: Result<Report, ScrapeError>, i: int) -> bool {
    r matches Ok(report) && 0 <= i < report.outcomes@.len() && report.outcomes@[i] is Sample
}

/// The series whose values are to be set after a scrape, in order: those with a sample. All others
/// keep the value they had, and all do after a scrape that failed as a whole.
pub fn series_to_set(r: &Result<Report, ScrapeError>) -> (set: Vec<usize>)
    ensures
        forall|k: int| 0 <= k < set@.len() ==> is_set(*r, #[trigger] set@[k] as int),
        forall|i: usize| is_set(*r, i as int) ==> #[trigger] set@.contains(i),
        forall|k: int, l: int| 0 <= k < l < set@.len() ==> #[trigger] set@[k] < #[trigger] set@[l],
{
    let mut set: Vec<usize> = Vec::new();
    if let Ok(report) = r {
        for i in 0..report.outcomes.len()
            invariant
                *r == Ok::<Report, ScrapeError>(*report),
                forall|k: int|
                    0 <= k < set@.len() ==> #[trigger] set@[k] < i && is_set(*r, set@[k] as int),
                forall|j: usize| j < i && is_set(*r, j as int) ==> #[trigger] set@.contains(j),
                forall|k: int, l: int|
                    0 <= k < l < set@.len() ==> #[trigger] set@[k] < #[trigger] set@[l],
        {
            let ghost before = set@;
            if let OutcomeOf::Sample(_) = &report.outcomes[i] {
                set.push(i);
                proof {
                    assert(set@[before.len() as int] == i);
                    assert forall|j: usize| j < i + 1 && is_set(*r, j as int) implies #[trigger]
                        set@.contains(j) by {
                        if j < i {
                            assert(before.contains(j));
                            assert(set@[before.index_of(j)] == j);
                        }
                    }
                }
            }
        }
    }
    set
}

/// What a series gets depends on the result of its own call alone.
pub proof fn other_results_do_not_matter(
    entries: Seq<Entry>,
    results: Seq<CallResult>,
    others: Seq<CallResult>,
    i: int,
)
    requires
        0 <= i < entries.len(),
        results[entries[i].call_index as int] == others[entries[i].call_index as int],
    ensures
        outcomes_of(entries, results)[i] == outcomes_of(entries, others)[i],
{
}

/// Why an exporter cannot be set up.
#[derive(Debug)]
pub enum SetupError {
    /// The configuration gives no plan.
    Plan(PlanError),
    /// The exporter's own metrics cannot be described.
    Metrics(SelfMetricError),
}

/// The metrics of a list of gauges.
pub open spec fn gauge_definitions(gauges: Seq<model::GaugeView>) -> Seq<metrics::MetricDefView> {
    Seq::new(
        gauges.len(),
        |i: int|
            metrics::MetricDefView {
                kind: MetricKind::GaugeVec,
                name: gauges[i].name,
                help: gauges[i].help,
                labels: gauges[i].label_keys,
            },
    )
}

/// The metrics of a list of gauges.
fn list_definitions(gauges: &Vec<GaugeSpec>) -> (r: Vec<MetricDef>)
    ensures
        metrics::definitions_view(r@) == gauge_definitions(planner::gauges_view(gauges@)),
{
    let mut out: Vec<MetricDef> = Vec::new();
    for i in 0..gauges.len()
        invariant
            out@.len() == i,
            forall|j: int|
                0 <= j < i ==> (#[trigger] out@[j])@ == gauge_definitions(
                    planner::gauges_view(gauges@),
                )[j],
    {
        let g = &gauges[i];
        let labels = text::copy_texts(&g.label_keys);
        out.push(
            MetricDef {
                kind: MetricKind::GaugeVec,
                name: g.name.clone(),
                help: g.help.clone(),
                labels,
            },
        );
    }
    assert(metrics::definitions_view(out@) =~= gauge_definitions(planner::gauges_view(gauges@)));
    out
}

/// Every gauge of a plan can be described to Prometheus.
pub proof fn planned_gauges_are_describable(cfg: Config)
    ensures
        model::planned(cfg) matches Ok(plan) ==> metrics::are_describable(
            gauge_definitions(plan.gauges),
        ),
{
    let gauges = model::gauges_of(model::drafts(model::config_steps(cfg)));
    let at = |i: int| model::gauge_fault(gauges[i]);
    outcome::lemma_no_failure(gauges.len(), at);
    if let Ok(plan) = model::planned(cfg) {
        assert forall|i: int| 0 <= i < plan.gauges.len() implies metrics::is_describable(
            (#[trigger] gauge_definitions(plan.gauges)[i]).name,
            gauge_definitions(plan.gauges)[i].help,
            gauge_definitions(plan.gauges)[i].labels,
            Set::empty(),
        ) by {
            assert(at(i) is None);
        }
    }
}

impl SetupError {
    /// The error as a text for people.
    pub fn message(&self) -> (r: String)
        ensures
            r@ == (match *self {
                SetupError::Plan(e) => "planner.build: "@ + error::plan_message(e@),
                SetupError::Metrics(e) => "self metrics: "@ + metrics::self_metric_message(e),
            }),
    {
        match self {
            SetupError::Plan(e) => {
                let mut s = "planner.build: ".to_string();
                s.append(e.message().as_str());
                s
            },
            SetupError::Metrics(e) => {
                let mut s = "self metrics: ".to_string();
                s.append(e.message().as_str());
                s
            },
        }
    }
}

/// The exporter of a configuration: its plan, its own metrics and its server.
#[derive(Debug)]
pub struct Exporter {
    cfg: Config,
    plan: Plan,
    self_metrics: SelfMetrics,
    server: Server,
}

impl Exporter {
    #[verifier::type_invariant]
    spec fn well_formed(self) -> bool {
        calls_exist(self.plan)
    }

    /// The configuration.
    pub closed spec fn config(self) -> Config {
        self.cfg
    }

    /// The plan.
    pub closed spec fn planned(self) -> Plan {
        self.plan
    }

    /// The exporter's own metrics.
    pub closed spec fn own_metrics(self) -> SelfMetrics {
        self.self_metrics
    }

    /// The server.
    pub closed spec fn web_server(self) -> Server {
        self.server
    }

    /// Sets up the exporter of a validated configuration, once the chain's replies to the probes
    /// have been accepted.
    pub fn new(cfg: Config) -> (r: Result<Exporter, SetupError>)
        ensures
            match model::planned(cfg) {
                Err(e) => r matches Err(SetupError::Plan(got)) && got@ == e,
                Ok(plan) => match metrics::first_refused(cfg.labels@.dom()) {
                    Some(i) => r matches Err(SetupError::Metrics(e)) && metrics::blames_constant(
                        e,
                        metrics::definitions()[i].name,
                        cfg.labels@.dom(),
                    ),
                    None => match metrics::first_taken(
                        metrics::own_names(),
                        metrics::names_of(gauge_definitions(plan.gauges)),
                    ) {
                        Some(i) => r matches Err(SetupError::Metrics(e))
                            && metrics::blames_registered(
                            e,
                            i,
                            gauge_definitions(plan.gauges),
                            cfg.labels,
                        ),
                        None => r matches Ok(exporter) && exporter.config() == cfg
                            && exporter.planned()@ == plan && metrics::are_defined(
                            exporter.own_metrics(),
                            cfg.labels,
                        ) && server::serves(exporter.web_server(), cfg),
                    },
                },
            },
    {
        let plan = match planner::build(&cfg) {
            Err(e) => {
                return Err(SetupError::Plan(e));
            },
            Ok(plan) => plan,
        };
        let gauges = list_definitions(&plan.gauges);
        proof {
            planned_gauges_are_describable(cfg);
        }
        let self_metrics = match SelfMetrics::new(&gauges, &cfg.labels) {
            Err(e) => {
                return Err(SetupError::Metrics(e));
            },
            Ok(m) => m,
        };
        let server = Server::for_config(&cfg);
        proof {
            whole_plans_have_their_calls(plan);
        }
        Ok(Exporter { cfg, plan, self_metrics, server })
    }

    /// The configuration.
    pub fn cfg(&self) -> (r: &Config)
        ensures
            *r == self.config(),
    {
        &self.cfg
    }

    /// The plan. Each of its series refers to one of its calls.
    pub fn plan(&self) -> (r: &Plan)
        ensures
            *r == self.planned(),
            calls_exist(*r),
    {
        proof {
            use_type_invariant(self);
        }
        &self.plan
    }

    /// The exporter's own metrics.
    pub fn self_metrics(&self) -> (r: &SelfMetrics)
        ensures
            *r == self.own_metrics(),
    {
        &self.self_metrics
    }

    /// The server.
    pub fn server(&self) -> (r: &Server)
        ensures
            *r == self.web_server(),
    {
        &self.server
    }

    /// Takes up the reply to the calls of a scrape.
    pub fn scrape_once(&self, block_number: u64, reply: Result<Vec<CallResult>, String>) -> (r:
        Result<Report, ScrapeError>)
        ensures
            is_scrape_of(self.planned(), block_number, reply, r),
    {
        proof {
            use_type_invariant(self);
        }
        finish_scrape(&self.plan, block_number, reply)
    }
}

/// The labels of the counter of a series' errors.
pub open spec fn error_labels(e: Entry) -> Seq<Seq<char>> {
    seq![e.contract_name@, e.function_name@, text::hex_text(e.address@)]
}

/// The labels under which an error of a series is counted: the contract, the function and the
/// address.
pub fn call_error_labels(entry: &Entry) -> (r: Vec<String>)
    ensures
        text::texts(r@) == error_labels(*entry),
{
    let mut out: Vec<String> = Vec::new();
    out.push(entry.contract_name.clone());
    out.push(entry.function_name.clone());
    out.push(text::prefixed_hex(&entry.address));
    assert(text::texts(out@) =~= error_labels(*entry));
    out
}

/// The series whose loss of precision has been reported.
#[derive(Debug, Default)]
pub struct PrecisionLoss {
    seen: Vec<String>,
}

impl View for PrecisionLoss {
    type V = Set<Seq<char>>;

    closed spec fn view(&self) -> Set<Seq<char>> {
        text::texts(self.seen@).to_set()
    }
}

/// The key of a series in the set of those that have been reported.
pub open spec fn series_key(metric: Seq<char>, address: Seq<char>) -> Seq<char> {
    metric + ":"@ + address
}

impl PrecisionLoss {
    /// No series has been reported yet.
    pub fn new() -> (r: PrecisionLoss)
        ensures
            r@ == Set::<Seq<char>>::empty(),
    {
        let r = PrecisionLoss { seen: Vec::new() };
        assert(r@ =~= Set::<Seq<char>>::empty());
        r
    }

    /// Whether a loss of precision in a series of the metric at the address is to be reported: it
    /// is the first time.
    pub fn warn_precision_loss_once(&mut self, metric: &str, address: &str) -> (r: bool)
        ensures
            r == !old(self)@.contains(series_key(metric@, address@)),
            final(self)@ == old(self)@.insert(series_key(metric@, address@)),
    {
        let mut key = metric.to_string();
        key.append(":");
        key.append(address);
        let ghost keys = text::texts(self.seen@);
        for i in 0..self.seen.len()
            invariant
                *self == *old(self),
                keys == text::texts(self.seen@),
                key@ == series_key(metric@, address@),
                forall|j: int| 0 <= j < i ==> #[trigger] keys[j] != key@,
        {
            assert(keys[i as int] == self.seen@[i as int]@);
            if text::same(self.seen[i].as_str(), key.as_str()) {
                proof {
                    assert(keys.contains(key@));
                    assert(self@.insert(key@) =~= self@);
                }
                return false;
            }
        }
        assert(!keys.contains(key@)) by {
            if keys.contains(key@) {
                assert(keys[keys.index_of(key@)] == key@);
            }
        }
        self.seen.push(key);
        proof {
            let now = text::texts(self.seen@);
            assert(now =~= keys.push(key@));
            assert forall|k: Seq<char>| #[trigger]
                now.to_set().contains(k) <==> keys.to_set().insert(key@).contains(k) by {
                if keys.contains(k) {
                    assert(now[keys.index_of(k)] == k);
                }
                if k == key@ {
                    assert(now[keys.len() as int] == k);
                }
                if now.contains(k) {
                    let i = now.index_of(k);
                    if i < keys.len() {
                        assert(keys[i] == k);
                    }
                }
            }
            assert(self@ =~= old(self)@.insert(key@));
        }
        true
    }
}

/// A series gets an outcome from the result of its call: none but that it was reverted where the
/// call failed, else the value that the return data decodes to, or why it does not.
pub proof fn series_get_what_their_calls_return(
    entries: Seq<Entry>,
    results: Seq<CallResult>,
    i: int,
)
    requires
        0 <= i < entries.len(),
        entries[i].call_index < results.len(),
    ensures
        outcomes_of(entries, results).len() == entries.len(),
        ({
            let result = results[entries[i].call_index as int];
            let outcome = outcomes_of(entries, results)[i];
            &&& !result.success ==> outcome == OutcomeOf::<Seq<char>>::Reverted
            &&& result.success ==> match decoder::data_reading(
                result.return_data@,
                entries[i].decode@,
            ) {
                Ok(reading) => outcome == OutcomeOf::<Seq<char>>::Sample(reading),
                Err(e) => outcome == OutcomeOf::<Seq<char>>::Undecodable(e),
            }
        }),
{
}

/// A scrape fails as a whole exactly if a request failed or the results are not as many as the
/// calls. Otherwise it reports the block, an outcome for every series in the order of the plan, how
/// many of them have no value, and the plan's numbers of calls and requests.
pub proof fn scrapes_report_what_they_did(
    plan: Plan,
    block_number: u64,
    reply: Result<Vec<CallResult>, String>,
    r: Result<Report, ScrapeError>,
)
    requires
        is_scrape_of(plan, block_number, reply, r),
    ensures
        reply is Err ==> r is Err && r->Err_0@ == (ScrapeErrorOf::ChunkFailed {
            reason: reply->Err_0@,
        }),
        reply is Ok && reply->Ok_0@.len() != plan.calls@.len() ==> r is Err && r->Err_0@ == (
        ScrapeErrorOf::ResultCount::<Seq<char>> {
            got: reply->Ok_0@.len() as usize,
            expected: plan.calls@.len() as usize,
        }),
        reply is Ok && reply->Ok_0@.len() == plan.calls@.len() ==> r is Ok && ({
            let report = r->Ok_0;
            &&& report.block_number == block_number
            &&& report.outcomes@.len() == plan.entries@.len()
            &&& forall|i: int|
                0 <= i < report.outcomes@.len() ==> (#[trigger] report.outcomes@[i])@
                    == outcomes_of(plan.entries@, reply->Ok_0@)[i]
            &&& report.error_count + outcomes_view(report.outcomes@).filter(
                |o: OutcomeOf<Seq<char>>| o is Sample,
            ).len() == report.outcomes@.len()
            &&& report.calls_total == plan.calls@.len()
            &&& report.chunks_total == plan.chunk_count
        }),
{
    if reply is Ok && reply->Ok_0@.len() == plan.calls@.len() {
        let report = r->Ok_0;
        let want = outcomes_of(plan.entries@, reply->Ok_0@);
        errors_are_counted_once(want);
        assert(outcomes_view(report.outcomes@).len() == report.outcomes@.len());
        assert forall|i: int| 0 <= i < report.outcomes@.len() implies (
        #[trigger] report.outcomes@[i])@ == want[i] by {
            assert(outcomes_view(report.outcomes@)[i] == want[i]);
        }
    }
}

/// The value of a series is set after a scrape exactly if the scrape did not fail as a whole and
/// the series has a value.
pub proof fn only_samples_are_set(r: Result<Report, ScrapeError>, i: int)
    ensures
        is_set(r, i) <==> r is Ok && 0 <= i < r->Ok_0.outcomes@.len() && !(
        r->Ok_0.outcomes@[i] is Reverted) && !(r->Ok_0.outcomes@[i] is Undecodable),
        r is Err ==> !is_set(r, i),
{
}

/// Failed scrapes are counted under the documented reasons.
pub proof fn failures_have_their_reasons(reason: Seq<char>, got: usize, expected: usize)
    ensures
        scrape_reason(ScrapeErrorOf::RpcError { reason }) == "rpc_error"@,
        scrape_reason(ScrapeErrorOf::BlockNotAvailable { reason }) == "block_not_available"@,
        scrape_reason(ScrapeErrorOf::ChunkFailed { reason }) == "chunk_failed"@,
        scrape_reason(ScrapeErrorOf::ResultCount { got, expected }) == "chunk_failed"@,
        scrape_reason(ScrapeErrorOf::Timeout) == "timeout"@,
        scrape_message(ScrapeErrorOf::RpcError { reason }) == reason,
        scrape_message(ScrapeErrorOf::BlockNotAvailable { reason }) == reason,
        scrape_message(ScrapeErrorOf::ChunkFailed { reason }) == reason,
{
}

/// The blocks to read from have one name each; a tag that is not set means the latest.
pub proof fn block_tags_have_their_names(tag: Seq<char>)
    ensures
        block_tag(tag) == Some(BlockTag::Latest) <==> tag.len() == 0 || tag == "latest"@,
        block_tag(tag) == Some(BlockTag::Finalized) <==> tag == "finalized"@,
        block_tag(tag) == Some(BlockTag::Safe) <==> tag == "safe"@,
        tag.len() == 0 || tag == "latest"@ ==> no_block(tag) == "probe block_tag="@ + "latest"@
            + ": rpc returned no block"@,
        tag == "finalized"@ || tag == "safe"@ ==> no_block(tag) == "probe block_tag="@ + tag
            + ": rpc returned no block"@,
{
    reveal_strlit("latest");
    reveal_strlit("finalized");
    reveal_strlit("safe");
    assert("latest"@[0] != "finalized"@[0]);
    assert("latest"@[0] != "safe"@[0]);
    assert("finalized"@[0] != "safe"@[0]);
}

/// An error of a series is counted under its contract, its function and its address, in this
/// order.
pub proof fn errors_are_counted_where_they_happen(e: Entry)
    ensures
        error_labels(e).len() == 3,
        error_labels(e)[0] == e.contract_name@,
        error_labels(e)[1] == e.function_name@,
        words::address_bytes(error_labels(e)[2]) == Some(e.address@),
{
    words::hex_reads_back(e.address@);
}

/// Series of different metrics, or at different addresses, are told apart when a loss of precision
/// is reported.
pub proof fn losses_are_told_apart(
    metric: Seq<char>,
    address: Seq<char>,
    other_metric: Seq<char>,
    other_address: Seq<char>,
)
    requires
        address.len() == other_address.len(),
        metric != other_metric || address != other_address,
    ensures
        series_key(metric, address) != series_key(other_metric, other_address),
{
    reveal_strlit(":");
    let a = series_key(metric, address);
    let b = series_key(other_metric, other_address);
    if a == b {
        assert(a.take(metric.len() as int) =~= metric);
        assert(b.take(other_metric.len() as int) =~= other_metric);
        assert(a.skip(metric.len() as int + 1) =~= address);
        assert(b.skip(other_metric.len() as int + 1) =~= other_address);
    }
}

/// The gauges of a plan are registered under their own names, help texts and label keys.
pub proof fn gauges_are_registered_as_planned(gauges: Seq<model::GaugeView>, i: int)
    requires
        0 <= i < gauges.len(),
    ensures
        gauge_definitions(gauges).len() == gauges.len(),
        gauge_definitions(gauges)[i].name == gauges[i].name,
        gauge_definitions(gauges)[i].help == gauges[i].help,
        gauge_definitions(gauges)[i].labels == gauges[i].label_keys,
        gauge_definitions(gauges)[i].kind == MetricKind::GaugeVec,
{
}

} // verus!
