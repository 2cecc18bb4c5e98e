use evm_contract_exporter::config::{Chain, Config, Contract, Instance, Metric, Output};
use evm_contract_exporter::decoder::ReadingOf;
use evm_contract_exporter::exporter::{
    accept_block, accept_chain_id, begin_scrape, call_error_labels, finish_scrape,
    parse_block_tag, series_to_set, BlockTag, Exporter, OutcomeOf, PrecisionLoss, ProbeErrorOf, ScrapeErrorOf,
    SetupError,
};
use evm_contract_exporter::labels::Labels;
use evm_contract_exporter::metrics::SelfMetricError;
use evm_contract_exporter::multicall::CallResult;
use evm_contract_exporter::planner::{build, Plan};

const APY_ABI: &str = r#"[{"type":"function","name":"apy","inputs":[],"outputs":[{"name":"","type":"uint256"}],"stateMutability":"view"}]"#;

const TWO_ABI: &str = r#"[{"type":"function","name":"apy","inputs":[],"outputs":[{"name":"","type":"uint256"}],"stateMutability":"view"},{"type":"function","name":"ok","inputs":[],"outputs":[{"name":"","type":"bool"}],"stateMutability":"view"}]"#;

fn apy() -> Metric {
    Metric {
        function: "apy".into(),
        outputs: vec![Output {
            index: 0,
            scale_bits: 1e18f64.to_bits(),
            ..Default::default()
        }],
        ..Default::default()
    }
}

fn configured(prefix: &str, abi: &str, metrics: Vec<Metric>) -> Config {
    let mut c = Config {
        chain: Chain {
            rpc_url: "x".into(),
            chain_id: 1,
            ..Default::default()
        },
        contracts: vec![Contract {
            name: "c".into(),
            metric_prefix: prefix.into(),
            abi_inline: abi.into(),
            instances: vec![Instance {
                address: "0x0000000000000000000000000000000000000001".into(),
                ..Default::default()
            }],
            metrics,
            ..Default::default()
        }],
        ..Default::default()
    };
    c.apply_defaults();
    c.validate(&vec![Err("not read".to_string())]).expect("validate");
    c
}

fn cfg() -> Config {
    let ok = Metric {
        function: "ok".into(),
        ..Default::default()
    };
    configured("c", TWO_ABI, vec![apy(), ok])
}

fn plan() -> Plan {
    build(&cfg()).expect("plan")
}

fn word(v: u64) -> Vec<u8> {
    let mut w = vec![0u8; 24];
    w.extend_from_slice(&v.to_be_bytes());
    w
}

fn good(v: u64) -> CallResult {
    CallResult {
        success: true,
        return_data: word(v),
    }
}

#[test]
fn scrape_sets_gauge_value() {
    let cfg = configured("c", APY_ABI, vec![apy()]);
    accept_chain_id(&cfg, Ok(1)).expect("chain id");
    accept_block(&cfg, Ok(Some(100))).expect("block");
    let exp = Exporter::new(cfg).expect("exporter");
    let block = begin_scrape(exp.cfg(), Ok(Some(100))).expect("block");
    let report = exp
        .scrape_once(block, Ok(vec![good(50_000_000_000_000_000)]))
        .expect("scrape");
    assert_eq!(exp.plan().entries.len(), 1);
    assert_eq!(exp.plan().entries[0].metric_name, "c_apy");
    let v = match &report.outcomes[0] {
        OutcomeOf::Sample(ReadingOf::Number { digits, scale_bits }) => {
            digits.parse::<f64>().expect("digits") / f64::from_bits(*scale_bits)
        }
        _ => panic!("sample"),
    };
    assert!((v - 0.05).abs() < 1e-12);
    assert_eq!(report.block_number, 100);
    assert_eq!(report.error_count, 0);
}

#[test]
fn truth_values_are_samples() {
    let plan = plan();
    let report = finish_scrape(&plan, 1, Ok(vec![good(3), good(1)])).expect("scrape");
    assert!(matches!(
        report.outcomes[1],
        OutcomeOf::Sample(ReadingOf::Flag(true))
    ));
    assert_eq!((report.calls_total, report.chunks_total), (2, 1));
}

#[test]
fn gauges_named_like_own_metrics_are_refused() {
    let abi = r#"[{"type":"function","name":"calls","inputs":[],"outputs":[{"name":"","type":"uint256"}],"stateMutability":"view"}]"#;
    let calls = |name: &str| Metric {
        function: "calls".into(),
        name: name.into(),
        ..Default::default()
    };
    let taken = configured("evm_exporter", abi, vec![calls("calls_total")]);
    let err = Exporter::new(taken).expect_err("taken");
    assert!(matches!(
        &err,
        SetupError::Metrics(SelfMetricError::Registration { name, .. })
            if name == "evm_exporter_calls_total"
    ));
    assert_eq!(
        err.message(),
        "self metrics: Duplicate metrics collector registration attempted"
    );
    let mut labelled = configured("evm_exporter", abi, vec![calls("calls_total")]);
    labelled.labels.insert("chain".to_string(), "ethereum".to_string());
    let err = Exporter::new(labelled).expect_err("labelled").message();
    assert!(err.starts_with(
        "self metrics: Error: a previously registered descriptor with the same fully-qualified name as Desc { fq_name: \"evm_exporter_calls_total\""
    ));
    assert!(err.ends_with("has different label names or a different help string"));
    let free = configured("evm_exporter", abi, vec![calls("calls")]);
    assert!(Exporter::new(free).is_ok());
}

#[test]
fn errors_of_a_series_leave_the_others() {
    let plan = plan();
    let reverted = CallResult {
        success: false,
        return_data: vec![],
    };
    let scrape = finish_scrape(&plan, 1, Ok(vec![reverted, good(1)]));
    assert_eq!(series_to_set(&scrape), vec![1]);
    let report = scrape.expect("scrape");
    assert!(matches!(report.outcomes[0], OutcomeOf::Reverted));
    assert!(matches!(report.outcomes[1], OutcomeOf::Sample(_)));
    assert_eq!(report.error_count, 1);
    let short = CallResult {
        success: true,
        return_data: vec![1],
    };
    let report = finish_scrape(&plan, 1, Ok(vec![short, good(0)])).expect("scrape");
    assert!(matches!(report.outcomes[0], OutcomeOf::Undecodable(_)));
    assert_eq!(report.error_count, 1);
    assert_eq!(
        call_error_labels(&plan.entries[0]),
        vec!["c", "apy", "0x0000000000000000000000000000000000000001"]
    );
}

#[test]
fn chain_id_mismatch_fails_new() {
    let err = accept_chain_id(&cfg(), Ok(999)).expect_err("mismatch");
    assert!(matches!(
        err,
        ProbeErrorOf::ChainMismatch {
            configured: 1,
            got: 999
        }
    ));
    assert_eq!(err.message(), "chain_id mismatch: config=1, rpc=999");
    assert!(accept_chain_id(&cfg(), Ok(1)).is_ok());
}

#[test]
fn probes_that_fail_are_refused() {
    assert_eq!(
        accept_chain_id(&cfg(), Err("down".into()))
            .expect_err("down")
            .message(),
        "eth_chainId probe: down"
    );
    assert_eq!(
        accept_block(&cfg(), Err("down".into()))
            .expect_err("down")
            .message(),
        "probe block_tag=\"finalized\": down"
    );
    assert_eq!(
        accept_block(&cfg(), Ok(None)).expect_err("none").message(),
        "probe block_tag=\"finalized\": probe block_tag=finalized: rpc returned no block"
    );
    let mut latest = cfg();
    latest.chain.block_tag = String::new();
    assert_eq!(
        accept_block(&latest, Ok(None)).expect_err("none").message(),
        "probe block_tag=\"\": probe block_tag=latest: rpc returned no block"
    );
    latest.chain.block_tag = "safe".to_string();
    assert_eq!(
        accept_block(&latest, Ok(None)).expect_err("none").message(),
        "probe block_tag=\"safe\": probe block_tag=safe: rpc returned no block"
    );
    assert_eq!(accept_block(&cfg(), Ok(Some(7))).expect("block"), 7);
}

#[test]
fn scrapes_that_fail_are_counted_by_reason() {
    let plan = plan();
    let rpc = begin_scrape(&cfg(), Err("refused".into())).expect_err("rpc");
    assert_eq!(
        (rpc.reason().as_str(), rpc.message().as_str()),
        ("rpc_error", "refused")
    );
    let block = begin_scrape(&cfg(), Ok(None)).expect_err("block");
    assert_eq!(
        (block.reason().as_str(), block.message().as_str()),
        (
            "block_not_available",
            "probe block_tag=finalized: rpc returned no block"
        )
    );
    let chunk = finish_scrape(&plan, 1, Err("no answer".into())).expect_err("chunk");
    assert_eq!(
        (chunk.reason().as_str(), chunk.message().as_str()),
        ("chunk_failed", "no answer")
    );
    let count = finish_scrape(&plan, 1, Ok(vec![]));
    assert!(series_to_set(&count).is_empty());
    let count = count.expect_err("count");
    assert_eq!(
        (count.reason().as_str(), count.message().as_str()),
        ("chunk_failed", "multicall returned 0 results, expected 2")
    );
    let timeout = ScrapeErrorOf::<String>::Timeout;
    assert_eq!(timeout.reason(), "timeout");
    assert_eq!(timeout.message(), "scrape timed out");
}

#[test]
fn block_tags_are_read() {
    assert!(matches!(parse_block_tag(""), Ok(BlockTag::Latest)));
    assert!(matches!(parse_block_tag("latest"), Ok(BlockTag::Latest)));
    assert!(matches!(
        parse_block_tag("finalized"),
        Ok(BlockTag::Finalized)
    ));
    assert!(matches!(parse_block_tag("safe"), Ok(BlockTag::Safe)));
    assert_eq!(
        parse_block_tag("pending").expect_err("tag").message(),
        "unsupported block_tag \"pending\""
    );
}

#[test]
fn loss_of_precision_is_reported_once() {
    let mut seen = PrecisionLoss::new();
    assert!(seen.warn_precision_loss_once("m", "0x1"));
    assert!(!seen.warn_precision_loss_once("m", "0x1"));
    assert!(seen.warn_precision_loss_once("m", "0x2"));
    assert!(seen.warn_precision_loss_once("n", "0x1"));
    assert!(!seen.warn_precision_loss_once("m", "0x2"));
}

#[test]
fn exporter_is_set_up_and_scrapes() {
    let exporter = Exporter::new(cfg()).expect("exporter");
    assert_eq!(exporter.plan().entries.len(), 2);
    assert_eq!(exporter.cfg().chain.chain_id, 1);
    assert_eq!(exporter.server().metrics_path(), "/metrics");
    assert_eq!(
        exporter.self_metrics().calls_total.name,
        "evm_exporter_calls_total"
    );
    let report = exporter
        .scrape_once(7, Ok(vec![good(1), good(1)]))
        .expect("scrape");
    assert_eq!((report.block_number, report.error_count), (7, 0));
    assert!(exporter.scrape_once(7, Ok(vec![])).is_err());
}

#[test]
fn exporters_that_cannot_be_set_up_are_refused() {
    let mut unread = cfg();
    unread.contracts[0].parsed_abi = None;
    let err = Exporter::new(unread).expect_err("plan");
    assert!(matches!(err, SetupError::Plan(_)));
    assert_eq!(
        err.message(),
        "planner.build: contract \"c\" has no parsed ABI (config not validated?)"
    );
    let mut labels = Labels::new();
    labels.insert("bad-key".to_string(), "v".to_string());
    let bare = Config {
        labels,
        ..Default::default()
    };
    let err = Exporter::new(bare).expect_err("metrics");
    assert!(matches!(err, SetupError::Metrics(_)));
    assert_eq!(
        err.message(),
        "self metrics: create evm_exporter_scrape_duration_seconds: Error: 'bad-key' is not a valid label name"
    );
}

#[test]
fn results_of_other_calls_do_not_matter() {
    let plan = plan();
    let one = finish_scrape(&plan, 1, Ok(vec![good(1), good(1)])).expect("scrape");
    let reverted = CallResult {
        success: false,
        return_data: vec![],
    };
    let two = finish_scrape(&plan, 1, Ok(vec![reverted, good(1)])).expect("scrape");
    assert_eq!(
        format!("{:?}", one.outcomes[1]),
        format!("{:?}", two.outcomes[1])
    );
}
