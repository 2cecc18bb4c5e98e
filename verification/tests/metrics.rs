use evm_contract_exporter::labels::Labels;
use evm_contract_exporter::metrics::{
    build_info_labels, MetricDef, MetricKind, SelfMetricError, SelfMetrics,
};
use prometheus::{CounterVec, Gauge, GaugeVec, Opts, Registry};

fn labels(pairs: &[(&str, &str)]) -> Labels {
    let mut l = Labels::new();
    for (k, v) in pairs {
        l.insert(k.to_string(), v.to_string());
    }
    l
}

fn copy(d: &MetricDef) -> MetricDef {
    MetricDef {
        kind: d.kind,
        name: d.name.clone(),
        help: d.help.clone(),
        labels: d.labels.clone(),
    }
}

fn definitions(m: &SelfMetrics) -> Vec<&MetricDef> {
    vec![
        &m.scrape_duration_seconds,
        &m.scrape_errors_total,
        &m.call_errors_total,
        &m.last_scrape_success_timestamp,
        &m.rpc_block_number,
        &m.calls_total,
        &m.chunks_total,
        &m.build_info,
    ]
}

fn register(reg: &Registry, d: &MetricDef, m: &SelfMetrics) -> prometheus::Result<()> {
    let opts = Opts::new(d.name.clone(), d.help.clone())
        .const_labels(m.const_labels.iter().cloned().collect());
    let names: Vec<&str> = d.labels.iter().map(String::as_str).collect();
    match d.kind {
        MetricKind::Gauge => reg.register(Box::new(Gauge::with_opts(opts)?)),
        MetricKind::GaugeVec => {
            let g = GaugeVec::new(opts, &names)?;
            g.with_label_values(&names).set(1.0);
            reg.register(Box::new(g))
        }
        MetricKind::CounterVec => {
            let c = CounterVec::new(opts, &names)?;
            c.with_label_values(&names).inc();
            reg.register(Box::new(c))
        }
    }
}

#[test]
fn registers_all_self_metrics() {
    let reg = Registry::new();
    let m = SelfMetrics::new(&vec![], &labels(&[("chain", "ethereum")])).expect("self metrics");
    for d in definitions(&m) {
        register(&reg, d, &m).expect("register");
    }
    let families = reg.gather();
    let names: Vec<&str> = families.iter().map(|f| f.name()).collect();
    for want in [
        "evm_exporter_scrape_duration_seconds",
        "evm_exporter_scrape_errors_total",
        "evm_exporter_call_errors_total",
        "evm_exporter_last_scrape_success_timestamp_seconds",
        "evm_exporter_rpc_block_number",
        "evm_exporter_calls_total",
        "evm_exporter_chunks_total",
        "evm_exporter_build_info",
    ] {
        assert!(names.contains(&want), "missing {want}");
    }
    assert_eq!(
        m.const_labels,
        vec![("chain".to_string(), "ethereum".to_string())]
    );
    assert_eq!(
        build_info_labels("1.2.3", "abc", "1.80"),
        vec!["1.2.3", "abc", "1.80"]
    );
}

#[test]
fn rejects_double_register() {
    let reg = Registry::new();
    let m = SelfMetrics::new(&vec![], &labels(&[])).expect("self metrics");
    register(&reg, &m.calls_total, &m).expect("first");
    assert!(register(&reg, &m.calls_total, &m).is_err());
    let first: Vec<MetricDef> = (0..8).map(|i| copy(m.definition(i))).collect();
    let err = SelfMetrics::new(&first, &labels(&[])).expect_err("second");
    assert_eq!(
        err.message(),
        "Duplicate metrics collector registration attempted"
    );
}

#[test]
fn first_taken_name_is_reported() {
    let m = SelfMetrics::new(&vec![], &labels(&[])).expect("self metrics");
    let other = MetricDef {
        kind: MetricKind::GaugeVec,
        name: "c_apy".to_string(),
        help: "h".to_string(),
        labels: vec!["address".to_string()],
    };
    let before = vec![copy(&other), copy(&m.build_info), copy(&m.calls_total)];
    let all = labels(&[("chain", "ethereum")]);
    let err = SelfMetrics::new(&before, &all).expect_err("taken");
    let reg = Registry::new();
    register(&reg, &m.calls_total, &m).expect("first");
    let labelled = SelfMetrics::new(&vec![], &all).expect("self metrics");
    let outside = register(&reg, &labelled.calls_total, &labelled).expect_err("second");
    match &err {
        SelfMetricError::Registration { name, reason } => {
            assert_eq!(name, "evm_exporter_calls_total");
            assert_eq!(reason, &outside.to_string());
        }
        _ => panic!("registration"),
    }
    assert!(SelfMetrics::new(&vec![other], &all).is_ok());
}

#[test]
fn label_keys_that_are_no_names_refuse_the_self_metrics() {
    let err = SelfMetrics::new(&vec![], &labels(&[("bad-key", "v"), ("good", "v")])).expect_err("label");
    assert!(matches!(
        &err,
        SelfMetricError::Description { name, .. } if name == "evm_exporter_scrape_duration_seconds"
    ));
    assert_eq!(
        err.message(),
        "create evm_exporter_scrape_duration_seconds: Error: 'bad-key' is not a valid label name"
    );
}

#[test]
fn unknown_build_facts_have_a_word() {
    assert_eq!(
        build_info_labels("", "", ""),
        vec!["dev", "unknown", "unknown"]
    );
}

#[test]
fn self_metrics_have_their_labels() {
    let m = SelfMetrics::new(&vec![], &labels(&[])).expect("self metrics");
    assert_eq!(m.scrape_errors_total.labels, vec!["reason"]);
    assert_eq!(
        m.call_errors_total.labels,
        vec!["contract", "function", "address"]
    );
    assert_eq!(m.build_info.labels, vec!["version", "commit", "rust_version"]);
    assert_eq!(m.build_info.kind, MetricKind::GaugeVec);
    assert_eq!(
        m.build_info.help,
        "Exporter build information. Constant 1."
    );
}
