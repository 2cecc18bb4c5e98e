use evm_contract_exporter::config::env::{expand_env, is_shell_ident, read_document};
use evm_contract_exporter::config::error::{ConfigErrorOf, ContractErrorOf, MetricErrorOf};
use evm_contract_exporter::config::validate::{
    check_reserved_labels, is_valid_prom_name, metric_descriptor,
};
use evm_contract_exporter::config::{
    Call, Chain, Config, Contract, Duration, Instance, Metric, Output, DEFAULT_MULTICALL3_ADDRESS,
    ONE_BITS,
};
use evm_contract_exporter::labels::Labels;
use evm_contract_exporter::yaml::YamlValue;

const VIEW_ABI: &str = r#"[{"type":"function","name":"apy","inputs":[],"outputs":[{"name":"","type":"uint256"}],"stateMutability":"view"},{"type":"function","name":"balanceOf","inputs":[{"name":"a","type":"address"}],"outputs":[{"name":"","type":"uint256"}],"stateMutability":"view"},{"type":"function","name":"slot0","inputs":[],"outputs":[{"name":"","type":"tuple","components":[{"name":"price","type":"uint160"},{"name":"owner","type":"address"},{"name":"odd","type":"uint7"}]}],"stateMutability":"view"}]"#;

fn labels(pairs: &[(&str, &str)]) -> Labels {
    let mut l = Labels::new();
    for (k, v) in pairs {
        l.insert(k.to_string(), v.to_string());
    }
    l
}

fn metric(function: &str) -> Metric {
    Metric {
        function: function.into(),
        ..Default::default()
    }
}

fn contract(abi: &str, metrics: Vec<Metric>) -> Contract {
    Contract {
        name: "c".into(),
        abi_inline: abi.into(),
        instances: vec![Instance {
            address: "0x0000000000000000000000000000000000000001".into(),
            ..Default::default()
        }],
        metrics,
        ..Default::default()
    }
}

fn config(contracts: Vec<Contract>) -> Config {
    let mut cfg = Config {
        chain: Chain {
            rpc_url: "http://localhost:8545".into(),
            chain_id: 1,
            ..Default::default()
        },
        contracts,
        ..Default::default()
    };
    cfg.apply_defaults();
    cfg
}

fn unread(n: usize) -> Vec<Result<String, String>> {
    (0..n).map(|_| Err("not read".to_string())).collect()
}

fn message(cfg: &mut Config) -> String {
    let files = unread(cfg.contracts.len());
    cfg.validate(&files).expect_err("refused").message()
}

fn metric_message(m: Metric) -> String {
    message(&mut config(vec![contract(VIEW_ABI, vec![m])]))
}

fn address_arg(s: &str) -> YamlValue {
    YamlValue::String(s.into())
}

#[test]
fn applies_defaults() {
    let cfg = config(vec![contract(VIEW_ABI, vec![metric("apy")])]);
    assert_eq!(cfg.chain.multicall3_address, DEFAULT_MULTICALL3_ADDRESS);
    assert_eq!(cfg.chain.block_tag, "finalized");
    assert_eq!(cfg.chain.request_timeout, Duration::from_secs(10));
    assert_eq!(cfg.scrape.interval, Duration::from_secs(30));
    assert_eq!(cfg.scrape.timeout, Duration::from_secs(25));
    assert_eq!(cfg.scrape.max_calls_per_batch, 500);
    assert_eq!(cfg.server.listen_address, "0.0.0.0:9100");
    assert_eq!(cfg.server.metrics_path, "/metrics");
    assert_eq!(cfg.server.health_path, "/healthz");
    assert_eq!(cfg.chain.rpc_url, "http://localhost:8545");
}

#[test]
fn defaults_keep_what_is_set_and_settle() {
    let mut cfg = config(vec![]);
    cfg.chain.block_tag = "safe".into();
    cfg.scrape.timeout = Duration { secs: 0, nanos: 5 };
    cfg.scrape.max_calls_per_batch = 7;
    cfg.apply_defaults();
    assert_eq!(cfg.chain.block_tag, "safe");
    assert_eq!(cfg.scrape.timeout, Duration { secs: 0, nanos: 5 });
    assert_eq!(cfg.scrape.max_calls_per_batch, 7);
    let before = format!("{cfg:?}");
    cfg.apply_defaults();
    assert_eq!(format!("{cfg:?}"), before);
}

fn env() -> Vec<(String, String)> {
    vec![
        ("FOO".to_string(), "bar".to_string()),
        ("FOO".to_string(), "second".to_string()),
        ("NESTED".to_string(), "${FOO}".to_string()),
    ]
}

#[test]
fn env_expands_braced_only() {
    assert_eq!(expand_env("${FOO}/x", &env()), "bar/x");
    assert_eq!(expand_env("$FOO/x", &env()), "$FOO/x");
    assert_eq!(expand_env("${MISSING_VAR_XYZ}", &env()), "");
}

#[test]
fn env_leaves_what_is_no_reference() {
    assert_eq!(expand_env("plain ünïcode", &env()), "plain ünïcode");
    assert_eq!(expand_env("${FOO", &env()), "${FOO");
    assert_eq!(expand_env("${1FOO}", &env()), "${1FOO}");
    assert_eq!(expand_env("${}", &env()), "${}");
    assert_eq!(expand_env("${a-${FOO}}", &env()), "${a-bar}");
    assert_eq!(expand_env("$${FOO}${FOO}$", &env()), "$barbar$");
}

#[test]
fn env_values_are_not_expanded_again() {
    assert_eq!(expand_env("${NESTED}", &env()), "${FOO}");
}

#[test]
fn names_of_variables() {
    assert!(is_shell_ident("_a1"));
    assert!(!is_shell_ident("1a"));
    assert!(!is_shell_ident(""));
    assert!(!is_shell_ident("a-b"));
}

#[test]
fn documents_are_read_and_expanded() {
    let raw = "a: ${FOO}\n${FOO}: [1, 'x${FOO}', {k: '${FOO}'}, 1.5, true, null]\nt: !tag ${FOO}\n";
    let doc = read_document(raw, &env()).expect("yaml");
    let pairs = match doc {
        YamlValue::Mapping(pairs) => pairs,
        _ => panic!("mapping"),
    };
    assert_eq!(pairs.len(), 3);
    assert!(matches!(&pairs[0].1, YamlValue::String(s) if s == "bar"));
    assert!(matches!(&pairs[1].0, YamlValue::String(s) if s == "${FOO}"));
    let items = match &pairs[1].1 {
        YamlValue::Sequence(items) => items,
        _ => panic!("sequence"),
    };
    assert!(matches!(&items[0], YamlValue::Number(n) if n == "1"));
    assert!(matches!(&items[1], YamlValue::String(s) if s == "xbar"));
    assert!(matches!(&items[2], YamlValue::Mapping(m) if matches!(&m[0].1, YamlValue::String(s) if s == "bar")));
    assert!(matches!(&items[3], YamlValue::Number(n) if n == "1.5"));
    assert!(matches!(items[4], YamlValue::Bool(true)));
    assert!(matches!(items[5], YamlValue::Null));
    assert!(matches!(&pairs[2].1, YamlValue::Tagged(tag, v) if tag == "tag" && matches!(&**v, YamlValue::String(s) if s == "bar")));
}

#[test]
fn documents_that_are_no_yaml_are_refused() {
    assert!(read_document("a: [", &env()).is_err());
}

#[test]
fn valid_config_passes() {
    let mut c = config(vec![contract(VIEW_ABI, vec![metric("apy")])]);
    assert!(c.validate(&unread(1)).is_ok());
    assert!(c.contracts[0].parsed_abi.is_some());
}

#[test]
fn interface_is_read_from_its_file() {
    let mut ct = contract("", vec![metric("apy")]);
    ct.abi_path = "abi.json".into();
    let mut c = config(vec![ct]);
    assert!(c.validate(&vec![Ok(VIEW_ABI.to_string())]).is_ok());
    let parsed = c.contracts[0].parsed_abi.as_ref().expect("abi");
    assert_eq!(parsed.functions.len(), 3);
}

#[test]
fn rejects_missing_rpc_url() {
    let mut c = config(vec![]);
    c.chain.rpc_url = String::new();
    assert!(matches!(
        c.validate(&unread(0)),
        Err(ConfigErrorOf::RpcUrlRequired)
    ));
}

#[test]
fn rejects_zero_chain_id() {
    let mut c = config(vec![]);
    c.chain.rpc_url = "x".into();
    c.chain.chain_id = 0;
    let err = c.validate(&unread(0)).expect_err("should fail");
    assert!(err.message().contains("chain_id"));
}

#[test]
fn rejects_non_view_function() {
    let abi = r#"[{"type":"function","name":"poke","inputs":[],"outputs":[{"name":"","type":"uint256"}],"stateMutability":"nonpayable"}]"#;
    let mut c = config(vec![contract(abi, vec![metric("poke")])]);
    assert!(c.validate(&unread(1)).is_err());
    assert!(c.contracts[0].parsed_abi.is_none());
}

#[test]
fn config_rejects_arg_count_mismatch() {
    let mut c = config(vec![contract(VIEW_ABI, vec![metric("balanceOf")])]);
    let err = c.validate(&unread(1)).expect_err("count");
    assert_eq!(
        err.message(),
        "contracts[0] (c): metrics[0] (balanceOf): function \"balanceOf\" expects 1 argument(s), got 0"
    );
}

#[test]
fn rejects_reserved_label() {
    let mut c = config(vec![contract(VIEW_ABI, vec![metric("apy")])]);
    c.labels = labels(&[("address", "nope")]);
    let err = c.validate(&unread(1)).expect_err("fail");
    assert!(err.message().contains("reserved"));
    assert_eq!(
        err.message(),
        "labels: label \"address\" is reserved and set by the exporter"
    );
}

#[test]
fn rejects_args_and_calls_together() {
    let abi = r#"[{"type":"function","name":"balanceOf","inputs":[{"name":"a","type":"address"}],"outputs":[{"name":"","type":"uint256"}],"stateMutability":"view"}]"#;
    let m = Metric {
        args: vec![address_arg("0x0000000000000000000000000000000000000002")],
        calls: vec![Call {
            args: vec![address_arg("0x0000000000000000000000000000000000000003")],
            ..Default::default()
        }],
        ..metric("balanceOf")
    };
    let mut c = config(vec![contract(abi, vec![m])]);
    assert!(matches!(
        c.validate(&unread(1)),
        Err(ConfigErrorOf::Contract {
            error: ContractErrorOf::Metric {
                error: MetricErrorOf::ArgsAndCalls,
                ..
            },
            ..
        })
    ));
}

#[test]
fn rejects_a_config_without_contracts() {
    assert_eq!(
        message(&mut config(vec![])),
        "at least one contract must be configured"
    );
}

#[test]
fn rejects_contracts_that_lack_something() {
    let ok = || contract(VIEW_ABI, vec![metric("apy")]);
    let mut unnamed = ok();
    unnamed.name = String::new();
    assert_eq!(
        message(&mut config(vec![unnamed])),
        "contracts[0] (): name is required"
    );
    let mut no_abi = ok();
    no_abi.abi_inline = String::new();
    assert_eq!(
        message(&mut config(vec![ok(), no_abi])),
        "contracts[1] (c): one of abi_path or abi_inline is required"
    );
    let mut two = ok();
    two.abi_path = "x".into();
    assert_eq!(
        message(&mut config(vec![two])),
        "contracts[0] (c): abi_path and abi_inline are mutually exclusive"
    );
    let mut unreadable = ok();
    unreadable.abi_inline = String::new();
    unreadable.abi_path = "x.json".into();
    assert_eq!(
        message(&mut config(vec![unreadable])),
        "contracts[0] (c): read abi_path \"x.json\": not read"
    );
    assert!(message(&mut config(vec![contract("[", vec![metric("apy")])]))
        .starts_with("contracts[0] (c): parse abi: "));
    let mut no_instance = ok();
    no_instance.instances = vec![];
    assert_eq!(
        message(&mut config(vec![no_instance])),
        "contracts[0] (c): at least one instance is required"
    );
    let mut no_address = ok();
    no_address.instances.push(Instance::default());
    assert_eq!(
        message(&mut config(vec![no_address])),
        "contracts[0] (c): instances[1]: address is required"
    );
    assert_eq!(
        message(&mut config(vec![contract(VIEW_ABI, vec![])])),
        "contracts[0] (c): at least one metric is required"
    );
}

#[test]
fn rejects_reserved_labels_everywhere() {
    let reserved = || labels(&[("zone", "z"), ("chain_id", "1")]);
    let mut ct = contract(VIEW_ABI, vec![metric("apy")]);
    ct.labels = reserved();
    assert_eq!(
        message(&mut config(vec![ct])),
        "contracts[0] (c): labels: label \"chain_id\" is reserved and set by the exporter"
    );
    let mut ct = contract(VIEW_ABI, vec![metric("apy")]);
    ct.instances[0].labels = reserved();
    assert_eq!(
        message(&mut config(vec![ct])),
        "contracts[0] (c): instances[0].labels: label \"chain_id\" is reserved and set by the exporter"
    );
    let m = Metric {
        labels: reserved(),
        ..metric("apy")
    };
    assert_eq!(
        metric_message(m),
        "contracts[0] (c): metrics[0] (apy): labels: label \"chain_id\" is reserved and set by the exporter"
    );
    let m = Metric {
        calls: vec![Call {
            args: vec![],
            labels: reserved(),
        }],
        ..metric("apy")
    };
    assert_eq!(
        metric_message(m),
        "contracts[0] (c): metrics[0] (apy): calls[0].labels: label \"chain_id\" is reserved and set by the exporter"
    );
    assert!(check_reserved_labels("labels", &labels(&[("zone", "z")])).is_ok());
}

#[test]
fn rejects_metrics_that_do_not_fit() {
    assert_eq!(
        metric_message(Metric::default()),
        "contracts[0] (c): metrics[0] (<unnamed>): function is required"
    );
    assert_eq!(
        metric_message(metric("nope")),
        "contracts[0] (c): metrics[0] (nope): function \"nope\" not found in ABI"
    );
    let m = Metric {
        calls: vec![Call::default()],
        ..metric("balanceOf")
    };
    assert_eq!(
        metric_message(m),
        "contracts[0] (c): metrics[0] (balanceOf): calls[0]: function \"balanceOf\" expects 1 argument(s), got 0"
    );
    let m = Metric {
        name: "no-name".into(),
        ..metric("apy")
    };
    assert_eq!(
        metric_message(m),
        "contracts[0] (c): metrics[0] (no-name): metric name \"no-name\" does not match Prometheus metric name grammar: ^[a-zA-Z_:][a-zA-Z0-9_:]*$"
    );
    let m = Metric {
        outputs: vec![Output {
            name: "no-name".into(),
            ..Default::default()
        }],
        ..metric("apy")
    };
    assert_eq!(
        metric_message(m),
        "contracts[0] (c): metrics[0] (apy): inferred metric name \"no-name\" does not match Prometheus metric name grammar: ^[a-zA-Z_:][a-zA-Z0-9_:]*$"
    );
}

fn field(name: &str) -> Output {
    Output {
        field: name.into(),
        ..Default::default()
    }
}

#[test]
fn rejects_outputs_that_do_not_fit() {
    let with = |outputs: Vec<Output>, function: &str| {
        metric_message(Metric {
            outputs,
            ..metric(function)
        })
    };
    assert_eq!(
        with(
            vec![Output {
                index: 1,
                ..Default::default()
            }],
            "apy"
        ),
        "contracts[0] (c): metrics[0] (apy): outputs[0].index 1 out of range (function \"apy\" has 1 output(s))"
    );
    assert_eq!(
        with(vec![Output::default(), Output::default()], "apy"),
        "contracts[0] (c): metrics[0] (apy): outputs[1]: duplicate index 0"
    );
    assert_eq!(
        with(vec![field("price"), field("price")], "slot0"),
        "contracts[0] (c): metrics[0] (slot0): outputs[1]: duplicate index 0 field \"price\""
    );
    assert_eq!(
        with(vec![field("nope")], "slot0"),
        "contracts[0] (c): metrics[0] (slot0): tuple field \"nope\" not found in output 0 of \"slot0\"; available: [\"price\", \"owner\", \"odd\"]"
    );
    assert_eq!(
        with(vec![field("price"), field("owner")], "slot0"),
        "contracts[0] (c): metrics[0] (slot0): outputs[1]: tuple field \"owner\" has type address, not a numeric/bool scalar"
    );
    assert!(with(vec![field("odd")], "slot0").starts_with(
        "contracts[0] (c): metrics[0] (slot0): resolve tuple field type for \"odd\": "
    ));
}

#[test]
fn contracts_before_a_refused_one_keep_their_interfaces() {
    let mut c = config(vec![
        contract(VIEW_ABI, vec![metric("apy")]),
        contract(VIEW_ABI, vec![]),
        contract(VIEW_ABI, vec![metric("apy")]),
    ]);
    assert!(c.validate(&unread(3)).is_err());
    assert!(c.contracts[0].parsed_abi.is_some());
    assert!(c.contracts[1].parsed_abi.is_none());
    assert!(c.contracts[2].parsed_abi.is_none());
}

#[test]
fn names_of_metrics() {
    assert!(is_valid_prom_name("a:b_1"));
    assert!(is_valid_prom_name(":"));
    assert!(!is_valid_prom_name("1a"));
    assert!(!is_valid_prom_name(""));
    assert!(!is_valid_prom_name("ä"));
}

#[test]
fn metrics_are_described_by_what_they_have() {
    assert_eq!(metric_descriptor(&Metric::default()), "<unnamed>");
    let calls = Metric {
        calls: vec![Call::default()],
        ..Default::default()
    };
    assert_eq!(metric_descriptor(&calls), "calls[...]");
    assert_eq!(metric_descriptor(&metric("f")), "f");
    let named = Metric {
        name: "n".into(),
        ..metric("f")
    };
    assert_eq!(metric_descriptor(&named), "n");
}

#[test]
fn prefixes_and_scales_fall_back() {
    let mut ct = contract(VIEW_ABI, vec![]);
    assert_eq!(ct.effective_metric_prefix(), "c");
    ct.metric_prefix = "p".into();
    assert_eq!(ct.effective_metric_prefix(), "p");
    let scaled = |scale: f64| Output {
        scale_bits: scale.to_bits(),
        ..Default::default()
    };
    assert_eq!(f64::from_bits(ONE_BITS), 1.0);
    assert_eq!(scaled(0.0).effective_scale(), 1.0f64.to_bits());
    assert_eq!(scaled(-0.0).effective_scale(), 1.0f64.to_bits());
    assert_eq!(scaled(1e18).effective_scale(), 1e18f64.to_bits());
}
