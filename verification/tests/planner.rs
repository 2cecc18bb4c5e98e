use std::collections::BTreeSet;

use evm_contract_exporter::config::{
    Call, Chain, Config, Contract, Instance, Metric, Output, Scrape,
};
use evm_contract_exporter::decoder::DecodeTarget;
use evm_contract_exporter::labels::Labels;
use evm_contract_exporter::multicall::CallRequest;
use evm_contract_exporter::planner::error::PlanErrorOf;
use evm_contract_exporter::planner::{assemble, build, collect_steps, Draft, Plan, Step};
use evm_contract_exporter::sol::{parse_abi, AbiFunction, StateMutability};
use evm_contract_exporter::yaml::YamlValue;

const ABI: &str = r#"[{"type":"function","name":"balanceOf","inputs":[{"name":"a","type":"address"}],"outputs":[{"name":"","type":"uint256"}],"stateMutability":"view"},{"type":"function","name":"apy","inputs":[],"outputs":[{"name":"","type":"uint256"}],"stateMutability":"view"}]"#;

fn labels(pairs: &[(&str, &str)]) -> Labels {
    let mut l = Labels::new();
    for (k, v) in pairs {
        l.insert(k.to_string(), v.to_string());
    }
    l
}

fn metric(function: &str) -> Metric {
    Metric {
        function: function.into(),
        ..Default::default()
    }
}

fn call(address: &str) -> Call {
    Call {
        args: vec![YamlValue::String(address.into())],
        ..Default::default()
    }
}

fn instance(address: &str, pairs: &[(&str, &str)]) -> Instance {
    Instance {
        address: address.into(),
        labels: labels(pairs),
    }
}

const ONE: &str = "0x0000000000000000000000000000000000000001";
const TWO: &str = "0x0000000000000000000000000000000000000002";

fn contract(instances: Vec<Instance>, metrics: Vec<Metric>) -> Contract {
    Contract {
        name: "c".into(),
        metric_prefix: "c".into(),
        abi_inline: ABI.into(),
        instances,
        metrics,
        ..Default::default()
    }
}

fn config(contracts: Vec<Contract>) -> Config {
    let mut cfg = Config {
        chain: Chain {
            rpc_url: "x".into(),
            chain_id: 1,
            ..Default::default()
        },
        contracts,
        ..Default::default()
    };
    cfg.apply_defaults();
    cfg
}

fn validated(mut cfg: Config) -> Config {
    let files: Vec<Result<String, String>> = cfg
        .contracts
        .iter()
        .map(|_| Err("not read".to_string()))
        .collect();
    cfg.validate(&files).expect("validate");
    cfg
}

fn plan(cfg: Config) -> Plan {
    build(&validated(cfg)).expect("plan")
}

fn refusal(cfg: Config) -> String {
    build(&validated(cfg)).expect_err("refused").message()
}

#[test]
fn dedups_identical_calls() {
    let again = Metric {
        name: "apy_again".into(),
        ..metric("apy")
    };
    let plan = plan(config(vec![contract(
        vec![instance(ONE, &[])],
        vec![metric("apy"), again],
    )]));
    assert_eq!(plan.calls.len(), 1);
    assert_eq!(plan.entries.len(), 2);
    assert_eq!(plan.entries[0].metric_name, "c_apy");
    assert_eq!(plan.entries[1].metric_name, "c_apy_again");
    assert_eq!(plan.entries[0].call_index, plan.entries[1].call_index);
}

#[test]
fn label_union_backfills_missing_keys() {
    let plan = plan(config(vec![contract(
        vec![instance(ONE, &[("pool", "alpha")]), instance(TWO, &[])],
        vec![metric("apy")],
    )]));
    assert_eq!(plan.entries.len(), 2);
    for e in &plan.entries {
        assert_eq!(e.gauge_label_keys(), vec!["pool", "address", "chain_id"]);
    }
    assert_eq!(plan.entries[0].label_values, vec!["alpha", ONE, "1"]);
    assert_eq!(plan.entries[1].label_values, vec!["", TWO, "1"]);
    assert_eq!(plan.gauges.len(), 1);
    assert_eq!(plan.gauges[0].name, "c_apy");
    assert_eq!(plan.gauges[0].help, "EVM contract metric c_apy");
}

#[test]
fn chunk_count_rounds_up() {
    let m = Metric {
        calls: vec![
            call("0x0000000000000000000000000000000000000010"),
            call("0x0000000000000000000000000000000000000011"),
            call("0x0000000000000000000000000000000000000012"),
        ],
        ..metric("balanceOf")
    };
    let mut cfg = config(vec![contract(vec![instance(ONE, &[])], vec![m])]);
    cfg.scrape = Scrape {
        max_calls_per_batch: 2,
        ..Default::default()
    };
    let plan = plan(cfg);
    assert_eq!(plan.calls.len(), 3);
    assert_eq!(plan.chunk_count, 2);
}

#[test]
fn golden_plan_is_stable() {
    let abi = r#"[
      {"type":"function","name":"decimals","inputs":[],"outputs":[{"name":"","type":"uint8"}],"stateMutability":"view"},
      {"type":"function","name":"latestRoundData","inputs":[],"outputs":[{"name":"roundId","type":"uint80"},{"name":"answer","type":"int256"},{"name":"startedAt","type":"uint256"},{"name":"updatedAt","type":"uint256"},{"name":"answeredInRound","type":"uint80"}],"stateMutability":"view"},
      {"type":"function","name":"balanceOf","inputs":[{"name":"a","type":"address"}],"outputs":[{"name":"","type":"uint256"}],"stateMutability":"view"}
    ]"#;
    let answer = Metric {
        outputs: vec![Output {
            index: 1,
            name: "answer".into(),
            scale_bits: 1e8f64.to_bits(),
            ..Default::default()
        }],
        ..metric("latestRoundData")
    };
    let held = |address: &str, holder: &str| Call {
        labels: labels(&[("holder", holder)]),
        ..call(address)
    };
    let balances = Metric {
        calls: vec![held(ONE, "first"), held(TWO, "second")],
        ..metric("balanceOf")
    };
    let mut cfg = config(vec![Contract {
        metric_prefix: "feed".into(),
        abi_inline: abi.into(),
        ..contract(
            vec![instance(ONE, &[("pair", "ETH/USD")])],
            vec![metric("decimals"), answer, balances],
        )
    }]);
    cfg.labels = labels(&[("chain", "ethereum")]);
    let plan = plan(cfg);

    assert_eq!(plan.calls.len(), 4);
    assert_eq!(plan.entries.len(), 4);

    let names: BTreeSet<String> = plan.entries.iter().map(|e| e.metric_name.clone()).collect();
    let expected: BTreeSet<String> = [
        "feed_decimals",
        "feed_latest_round_data_answer",
        "feed_balance_of",
    ]
    .iter()
    .map(|s| s.to_string())
    .collect();
    assert_eq!(names, expected);

    let bo: Vec<_> = plan
        .entries
        .iter()
        .filter(|e| e.metric_name == "feed_balance_of")
        .collect();
    assert_eq!(bo.len(), 2);
    for e in bo {
        assert_eq!(
            e.gauge_label_keys(),
            vec!["chain", "holder", "pair", "address", "chain_id"]
        );
    }
    assert_eq!(
        plan.entries[3].label_values,
        vec!["ethereum", "second", "ETH/USD", ONE, "1"]
    );
    assert_eq!(plan.entries[1].decode.output_index, 1);
    assert_eq!(plan.entries[1].decode.scale_bits, 1e8f64.to_bits());
}

#[test]
fn calls_are_encoded_with_their_selector() {
    let m = Metric {
        args: vec![YamlValue::String(TWO.into())],
        ..metric("balanceOf")
    };
    let plan = plan(config(vec![contract(vec![instance(ONE, &[])], vec![m])]));
    let mut want = vec![0x70, 0xa0, 0x82, 0x31];
    want.extend_from_slice(&[0u8; 31]);
    want.push(2);
    assert_eq!(plan.calls[0].call_data, want);
    let mut target = [0u8; 20];
    target[19] = 1;
    assert_eq!(plan.calls[0].target, target);
}

#[test]
fn nearer_labels_come_first() {
    let key = |v: &str| labels(&[("k", v)]);
    let m = Metric {
        calls: vec![Call {
            args: vec![],
            labels: key("call"),
        }],
        ..metric("apy")
    };
    let mut with_call = config(vec![contract(vec![instance(ONE, &[("k", "instance")])], vec![m])]);
    with_call.labels = key("top");
    with_call.contracts[0].labels = key("contract");
    assert_eq!(plan(with_call).entries[0].label_values[0], "call");

    let mut without = config(vec![contract(
        vec![instance(ONE, &[("k", "instance")]), instance(TWO, &[])],
        vec![metric("apy")],
    )]);
    without.labels = key("top");
    without.contracts[0].labels = key("contract");
    let p = plan(without);
    assert_eq!(p.entries[0].label_values[0], "instance");
    assert_eq!(p.entries[1].label_values[0], "contract");
}

#[test]
fn tuple_fields_are_selected_by_position() {
    let abi = r#"[{"type":"function","name":"slot0","inputs":[],"outputs":[{"name":"","type":"tuple","components":[{"name":"price","type":"uint160"},{"name":"tick","type":"int24"}]}],"stateMutability":"view"}]"#;
    let m = Metric {
        outputs: vec![Output {
            field: "tick".into(),
            ..Default::default()
        }],
        ..metric("slot0")
    };
    let cfg = config(vec![Contract {
        abi_inline: abi.into(),
        ..contract(vec![instance(ONE, &[])], vec![m])
    }]);
    let p = plan(cfg);
    assert_eq!(p.entries[0].decode.field_index, Some(1));
    assert_eq!(p.entries[0].metric_name, "c_slot0_tick");
}

#[test]
fn help_texts_are_shared_and_must_agree() {
    let helped = |help: &str| Metric {
        help: help.into(),
        ..metric("apy")
    };
    let two = |a: Metric, b: Metric| {
        config(vec![
            contract(vec![instance(ONE, &[])], vec![a]),
            contract(vec![instance(TWO, &[])], vec![b]),
        ])
    };
    let p = plan(two(metric("apy"), helped("Yield.")));
    assert_eq!(p.gauges[0].help, "Yield.");
    let p = plan(two(helped("Yield."), helped("Yield.")));
    assert_eq!(p.gauges[0].help, "Yield.");
    assert_eq!(
        refusal(two(helped("Yield."), helped("Other."))),
        "metric \"c_apy\" has conflicting Help texts across contracts"
    );
}

#[test]
fn unvalidated_configs_are_refused() {
    let cfg = config(vec![contract(vec![instance(ONE, &[])], vec![metric("apy")])]);
    let err = build(&cfg).expect_err("refused");
    assert!(matches!(err, PlanErrorOf::NoAbi { .. }));
    assert_eq!(
        err.message(),
        "contract \"c\" has no parsed ABI (config not validated?)"
    );
}

#[test]
fn functions_and_outputs_that_are_missing_are_refused() {
    let mut cfg = validated(config(vec![contract(
        vec![instance(ONE, &[])],
        vec![metric("apy")],
    )]));
    cfg.contracts[0].metrics[0].function = "gone".into();
    assert_eq!(
        build(&cfg).expect_err("refused").message(),
        "contract \"c\" metric \"gone\": function \"gone\" missing from ABI"
    );
    cfg.contracts[0].metrics[0].function = "apy".into();
    cfg.contracts[0].metrics[0].outputs = vec![Output {
        index: 9,
        ..Default::default()
    }];
    assert_eq!(
        build(&cfg).expect_err("refused").message(),
        "contract \"c\" metric \"apy\": output index 9 out of range"
    );
    cfg.contracts[0].metrics[0].outputs = vec![Output {
        field: "x".into(),
        name: "x".into(),
        ..Default::default()
    }];
    assert_eq!(
        build(&cfg).expect_err("refused").message(),
        "contract \"c\" metric \"apy\": field \"x\" selected but output 0 of \"apy\" is uint256, not a tuple"
    );
}

#[test]
fn addresses_and_arguments_that_do_not_parse_are_refused() {
    assert_eq!(
        refusal(config(vec![contract(
            vec![instance("0x12", &[])],
            vec![metric("apy")]
        )])),
        "contract \"c\" instance \"0x12\": invalid address"
    );
    let m = Metric {
        args: vec![YamlValue::String("nope".into())],
        ..metric("balanceOf")
    };
    assert!(
        refusal(config(vec![contract(vec![instance(ONE, &[])], vec![m])]))
            .starts_with("contract \"c\" metric \"balanceOf\": args[0] (address): invalid address ")
    );
}

#[test]
fn label_keys_that_are_no_names_are_refused() {
    let message = refusal(config(vec![contract(
        vec![instance(ONE, &[("bad-key", "v")])],
        vec![metric("apy")],
    )]));
    assert_eq!(
        message,
        "create gauge \"c_apy\": Error: 'bad-key' is not a valid label name"
    );
}

fn draft(name: &str, help: &str, data: u8, pairs: &[(&str, &str)]) -> Step {
    let request = || CallRequest {
        target: [7; 20],
        call_data: vec![data],
    };
    Step::Draft(Draft {
        call: request(),
        decode: DecodeTarget {
            function: AbiFunction {
                name: "f".into(),
                inputs: vec![],
                outputs: vec![],
                state_mutability: StateMutability::View,
            },
            output_index: 0,
            field_index: None,
            scale_bits: 0,
        },
        name: name.into(),
        help: help.into(),
        labels: labels(pairs),
        contract: "c".into(),
        function: "f".into(),
    })
}

#[test]
fn plans_are_assembled_from_steps() {
    let steps = vec![
        draft("a", "", 1, &[("y", "1")]),
        draft("b", "B.", 2, &[]),
        Step::Call(CallRequest {
            target: [7; 20],
            call_data: vec![3],
        }),
        draft("a", "A.", 1, &[("x", "2")]),
    ];
    let p = assemble(steps, 5, 2).expect("plan");
    assert_eq!(p.calls.len(), 3);
    assert_eq!(p.chunk_count, 2);
    assert_eq!(p.gauges.len(), 2);
    assert_eq!((p.gauges[0].name.as_str(), p.gauges[0].help.as_str()), ("a", "A."));
    assert_eq!(p.gauges[0].label_keys, vec!["x", "y", "address", "chain_id"]);
    assert_eq!(p.entries.len(), 3);
    assert_eq!(
        p.entries[2].label_values,
        vec!["2", "", "0x0707070707070707070707070707070707070707", "5"]
    );
    assert_eq!((p.entries[2].call_index, p.entries[2].gauge_index), (0, 0));
    assert_eq!((p.entries[1].call_index, p.entries[1].gauge_index), (1, 1));
}

#[test]
fn first_fault_of_the_steps_is_given() {
    let fail = |name: &str| {
        Step::Fail(PlanErrorOf::NoAbi {
            contract: name.to_string(),
        })
    };
    let steps = vec![
        draft("a", "A.", 1, &[]),
        draft("a", "B.", 2, &[]),
        fail("late"),
    ];
    assert!(matches!(
        assemble(steps, 1, 0),
        Err(PlanErrorOf::HelpConflict { .. })
    ));
    let steps = vec![draft("a", "A.", 1, &[]), fail("first"), fail("second")];
    assert!(matches!(
        assemble(steps, 1, 0),
        Err(PlanErrorOf::NoAbi { contract }) if contract == "first"
    ));
    assert!(matches!(
        assemble(vec![draft("no name", "", 1, &[])], 1, 0),
        Err(PlanErrorOf::Gauge { reason, .. })
            if reason == "Error: 'no name' is not a valid metric name"
    ));
    assert!(matches!(
        assemble(vec![draft("a", "", 1, &[("address", "x")])], 1, 0),
        Err(PlanErrorOf::Gauge { reason, .. })
            if reason == "Error: duplicate variable label name address"
    ));
}

#[test]
fn functions_without_outputs_are_called_and_not_shown() {
    let abi = r#"[{"type":"function","name":"ping","inputs":[],"outputs":[],"stateMutability":"view"}]"#;
    let cfg = config(vec![Contract {
        abi_inline: abi.into(),
        ..contract(vec![instance(ONE, &[])], vec![metric("ping")])
    }]);
    let cfg = validated(cfg);
    assert_eq!(collect_steps(&cfg).len(), 1);
    let p = build(&cfg).expect("plan");
    assert_eq!((p.calls.len(), p.entries.len(), p.chunk_count), (1, 0, 1));
    assert!(parse_abi(abi).is_ok());
}
