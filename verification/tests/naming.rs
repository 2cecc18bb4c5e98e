use evm_contract_exporter::config::abi::{find_function, AbiErrorOf};
use evm_contract_exporter::config::naming::{camel_to_snake, infer_metric_names};
use evm_contract_exporter::config::{Metric, Output};
use evm_contract_exporter::sol::{parse_abi, AbiFunction};

#[test]
fn matches_go_examples() {
    assert_eq!(camel_to_snake("latestRoundData"), "latest_round_data");
    assert_eq!(camel_to_snake("balanceOf"), "balance_of");
    assert_eq!(camel_to_snake("getReserves"), "get_reserves");
    assert_eq!(camel_to_snake("feeAPR"), "fee_apr");
    assert_eq!(camel_to_snake("rateLimitV2"), "rate_limit_v2");
    assert_eq!(camel_to_snake("latestRound"), "latest_round");
    assert_eq!(camel_to_snake("APIKey"), "api_key");
    assert_eq!(camel_to_snake("SECONDS_PER_YEAR"), "seconds_per_year");
    assert_eq!(camel_to_snake(""), "");
    assert_eq!(camel_to_snake("apy"), "apy");
}

#[test]
fn snake_case_is_its_own_snake_case() {
    for s in ["latestRoundData", "APIKey", "rateLimitV2", "already_snake_2"] {
        let once = camel_to_snake(s);
        assert_eq!(camel_to_snake(&once), once);
    }
}

#[test]
fn letters_beyond_ascii_are_lowered() {
    assert_eq!(camel_to_snake("preisÄnderung"), "preis_änderung");
    assert_eq!(camel_to_snake("İx"), "i\u{307}x");
}

const ABI: &str = r#"[
  {"type":"function","name":"apy","inputs":[],"outputs":[{"name":"annualYield","type":"uint256"}],"stateMutability":"view"},
  {"type":"function","name":"getReserves","inputs":[],"outputs":[{"name":"reserve0","type":"uint112"},{"name":"reserve1","type":"uint112"},{"name":"blockTimestampLast","type":"uint32"}],"stateMutability":"view"},
  {"type":"function","name":"pair","inputs":[],"outputs":[{"name":"","type":"uint112"},{"name":"","type":"uint112"}],"stateMutability":"view"},
  {"type":"function","name":"slot0","inputs":[],"outputs":[{"name":"","type":"tuple","components":[{"name":"sqrtPriceX96","type":"uint160"},{"name":"tick","type":"int24"}]}],"stateMutability":"view"}
]"#;

fn func(name: &str) -> AbiFunction {
    let abi = parse_abi(ABI).expect("abi");
    find_function(&abi, name).expect("fn").duplicate()
}

fn metric(function: &str) -> Metric {
    Metric {
        function: function.into(),
        ..Default::default()
    }
}

#[test]
fn single_output_uses_function_name() {
    let m = metric("apy");
    assert_eq!(
        infer_metric_names(&m, &func("apy")).expect("names"),
        vec!["apy"]
    );
}

#[test]
fn single_output_explicit_name_replaces() {
    let m = Metric {
        outputs: vec![Output {
            name: "annual_yield".into(),
            ..Default::default()
        }],
        ..metric("apy")
    };
    assert_eq!(
        infer_metric_names(&m, &func("apy")).expect("names"),
        vec!["annual_yield"]
    );
}

#[test]
fn multi_output_appends_output_names() {
    let m = metric("getReserves");
    assert_eq!(
        infer_metric_names(&m, &func("getReserves")).expect("names"),
        vec![
            "get_reserves_reserve0",
            "get_reserves_reserve1",
            "get_reserves_block_timestamp_last"
        ]
    );
}

#[test]
fn metric_name_override_is_base() {
    let m = Metric {
        name: "reserves".into(),
        ..metric("getReserves")
    };
    assert_eq!(
        infer_metric_names(&m, &func("getReserves")).expect("names"),
        vec![
            "reserves_reserve0",
            "reserves_reserve1",
            "reserves_block_timestamp_last"
        ]
    );
}

#[test]
fn tuple_field_suffix() {
    let m = Metric {
        outputs: vec![Output {
            index: 0,
            field: "tick".into(),
            ..Default::default()
        }],
        ..metric("slot0")
    };
    assert_eq!(
        infer_metric_names(&m, &func("slot0")).expect("names"),
        vec!["slot0_tick"]
    );
}

#[test]
fn unnamed_outputs_are_numbered() {
    assert_eq!(
        infer_metric_names(&metric("pair"), &func("pair")).expect("names"),
        vec!["pair_0", "pair_1"]
    );
}

#[test]
fn named_field_and_named_output_append_their_names() {
    let field = Metric {
        outputs: vec![Output {
            field: "tick".into(),
            name: "currentTick".into(),
            ..Default::default()
        }],
        ..metric("slot0")
    };
    assert_eq!(
        infer_metric_names(&field, &func("slot0")).expect("names"),
        vec!["slot0_current_tick"]
    );
    let output = Metric {
        outputs: vec![Output {
            index: 2,
            name: "ts".into(),
            ..Default::default()
        }],
        ..metric("getReserves")
    };
    assert_eq!(
        infer_metric_names(&output, &func("getReserves")).expect("names"),
        vec!["get_reserves_ts"]
    );
}

#[test]
fn names_of_missing_outputs_and_fields_are_refused() {
    let missing = Metric {
        outputs: vec![Output {
            index: 3,
            ..Default::default()
        }],
        ..metric("getReserves")
    };
    assert!(matches!(
        infer_metric_names(&missing, &func("getReserves")),
        Err(AbiErrorOf::OutputOutOfRange { index: 3 })
    ));
    let field = Metric {
        outputs: vec![Output {
            field: "nope".into(),
            ..Default::default()
        }],
        ..metric("slot0")
    };
    assert!(matches!(
        infer_metric_names(&field, &func("slot0")),
        Err(AbiErrorOf::FieldMissing { .. })
    ));
}
