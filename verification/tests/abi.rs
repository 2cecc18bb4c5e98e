use evm_contract_exporter::config::abi::{
    output_scalar_is_numeric, resolve_function, resolve_tuple_field, AbiErrorOf,
};
use evm_contract_exporter::sol::{parse_abi, JsonAbi, SolType, StateMutability};

const ABI: &str = r#"[
  {"type":"function","name":"apy","inputs":[],"outputs":[{"name":"annualYield","type":"uint256"}],"stateMutability":"view"},
  {"type":"function","name":"poke","inputs":[],"outputs":[],"stateMutability":"nonpayable"},
  {"type":"function","name":"slot0","inputs":[],"outputs":[{"name":"","type":"tuple","components":[{"name":"price","type":"uint160"},{"name":"tick","type":"int24"}]}],"stateMutability":"view"}
]"#;

fn abi() -> JsonAbi {
    parse_abi(ABI).expect("valid abi")
}

#[test]
fn resolve_function_ok_for_view() {
    let a = abi();
    assert_eq!(resolve_function(&a, "apy").expect("found").name, "apy");
}

#[test]
fn resolve_function_rejects_non_view() {
    let a = abi();
    let err = resolve_function(&a, "poke").expect_err("refused");
    assert!(matches!(
        err,
        AbiErrorOf::NotViewOrPure {
            state_mutability: StateMutability::NonPayable,
            ..
        }
    ));
    assert_eq!(
        err.message(),
        "function \"poke\" must be view or pure (got NonPayable)"
    );
}

#[test]
fn resolve_function_missing() {
    let a = abi();
    let err = resolve_function(&a, "nope").expect_err("missing");
    assert!(matches!(err, AbiErrorOf::FunctionMissing { .. }));
    assert_eq!(err.message(), "function \"nope\" not found in ABI");
}

#[test]
fn resolve_tuple_field_by_name() {
    let a = abi();
    let f = resolve_function(&a, "slot0").expect("found");
    let (idx, name) = resolve_tuple_field(f, 0, "tick").expect("resolved");
    assert_eq!((idx, name.as_str()), (1, "tick"));
}

#[test]
fn resolve_tuple_field_unknown() {
    let a = abi();
    let f = resolve_function(&a, "slot0").expect("found");
    let err = resolve_tuple_field(f, 0, "nope").expect_err("unknown");
    assert_eq!(
        err.message(),
        "tuple field \"nope\" not found in output 0 of \"slot0\"; available: [\"price\", \"tick\"]"
    );
}

#[test]
fn fields_of_other_outputs_are_refused() {
    let a = abi();
    let f = resolve_function(&a, "apy").expect("found");
    assert_eq!(
        resolve_tuple_field(f, 0, "x").expect_err("scalar").message(),
        "field \"x\" selected but output 0 of \"apy\" is uint256, not a tuple"
    );
    assert_eq!(
        resolve_tuple_field(f, 7, "x").expect_err("range").message(),
        "output index 7 out of range"
    );
}

#[test]
fn first_of_several_functions_of_a_name_is_taken() {
    let a = parse_abi(
        r#"[
      {"type":"function","name":"b","inputs":[],"outputs":[],"stateMutability":"pure"},
      {"type":"function","name":"f","inputs":[{"name":"x","type":"uint8"}],"outputs":[],"stateMutability":"view"},
      {"type":"function","name":"f","inputs":[],"outputs":[],"stateMutability":"payable"}
    ]"#,
    )
    .expect("abi");
    assert_eq!(resolve_function(&a, "f").expect("found").inputs.len(), 1);
    assert_eq!(
        resolve_function(&a, "b").expect("found").state_mutability,
        StateMutability::Pure
    );
}

#[test]
fn text_that_is_no_interface_is_refused() {
    assert!(parse_abi("{not json").is_err());
    assert!(parse_abi(r#"[{"type":"function"}]"#).is_err());
}

#[test]
fn numbers_and_truth_values_are_numeric() {
    assert!(output_scalar_is_numeric(&SolType::Uint(256)));
    assert!(output_scalar_is_numeric(&SolType::Int(24)));
    assert!(output_scalar_is_numeric(&SolType::Bool));
    assert!(!output_scalar_is_numeric(&SolType::Address));
    assert!(!output_scalar_is_numeric(&SolType::Tuple));
}
