use evm_contract_exporter::config::abi::find_function;
use evm_contract_exporter::decoder::{
    convert_value, decode, read_value, DecodeErrorOf, DecodeTarget, Reading, ReadingOf,
};
use evm_contract_exporter::sol::{parse_abi, AbiFunction, Decoded, Shape};

fn func(abi: &str, name: &str) -> AbiFunction {
    let abi = parse_abi(abi).expect("abi");
    find_function(&abi, name).expect("fn").duplicate()
}

fn target(function: AbiFunction, field_index: Option<usize>, scale: f64) -> DecodeTarget {
    DecodeTarget {
        function,
        output_index: 0,
        field_index,
        scale_bits: scale.to_bits(),
    }
}

fn word(v: u128) -> Vec<u8> {
    let mut w = vec![0u8; 16];
    w.extend_from_slice(&v.to_be_bytes());
    w
}

fn negative(v: i128) -> Vec<u8> {
    let mut w = vec![0xffu8; 16];
    w.extend_from_slice(&v.to_be_bytes());
    w
}

fn digits(r: &Reading) -> (&str, f64) {
    match r {
        ReadingOf::Number { digits, scale_bits } => (digits, f64::from_bits(*scale_bits)),
        ReadingOf::Flag(_) => panic!("flag"),
    }
}

#[test]
fn decodes_uint_with_scale() {
    let abi = r#"[{"type":"function","name":"apr","inputs":[],"outputs":[{"name":"","type":"uint256"}],"stateMutability":"view"}]"#;
    let data = word(50_000_000_000_000_000);
    let r = decode(&data, &target(func(abi, "apr"), None, 1e18)).expect("decode");
    let (text, scale) = digits(&r);
    assert_eq!(text, "50000000000000000");
    let v = text.parse::<f64>().expect("digits") / scale;
    assert!((v - 0.05).abs() < 1e-12);
}

#[test]
fn decodes_bool() {
    let abi = r#"[{"type":"function","name":"ok","inputs":[],"outputs":[{"name":"","type":"bool"}],"stateMutability":"view"}]"#;
    let r = decode(&word(1), &target(func(abi, "ok"), None, 1.0)).expect("decode");
    assert!(matches!(r, ReadingOf::Flag(true)));
    let r = decode(&word(0), &target(func(abi, "ok"), None, 1e18)).expect("decode");
    assert!(matches!(r, ReadingOf::Flag(false)));
}

#[test]
fn rejects_address_output() {
    let abi = r#"[{"type":"function","name":"vault","inputs":[],"outputs":[{"name":"","type":"address"}],"stateMutability":"view"}]"#;
    let err = decode(&word(0), &target(func(abi, "vault"), None, 1.0)).expect_err("address");
    assert!(matches!(err, DecodeErrorOf::Unsupported(_)));
    assert_eq!(
        err.message(),
        "decoder: unsupported return type for numeric metric: Address(0x0000000000000000000000000000000000000000)"
    );
}

const SLOT0: &str = r#"[{"type":"function","name":"slot0","inputs":[],"outputs":[{"name":"","type":"tuple","components":[{"name":"price","type":"uint160"},{"name":"tick","type":"int24"}]}],"stateMutability":"view"}]"#;

#[test]
fn selects_tuple_field() {
    let mut data = word(1000);
    data.extend(negative(-42));
    let r = decode(&data, &target(func(SLOT0, "slot0"), Some(1), 1.0)).expect("decode");
    assert_eq!(digits(&r), ("-42", 1.0));
    let r = decode(&data, &target(func(SLOT0, "slot0"), Some(0), 1.0)).expect("decode");
    assert_eq!(digits(&r), ("1000", 1.0));
}

#[test]
fn huge_integers_keep_all_digits() {
    let abi = r#"[{"type":"function","name":"big","inputs":[],"outputs":[{"name":"","type":"uint256"}],"stateMutability":"view"}]"#;
    let r = decode(&[0xff; 32], &target(func(abi, "big"), None, 1.0)).expect("decode");
    assert_eq!(
        digits(&r).0,
        "115792089237316195423570985008687907853269984665640564039457584007913129639935"
    );
    let abi = abi.replace("uint256", "int256");
    let mut least = [0u8; 32];
    least[0] = 0x80;
    let r = decode(&least, &target(func(&abi, "big"), None, 1.0)).expect("decode");
    assert_eq!(
        digits(&r).0,
        "-57896044618658097711785492504343953926634992332820282019728792003956564819968"
    );
}

#[test]
fn unset_scale_is_one() {
    let abi = r#"[{"type":"function","name":"n","inputs":[],"outputs":[{"name":"","type":"uint8"}],"stateMutability":"view"}]"#;
    for scale in [0.0, -0.0, 1.0] {
        let r = decode(&word(7), &target(func(abi, "n"), None, scale)).expect("decode");
        assert_eq!(digits(&r), ("7", 1.0));
    }
}

#[test]
fn data_that_does_not_fit_is_refused() {
    let f = || func(SLOT0, "slot0");
    let none = func(
        r#"[{"type":"function","name":"n","inputs":[],"outputs":[],"stateMutability":"view"}]"#,
        "n",
    );
    assert_eq!(
        decode(&[], &target(none, None, 1.0))
            .expect_err("none")
            .message(),
        "decoder: method \"n\" has no outputs"
    );
    let mut beyond = target(f(), None, 1.0);
    beyond.output_index = 3;
    assert_eq!(
        decode(&[], &beyond).expect_err("range").message(),
        "decoder: output index 3 out of range for \"slot0\" (1 outputs)"
    );
    assert!(decode(&[1, 2, 3], &target(f(), None, 1.0))
        .expect_err("short")
        .message()
        .starts_with("decoder: unpack \"slot0\": "));
    let mut data = word(1);
    data.extend(word(2));
    assert_eq!(
        decode(&data, &target(f(), Some(2), 1.0))
            .expect_err("field")
            .message(),
        "decoder: tuple field index 2 out of range for \"slot0\""
    );
    assert!(matches!(
        decode(&data, &target(f(), None, 1.0)),
        Err(DecodeErrorOf::Unsupported(_))
    ));
}

fn decoded(shape: Shape) -> Decoded {
    Decoded {
        shape,
        form: "shown".into(),
    }
}

#[test]
fn returned_values_are_selected() {
    let t = target(func(SLOT0, "slot0"), Some(0), 1.0);
    assert_eq!(
        read_value(&vec![], &t).expect_err("empty").message(),
        "decoder: unpacked 0 values, need index 0"
    );
    assert_eq!(
        read_value(&vec![decoded(Shape::Bool(true))], &t)
            .expect_err("scalar")
            .message(),
        "decoder: field set but output 0 of \"slot0\" is not a tuple (shown)"
    );
    let tuple = decoded(Shape::Tuple(vec![decoded(Shape::Int([0xff; 32]))]));
    assert_eq!(
        digits(&read_value(&vec![tuple], &t).expect("field")),
        ("-1", 1.0)
    );
    assert!(convert_value(&decoded(Shape::Array), 0).is_err());
    assert!(convert_value(&decoded(Shape::String), 0).is_err());
}
