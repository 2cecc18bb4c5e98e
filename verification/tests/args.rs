use evm_contract_exporter::config::abi::find_function;
use evm_contract_exporter::config::args::{convert_args, strip_0x, ArgErrorOf, ArgFaultOf};
use evm_contract_exporter::sol::{parse_abi, AbiFunction, SolValue};
use evm_contract_exporter::text::{decimal_text, prefixed_hex};
use evm_contract_exporter::words::{is_int, is_uint as is_uint_word};
use evm_contract_exporter::yaml::YamlValue;

fn func(sig_abi: &str, name: &str) -> AbiFunction {
    let abi = parse_abi(sig_abi).expect("abi");
    find_function(&abi, name).expect("fn").duplicate()
}

fn taking(ty: &str) -> AbiFunction {
    func(
        &format!(
            r#"[{{"type":"function","name":"f","inputs":[{{"name":"x","type":"{ty}"}}],"outputs":[],"stateMutability":"view"}}]"#
        ),
        "f",
    )
}

fn text(s: &str) -> YamlValue {
    YamlValue::String(s.into())
}

fn number(s: &str) -> YamlValue {
    YamlValue::Number(s.into())
}

fn word(last: u8) -> [u8; 32] {
    let mut w = [0u8; 32];
    w[31] = last;
    w
}

fn is_uint(got: &[SolValue], w: [u8; 32], n: usize) -> bool {
    got.len() == 1 && matches!(&got[0], SolValue::Uint(v, bits) if *v == w && *bits == n)
}

fn fault(f: &AbiFunction, v: YamlValue) -> String {
    convert_args(f, &vec![v]).expect_err("refused").message()
}

#[test]
fn converts_address() {
    let f = func(
        r#"[{"type":"function","name":"f","inputs":[{"name":"a","type":"address"}],"outputs":[],"stateMutability":"view"}]"#,
        "f",
    );
    let args = vec![text("0x0000000000000000000000000000000000000001")];
    let got = convert_args(&f, &args).expect("convert");
    let mut want = [0u8; 20];
    want[19] = 1;
    assert_eq!(got.len(), 1);
    assert!(matches!(&got[0], SolValue::Address(a) if *a == want));
}

#[test]
fn converts_uint_from_number_and_string() {
    let f = taking("uint256");
    let from_num = convert_args(&f, &vec![number("42")]).expect("num");
    let from_dec = convert_args(&f, &vec![text("42")]).expect("dec");
    let from_hex = convert_args(&f, &vec![text("0x2a")]).expect("hex");
    let from_padded = convert_args(&f, &vec![text(" 42\n")]).expect("padded");
    for got in [from_num, from_dec, from_hex, from_padded] {
        assert!(is_uint(&got, word(42), 256));
    }
}

#[test]
fn converts_bool() {
    let f = func(
        r#"[{"type":"function","name":"f","inputs":[{"name":"b","type":"bool"}],"outputs":[],"stateMutability":"view"}]"#,
        "f",
    );
    let got = convert_args(&f, &vec![YamlValue::Bool(true)]).expect("bool");
    assert_eq!(got.len(), 1);
    assert!(matches!(got[0], SolValue::Bool(true)));
}

#[test]
fn converts_fixed_bytes() {
    let f = func(
        r#"[{"type":"function","name":"f","inputs":[{"name":"s","type":"bytes4"}],"outputs":[],"stateMutability":"view"}]"#,
        "f",
    );
    let got = convert_args(&f, &vec![text("0xdeadbeef")]).expect("b4");
    let mut want = [0u8; 32];
    want[..4].copy_from_slice(&[0xde, 0xad, 0xbe, 0xef]);
    assert_eq!(got.len(), 1);
    assert!(matches!(&got[0], SolValue::FixedBytes(w, 4) if *w == want));
}

#[test]
fn args_rejects_arg_count_mismatch() {
    let f = func(
        r#"[{"type":"function","name":"f","inputs":[{"name":"x","type":"uint256"}],"outputs":[],"stateMutability":"view"}]"#,
        "f",
    );
    let err = convert_args(&f, &vec![]).expect_err("count");
    assert!(matches!(
        err,
        ArgErrorOf::Count {
            expected: 1,
            got: 0,
            ..
        }
    ));
    assert_eq!(err.message(), "function \"f\" expects 1 argument(s), got 0");
}

#[test]
fn rejects_wrong_kind() {
    let f = func(
        r#"[{"type":"function","name":"f","inputs":[{"name":"a","type":"address"}],"outputs":[],"stateMutability":"view"}]"#,
        "f",
    );
    let err = convert_args(&f, &vec![YamlValue::Bool(true)]).expect_err("kind");
    assert!(matches!(
        err,
        ArgErrorOf::Argument {
            index: 0,
            fault: ArgFaultOf::Address { .. },
            ..
        }
    ));
    assert!(err
        .message()
        .starts_with("args[0] (address): invalid address \"true\": "));
}

#[test]
fn converts_signed_integers() {
    let f = taking("int24");
    let got = convert_args(&f, &vec![number("-42")]).expect("neg");
    let mut want = [0xffu8; 32];
    want[31] = 0xd6;
    assert!(matches!(&got[0], SolValue::Int(w, 24) if *w == want));
    let got = convert_args(&f, &vec![text(" +0x10 ")]).expect("hex");
    assert!(matches!(&got[0], SolValue::Int(w, 24) if *w == word(16)));
}

#[test]
fn signed_words_end_at_their_limits() {
    let f = taking("int256");
    let least = "-57896044618658097711785492504343953926634992332820282019728792003956564819968";
    let got = convert_args(&f, &vec![text(least)]).expect("least");
    let mut want = [0u8; 32];
    want[0] = 0x80;
    assert!(matches!(&got[0], SolValue::Int(w, 256) if *w == want));
    let too_large = "57896044618658097711785492504343953926634992332820282019728792003956564819968";
    assert!(fault(&f, text(too_large)).starts_with("args[0] (int256): invalid int "));
}

#[test]
fn unsigned_words_end_at_their_limit() {
    let f = taking("uint256");
    let largest = format!("0x{}", "f".repeat(64));
    let got = convert_args(&f, &vec![text(&largest)]).expect("largest");
    assert!(is_uint(&got, [0xff; 32], 256));
    let beyond = format!("0x1{}", "0".repeat(64));
    assert!(fault(&f, text(&beyond)).starts_with("args[0] (uint256): invalid hex uint "));
}

#[test]
fn underscores_are_skipped_and_empty_is_zero() {
    let f = taking("uint8");
    let got = convert_args(&f, &vec![text("1_0")]).expect("underscore");
    assert!(is_uint(&got, word(10), 8));
    let got = convert_args(&f, &vec![text("0x")]).expect("empty");
    assert!(is_uint(&got, word(0), 8));
}

#[test]
fn converts_texts_and_byte_strings() {
    let got = convert_args(&taking("string"), &vec![YamlValue::Bool(true)]).expect("string");
    assert!(matches!(&got[0], SolValue::String(s) if s == "true"));
    let got = convert_args(&taking("string"), &vec![number("1.5")]).expect("string");
    assert!(matches!(&got[0], SolValue::String(s) if s == "1.5"));
    let got = convert_args(&taking("bytes"), &vec![text(" 0X0aFF ")]).expect("bytes");
    assert!(matches!(&got[0], SolValue::Bytes(b) if b == &vec![0x0a, 0xff]));
}

#[test]
fn refuses_values_of_other_kinds() {
    assert_eq!(
        fault(&taking("bool"), number("1")),
        "args[0] (bool): expected bool, got Number(1)"
    );
    assert_eq!(
        fault(&taking("uint8"), YamlValue::Null),
        "args[0] (uint8): expected uint scalar, got Null"
    );
    assert_eq!(
        fault(&taking("int8"), YamlValue::Bool(true)),
        "args[0] (int8): expected int scalar, got Bool(true)"
    );
    assert_eq!(
        fault(&taking("string"), YamlValue::Sequence(vec![])),
        "args[0] (string): expected string scalar, got Sequence []"
    );
    assert_eq!(
        fault(&taking("bytes4"), text("0xdead")),
        "args[0] (bytes4): bytes4 expects 4 bytes, got 2"
    );
    assert_eq!(
        fault(&taking("uint256[]"), text("1")),
        "args[0] (uint256[]): unsupported argument type Array(Uint(256))"
    );
}

#[test]
fn integers_stay_within_their_width() {
    let u8s = taking("uint8");
    assert!(is_uint(&convert_args(&u8s, &vec![number("255")]).expect("255"), word(255), 8));
    assert_eq!(
        fault(&u8s, number("256")),
        "args[0] (uint8): 256 does not fit in uint8"
    );
    assert_eq!(
        fault(&u8s, text("0x12c")),
        "args[0] (uint8): 300 does not fit in uint8"
    );
    let err = convert_args(&u8s, &vec![number("300")]).expect_err("300");
    assert!(matches!(
        &err,
        ArgErrorOf::Argument {
            index: 0,
            fault: ArgFaultOf::UintRange { value, bits: 8 },
            ..
        } if value == "300"
    ));
    let i8s = taking("int8");
    assert!(convert_args(&i8s, &vec![number("127")]).is_ok());
    assert!(convert_args(&i8s, &vec![number("-128")]).is_ok());
    assert_eq!(
        fault(&i8s, number("128")),
        "args[0] (int8): 128 does not fit in int8"
    );
    assert_eq!(
        fault(&i8s, text("-129")),
        "args[0] (int8): -129 does not fit in int8"
    );
    assert!(convert_args(&taking("uint24"), &vec![number("16777215")]).is_ok());
    assert!(convert_args(&taking("uint24"), &vec![number("16777216")]).is_err());
    assert!(convert_args(&taking("int16"), &vec![number("-32768")]).is_ok());
    assert!(convert_args(&taking("int16"), &vec![number("-32769")]).is_err());
}

#[test]
fn widths_need_not_be_whole_bytes() {
    assert!(is_uint_word(&word(7), 3));
    assert!(!is_uint_word(&word(8), 3));
    assert!(is_uint_word(&word(0), 0));
    assert!(!is_uint_word(&word(1), 0));
    assert!(is_uint_word(&[0xff; 32], 256));
    assert!(!is_uint_word(&[0xff; 32], 255));
    assert!(is_int(&[0xff; 32], 1));
    assert!(!is_int(&word(1), 1));
    assert!(!is_int(&word(0), 0));
    assert!(is_int(&word(3), 3));
    assert!(!is_int(&word(4), 3));
}

#[test]
fn refused_values_are_shown_in_full() {
    let pairs = vec![
        (text("k"), number("1.5")),
        (number("2"), YamlValue::Bool(false)),
        (YamlValue::Null, YamlValue::Tagged("t".into(), Box::new(text("v")))),
    ];
    let value = YamlValue::Sequence(vec![YamlValue::Mapping(pairs)]);
    let raw = "- {k: 1.5, 2: false, null: !t v}";
    let outside: serde_yaml_ng::Value = serde_yaml_ng::from_str(raw).expect("yaml");
    let want = format!("args[0] (bool): expected bool, got {outside:?}");
    assert_eq!(fault(&taking("bool"), value), want);
    assert_eq!(
        want,
        "args[0] (bool): expected bool, got Sequence [Mapping {\"k\": Number(1.5), 2: Bool(false), Null: TaggedValue { tag: !t, value: String(\"v\") }}]"
    );
}

#[test]
fn unsupported_types_are_shown_in_full() {
    let f = func(
        r#"[{"type":"function","name":"f","inputs":[{"name":"x","type":"tuple","components":[{"name":"a","type":"uint8"},{"name":"b","type":"bool[2]"}]}],"outputs":[],"stateMutability":"view"}]"#,
        "f",
    );
    assert_eq!(
        fault(&f, text("1")),
        "args[0] (tuple): unsupported argument type Tuple([Uint(8), FixedArray(Bool, 2)])"
    );
}

#[test]
fn refuses_texts_that_do_not_parse() {
    assert!(fault(&taking("uint8"), number("-1")).starts_with("args[0] (uint8): invalid uint -1: "));
    assert!(
        fault(&taking("uint8"), text("x")).starts_with("args[0] (uint8): invalid uint \"x\": ")
    );
    assert!(
        fault(&taking("int8"), text(" x ")).starts_with("args[0] (int8): invalid int \"x\": ")
    );
    assert!(fault(&taking("bytes"), text("0xabc"))
        .starts_with("args[0] (bytes): invalid hex bytes \"0xabc\": "));
    assert!(fault(&taking("address"), text("0x01"))
        .starts_with("args[0] (address): invalid address \"0x01\": "));
}

#[test]
fn refuses_types_that_are_not_known() {
    let err = convert_args(&taking("uint7"), &vec![text("1")]).expect_err("type");
    assert!(matches!(err, ArgErrorOf::Type { index: 0, .. }));
    assert!(err
        .message()
        .starts_with("resolve type of args[0] (uint7): "));
}

#[test]
fn prefix_is_stripped_once() {
    assert_eq!(strip_0x("0xab"), "ab");
    assert_eq!(strip_0x("0Xab"), "ab");
    assert_eq!(strip_0x("0x0xab"), "0xab");
    assert_eq!(strip_0x("ab"), "ab");
    assert_eq!(strip_0x("0"), "0");
}

#[test]
fn printed_addresses_and_numbers_read_back() {
    let address: [u8; 20] = [0xab; 20];
    let got = convert_args(&taking("address"), &vec![text(&prefixed_hex(&address))]).expect("address");
    assert!(matches!(&got[0], SolValue::Address(a) if *a == address));
    let got = convert_args(&taking("uint64"), &vec![text(&decimal_text(u64::MAX))]).expect("uint");
    let mut want = [0u8; 32];
    want[24..].copy_from_slice(&u64::MAX.to_be_bytes());
    assert!(is_uint(&got, want, 64));
}
