use evm_contract_exporter::labels::Labels;
use evm_contract_exporter::text::{decimal_text, prefixed_hex};

fn listed(l: &Labels) -> Vec<(String, String)> {
    (0..l.len())
        .map(|i| (l.key(i).clone(), l.value(i).clone()))
        .collect()
}

#[test]
fn labels_are_kept_in_key_order() {
    let mut l = Labels::new();
    for k in ["b", "a", "ab", "B", "ä"] {
        l.insert(k.to_string(), k.to_uppercase());
    }
    l.insert("a".to_string(), "again".to_string());
    let keys: Vec<String> = listed(&l).into_iter().map(|(k, _)| k).collect();
    assert_eq!(keys, vec!["B", "a", "ab", "b", "ä"]);
    assert_eq!(l.get("a").map(String::as_str), Some("again"));
    assert_eq!(l.get("c"), None);
}

#[test]
fn overlaid_labels_win() {
    let mut low = Labels::new();
    low.insert("k".to_string(), "low".to_string());
    low.insert("only".to_string(), "x".to_string());
    let mut high = Labels::new();
    high.insert("k".to_string(), "high".to_string());
    low.overlay(&high);
    assert_eq!(
        listed(&low.duplicate()),
        vec![
            ("k".to_string(), "high".to_string()),
            ("only".to_string(), "x".to_string())
        ]
    );
}

#[test]
fn numerals_and_hexadecimal_texts() {
    assert_eq!(decimal_text(0), "0");
    assert_eq!(decimal_text(u64::MAX), "18446744073709551615");
    assert_eq!(prefixed_hex(&[0x00, 0xab, 0x0f]), "0x00ab0f");
}
