use compose_sidecar::assoc::StrMap;
use compose_sidecar::hex::{hex_encode, prefixed_hex, push_decimal};
use compose_sidecar::mailbox_overrides::{
    apply_bytes_to_state_diff, build_mailbox_state_overrides, encode_short_bytes, mailbox_key, mapping_slot,
};
use compose_sidecar::overrides::{
    map_to_json_object, merge_state_override_values, merge_state_overrides, normalize_hex_map, parse_state_overrides,
    AccountOverride, FieldValue, OverridesValue, SlotValue, StateOverrides,
};
use compose_sidecar::primitives::{ChainId, CrossRollupDependency};

fn fields(pairs: &[(&str, FieldValue)]) -> AccountOverride {
    let mut m = StrMap::new();
    for (k, v) in pairs {
        let v = match v {
            FieldValue::Text(s) => FieldValue::Text(s.clone()),
            FieldValue::Other(s) => FieldValue::Other(s.clone()),
            FieldValue::Object(_) => panic!("use slots()"),
        };
        m.insert(k.to_string(), v);
    }
    AccountOverride::Fields(m)
}

fn text(s: &str) -> FieldValue {
    FieldValue::Text(s.to_string())
}

fn slots(pairs: &[(&str, &str)]) -> FieldValue {
    let mut m = StrMap::new();
    for (k, v) in pairs {
        m.insert(k.to_string(), SlotValue::Hex(v.to_string()));
    }
    FieldValue::Object(m)
}

fn state_diff_doc(account: &str, pairs: &[(&str, &str)]) -> StateOverrides {
    let mut f = StrMap::new();
    f.insert("stateDiff".to_string(), slots(pairs));
    let mut doc = StrMap::new();
    doc.insert(account.to_string(), AccountOverride::Fields(f));
    doc
}

fn word(n: u64) -> [u8; 32] {
    alloy_primitives::U256::from(n).to_be_bytes::<32>()
}

#[test]
fn merge_overrides() {
    let mut base: StateOverrides = StrMap::new();
    base.insert("0xabc".to_string(), fields(&[("nonce", text("0x1"))]));
    let mut other: StateOverrides = StrMap::new();
    other.insert("0xabc".to_string(), fields(&[("balance", text("0x100"))]));
    other.insert("0xdef".to_string(), fields(&[("nonce", text("0x0"))]));
    merge_state_overrides(&mut base, &other);
    assert_eq!(base.len(), 2);

    match base.get(&"0xabc".to_string()).unwrap() {
        AccountOverride::Fields(abc) => {
            assert!(abc.contains_key(&"nonce".to_string()));
            assert!(abc.contains_key(&"balance".to_string()));
        }
        other => panic!("unexpected {:?}", other),
    }
}

#[test]
fn builds_mailbox_overrides_for_fulfilled_dep() {
    let dep = CrossRollupDependency {
        source_chain_id: ChainId(77777),
        dest_chain_id: ChainId(88888),
        sender: [0x11; 20],
        receiver: [0x22; 20],
        label: b"SEND".to_vec(),
        data: Some(vec![1, 2, 3]),
        session_id: Some(word(42)),
    };
    let mailbox: alloy_primitives::Address = "0xe5d5d610fb9767df117f4076444b45404201a097".parse().unwrap();

    let overrides = build_mailbox_state_overrides(ChainId(88888), &mailbox.0 .0, &vec![dep]).unwrap();

    assert_eq!(overrides.len(), 1);
    match overrides.value_at(0) {
        AccountOverride::Fields(account) => assert!(account.contains_key(&"stateDiff".to_string())),
        other => panic!("unexpected {:?}", other),
    }
    assert_eq!(overrides.key_at(0), "0xe5d5d610fb9767df117f4076444b45404201a097");
}

#[test]
fn merge_value_overrides_merges_state_diff() {
    let base = OverridesValue::Object(state_diff_doc("0xabc", &[("0x01", "0x10")]));
    let overlay = OverridesValue::Object(state_diff_doc("0xabc", &[("0x02", "0x20")]));

    let merged = merge_state_override_values(&base, &overlay);
    let doc = match merged {
        OverridesValue::Object(m) => m,
        other => panic!("unexpected {:?}", other),
    };
    let diff = match doc.get(&"0xabc".to_string()) {
        Some(AccountOverride::Fields(f)) => match f.get(&"stateDiff".to_string()) {
            Some(FieldValue::Object(m)) => m,
            other => panic!("unexpected {:?}", other),
        },
        other => panic!("unexpected {:?}", other),
    };
    assert_eq!(diff.len(), 2);
    assert!(matches!(diff.get(&"0x01".to_string()), Some(SlotValue::Hex(s)) if s == "0x10"));
    assert!(matches!(diff.get(&"0x02".to_string()), Some(SlotValue::Hex(s)) if s == "0x20"));
}

#[test]
fn new_state_replaces_storage_and_drops_state_diff() {
    let mut base = state_diff_doc("0xabc", &[("0x01", "0x10")]);
    let mut f = StrMap::new();
    f.insert("state".to_string(), slots(&[("0x05", "0x50")]));
    let mut other: StateOverrides = StrMap::new();
    other.insert("0xabc".to_string(), AccountOverride::Fields(f));
    merge_state_overrides(&mut base, &other);
    match base.get(&"0xabc".to_string()).unwrap() {
        AccountOverride::Fields(f) => {
            assert!(f.get(&"stateDiff".to_string()).is_none());
            assert!(matches!(f.get(&"state".to_string()), Some(FieldValue::Object(m)) if m.len() == 1));
        }
        other => panic!("unexpected {:?}", other),
    }
}

#[test]
fn non_object_override_replaces_account() {
    let mut base = state_diff_doc("0xabc", &[("0x01", "0x10")]);
    let mut other: StateOverrides = StrMap::new();
    other.insert("0xabc".to_string(), AccountOverride::Other("null".to_string()));
    merge_state_overrides(&mut base, &other);
    assert!(matches!(base.get(&"0xabc".to_string()), Some(AccountOverride::Other(s)) if s == "null"));

    let empty: StateOverrides = StrMap::new();
    let mut same = state_diff_doc("0xabc", &[("0x01", "0x10")]);
    merge_state_overrides(&mut same, &empty);
    assert_eq!(same.len(), 1);
}

#[test]
fn parse_and_normalize() {
    assert_eq!(parse_state_overrides(&None).len(), 0);
    assert_eq!(parse_state_overrides(&Some(OverridesValue::Other("[]".to_string()))).len(), 0);
    assert_eq!(parse_state_overrides(&Some(OverridesValue::Object(state_diff_doc("0xabc", &[])))).len(), 1);

    let mut m = StrMap::new();
    m.insert("0x01".to_string(), SlotValue::Hex("0x10".to_string()));
    m.insert("0x02".to_string(), SlotValue::Other("7".to_string()));
    let normalized = normalize_hex_map(&FieldValue::Object(m));
    assert_eq!(normalized.len(), 1);
    assert_eq!(normalized.get(&"0x01".to_string()).unwrap(), "0x10");
    assert_eq!(normalize_hex_map(&text("0x1")).len(), 0);
    match map_to_json_object(&normalized) {
        FieldValue::Object(back) => assert!(matches!(back.get(&"0x01".to_string()), Some(SlotValue::Hex(s)) if s == "0x10")),
        other => panic!("unexpected {:?}", other),
    }
}

#[test]
fn mapping_slot_hashes_key_and_slot() {
    let key = [0xabu8; 32];
    let mut preimage = key.to_vec();
    preimage.extend_from_slice(&word(4));
    let expected = alloy_primitives::keccak256(&preimage).0;
    let slot = mapping_slot(&key, 4);
    assert_eq!(slot, expected);
    assert_ne!(slot, key);
}

#[test]
fn keccak_of_empty_input() {
    // keccak256("") through the inbox key of a dependency is not the input.
    let empty = alloy_primitives::keccak256(b"").0;
    assert_eq!(
        hex_encode(&empty),
        "c5d2460186f7233c927e7db2dcc703c0e500b653ca82273b7bfad8045d85a470"
    );
    let dep = CrossRollupDependency {
        source_chain_id: ChainId(1),
        dest_chain_id: ChainId(2),
        sender: [0; 20],
        receiver: [0; 20],
        label: Vec::new(),
        data: Some(Vec::new()),
        session_id: Some(word(0)),
    };
    let mut preimage = word(1).to_vec();
    preimage.extend_from_slice(&word(2));
    preimage.extend_from_slice(&[0u8; 40]);
    preimage.extend_from_slice(&word(0));
    assert_eq!(mailbox_key(ChainId(2), &dep), Some(alloy_primitives::keccak256(&preimage).0));
    let no_session = CrossRollupDependency { session_id: None, ..dep };
    assert_eq!(mailbox_key(ChainId(2), &no_session), None);
}

#[test]
fn short_and_long_bytes_storage() {
    let w = encode_short_bytes(b"abc");
    let mut expected = [0u8; 32];
    expected[..3].copy_from_slice(b"abc");
    expected[31] = 6;
    assert_eq!(w, expected);

    let slot = word(9);
    let mut diff: StrMap<String> = StrMap::new();
    apply_bytes_to_state_diff(&mut diff, &slot, b"abc");
    assert_eq!(diff.len(), 1);
    assert_eq!(diff.get(&prefixed_hex(&slot)).unwrap(), &prefixed_hex(&expected));

    let data: Vec<u8> = (0u8..40).collect();
    let mut diff: StrMap<String> = StrMap::new();
    apply_bytes_to_state_diff(&mut diff, &slot, &data);
    assert_eq!(diff.len(), 3);
    assert_eq!(diff.get(&prefixed_hex(&slot)).unwrap(), &prefixed_hex(&word(81)));
    let base = alloy_primitives::U256::from_be_bytes(alloy_primitives::keccak256(slot).0);
    let second = (base + alloy_primitives::U256::from(1u64)).to_be_bytes::<32>();
    let mut chunk = [0u8; 32];
    chunk[..8].copy_from_slice(&data[32..]);
    assert_eq!(diff.get(&prefixed_hex(&second)).unwrap(), &prefixed_hex(&chunk));
}

#[test]
fn dependency_for_another_chain_writes_nothing() {
    let dep = CrossRollupDependency {
        source_chain_id: ChainId(77777),
        dest_chain_id: ChainId(99999),
        sender: [0x11; 20],
        receiver: [0x22; 20],
        label: b"SEND".to_vec(),
        data: Some(vec![1]),
        session_id: Some(word(1)),
    };
    assert!(build_mailbox_state_overrides(ChainId(88888), &[0x33; 20], &vec![dep]).is_none());
}

#[test]
fn hex_and_decimal_text() {
    assert_eq!(hex_encode(&[0x00, 0xab, 0x10]), "00ab10");
    assert_eq!(prefixed_hex(&[0xff]), "0xff");
    let mut s = String::from("n=");
    push_decimal(&mut s, 0);
    push_decimal(&mut s, 18446744073709551615);
    assert_eq!(s, "n=018446744073709551615");
}

#[test]
fn merging_the_same_overrides_twice_changes_nothing() {
    let mut base = state_diff_doc("0xabc", &[("0x01", "0x10")]);
    let other = state_diff_doc("0xabc", &[("0x02", "0x20")]);
    let mut extra = state_diff_doc("0xdef", &[("0x03", "0x30")]);
    merge_state_overrides(&mut extra, &other);
    merge_state_overrides(&mut base, &other);
    merge_state_overrides(&mut base, &other);
    let diff = match base.get(&"0xabc".to_string()) {
        Some(AccountOverride::Fields(f)) => match f.get(&"stateDiff".to_string()) {
            Some(FieldValue::Object(m)) => m.len(),
            other => panic!("unexpected {:?}", other),
        },
        other => panic!("unexpected {:?}", other),
    };
    assert_eq!(diff, 2);
    assert_eq!(base.len(), 1);
    assert_eq!(extra.len(), 2);
}
