use compose_sidecar::assoc::StrMap;
use compose_sidecar::overrides::{AccountOverride, FieldValue, SlotValue, StateOverrides};
use compose_sidecar::peer::{HttpPeerCoordinator, PeerEntry};
use compose_sidecar::primitives::ChainId;
use compose_sidecar::publisher::{connect_attempts, gave_up, next_attempt, publisher_action, PublisherAction, PublisherPayload};
use compose_sidecar::simulation::{
    call_args_from_fields, decode_tx, overrides_for_call, parse_call_trace, CallTrace, ChainRpcConfig, MailboxCall,
    ParsedMailbox, RpcSimulator, SignedTxFields, SimulationError, TraceErrorField,
};

fn hex_bytes(s: &str) -> Vec<u8> {
    (0..s.len()).step_by(2).map(|i| u8::from_str_radix(&s[i..i + 2], 16).unwrap()).collect()
}

fn call(label: &str, session: Option<u64>) -> MailboxCall {
    MailboxCall {
        source_chain: ChainId(77777),
        dest_chain: ChainId(88888),
        sender: [0x11; 20],
        receiver: [0x22; 20],
        label: label.to_string(),
        data: vec![9, 8],
        session_id: session,
    }
}

#[test]
fn rpc_url_lookup() {
    let sim = RpcSimulator::new(vec![
        ChainRpcConfig { chain_id: ChainId(1), rpc_url: "http://a".to_string() },
        ChainRpcConfig { chain_id: ChainId(1), rpc_url: "http://b".to_string() },
    ]);
    assert_eq!(sim.rpc_url(ChainId(1)).unwrap(), "http://b");
    match sim.rpc_url(ChainId(77777)) {
        Err(SimulationError::Other(m)) => assert_eq!(m, "no RPC configured for chain 77777"),
        other => panic!("unexpected {:?}", other),
    }
    assert!(sim.mailbox_address.is_none());
    let sim = sim.with_mailbox_address([0x44; 20]);
    assert_eq!(sim.mailbox_address, Some([0x44; 20]));
}

#[test]
fn decodes_signed_legacy_transaction() {
    // The signed transaction of the EIP-155 example.
    let raw = hex_bytes(
        "f86c098504a817c800825208943535353535353535353535353535353535353535880de0b6b3a76400008025a028ef61340bd939bc2195fe537567866003e1a15d3c71ff63e1590620aa636276a067cbe9d8997f761aecb703304b3800ccf555c9f3dc64214b297fb1966a3b6d83",
    );
    let args = decode_tx(&raw).unwrap();
    assert_eq!(args.from.to_vec(), hex_bytes("9d8a62f656a8d1615c1294fd71e9cfb3e4855a4f"));
    assert_eq!(args.gas_limit, 21000);
    assert_eq!(args.to, Some([0x35; 20]));
    assert!(args.input.is_none());
    let value = args.value.unwrap();
    assert_eq!(value, alloy_primitives::U256::from(1_000_000_000_000_000_000u64).to_be_bytes::<32>());
}

#[test]
fn undecodable_transaction_is_refused() {
    match decode_tx(&[0x01, 0x02, 0x03]) {
        Err(SimulationError::Other(m)) => assert!(m.starts_with("failed to decode tx: ")),
        other => panic!("unexpected {:?}", other),
    }
    match decode_tx(&[]) {
        Err(SimulationError::Other(m)) => assert!(m.starts_with("failed to decode tx: ")),
        other => panic!("unexpected {:?}", other),
    }
}

#[test]
fn call_arguments_leave_out_empty_input_and_zero_value() {
    let f = SignedTxFields { from: [1; 20], gas_limit: 5, to: None, input: Vec::new(), value: [0; 32] };
    let a = call_args_from_fields(f);
    assert!(a.to.is_none() && a.input.is_none() && a.value.is_none());
    let mut v = [0u8; 32];
    v[31] = 1;
    let f = SignedTxFields { from: [1; 20], gas_limit: 5, to: Some([2; 20]), input: vec![0xde, 0xad], value: v };
    let a = call_args_from_fields(f);
    assert_eq!(a.input, Some(vec![0xde, 0xad]));
    assert_eq!(a.value, Some(v));
    assert_eq!(a.to, Some([2; 20]));
}

#[test]
fn override_documents_are_checked_before_a_call() {
    let empty: StateOverrides = StrMap::new();
    assert!(matches!(overrides_for_call(&empty), Ok(None)));

    let account = format!("0x{}", "11".repeat(20));
    let slot = format!("0x{}", "00".repeat(31) + "01");
    let mut fields = StrMap::new();
    fields.insert("nonce".to_string(), FieldValue::Text("0x1".to_string()));
    let mut diff = StrMap::new();
    diff.insert(slot.clone(), SlotValue::Hex(slot.clone()));
    fields.insert("stateDiff".to_string(), FieldValue::Object(diff));
    let mut doc: StateOverrides = StrMap::new();
    doc.insert(account.clone(), AccountOverride::Fields(fields));
    let text = overrides_for_call(&doc).unwrap().unwrap();
    let expected = format!("{{\"{account}\":{{\"nonce\":\"0x1\",\"stateDiff\":{{\"{slot}\":\"{slot}\"}}}}}}");
    assert_eq!(String::from_utf8(text).unwrap(), expected);

    let mut bad_fields = StrMap::new();
    bad_fields.insert("nonce".to_string(), FieldValue::Other("true".to_string()));
    let mut bad: StateOverrides = StrMap::new();
    bad.insert("0xabc".to_string(), AccountOverride::Fields(bad_fields));
    match overrides_for_call(&bad) {
        Err(SimulationError::Other(m)) => assert!(m.starts_with("invalid state overrides payload: ")),
        other => panic!("unexpected {:?}", other),
    }
    let mut unknown = StrMap::new();
    unknown.insert("colour".to_string(), FieldValue::Text("red".to_string()));
    let mut bad: StateOverrides = StrMap::new();
    bad.insert(account, AccountOverride::Fields(unknown));
    assert!(overrides_for_call(&bad).is_err());
}

#[test]
fn override_text_escapes_strings() {
    let mut doc: StateOverrides = StrMap::new();
    doc.insert("a\"b\\c\u{1}é".to_string(), AccountOverride::Other("null".to_string()));
    let text = compose_sidecar::override_json::document_text(&doc);
    assert_eq!(String::from_utf8(text).unwrap(), "{\"a\\\"b\\\\c\\u0001é\":null}");
}

#[test]
fn trace_results_become_simulation_results() {
    let sim = RpcSimulator::new(Vec::new());
    let trace = CallTrace { error: None, state_overrides: None, mailbox: parse_call_trace(&()) };
    let r = sim.simulation_result(trace);
    assert!(r.success);
    assert!(r.error.is_none());

    let trace = CallTrace {
        error: Some(TraceErrorField::Text("execution reverted".to_string())),
        state_overrides: None,
        mailbox: ParsedMailbox { reads: vec![call("SEND", Some(3))], writes: vec![call("ACK", None)] },
    };
    let r = sim.simulation_result(trace);
    assert!(!r.success);
    assert_eq!(r.error.as_deref(), Some("execution reverted"));
    // Without a mailbox address mailbox calls are not looked at.
    assert!(r.dependencies.is_empty() && r.outbound_messages.is_empty());

    let watching = RpcSimulator::new(Vec::new()).with_mailbox_address([0x44; 20]);
    let trace = CallTrace {
        error: Some(TraceErrorField::NonText),
        state_overrides: None,
        mailbox: ParsedMailbox { reads: vec![call("SEND", Some(3))], writes: vec![call("ACK", None)] },
    };
    let r = watching.simulation_result(trace);
    assert!(r.success);
    assert!(r.error.is_none());
    assert_eq!(r.dependencies.len(), 1);
    assert_eq!(r.dependencies[0].label, b"SEND".to_vec());
    assert!(r.dependencies[0].data.is_none());
    assert_eq!(r.dependencies[0].session_id, Some(alloy_primitives::U256::from(3u64).to_be_bytes::<32>()));
    assert_eq!(r.outbound_messages.len(), 1);
    assert_eq!(r.outbound_messages[0].label, "ACK");
    assert_eq!(r.outbound_messages[0].data, vec![9, 8]);
    assert!(r.outbound_messages[0].session_id.is_none());

    let trace = CallTrace { error: Some(TraceErrorField::Text(String::new())), state_overrides: None, mailbox: parse_call_trace(&0u8) };
    let r = watching.simulation_result(trace);
    assert!(r.success);
    assert_eq!(r.error.as_deref(), Some(""));
}

#[test]
fn peer_urls_and_vote_targets() {
    let peers = HttpPeerCoordinator::new(vec![
        PeerEntry { chain_id: ChainId(88888), addr: "peer-a:8080".to_string() },
        PeerEntry { chain_id: ChainId(99999), addr: "10.0.0.2:9000".to_string() },
    ]);
    let urls = peers.all_peer_urls("/mailbox");
    assert_eq!(
        urls,
        vec![
            (ChainId(88888), "http://peer-a:8080/mailbox".to_string()),
            (ChainId(99999), "http://10.0.0.2:9000/mailbox".to_string())
        ]
    );
    assert_eq!(peers.peer_chain_ids(), vec![ChainId(88888), ChainId(99999)]);
    let (req, targets) = peers.vote_to_peers("xt-1", ChainId(77777), false);
    assert_eq!(req.instance_id, "xt-1");
    assert_eq!(req.chain_id, 77777);
    assert!(!req.vote);
    assert_eq!(targets[1].1, "http://10.0.0.2:9000/xt/vote");
    let (origin, targets) = peers.forward_targets();
    assert_eq!(origin, ChainId(88888));
    assert_eq!(targets[0].1, "http://peer-a:8080/xt/forward");

    let mut txs = compose_sidecar::assoc::ChainMap::new();
    txs.insert(77777u64, vec![vec![1u8, 2]]);
    let (req, targets) = peers.forward_xt_request("xt-9", &txs, 12);
    assert_eq!(req.instance_id, "xt-9");
    assert_eq!(req.origin_chain, ChainId(88888));
    assert_eq!(req.origin_seq, 12);
    assert_eq!(req.txs.get(&77777), Some(&vec![vec![1u8, 2]]));
    assert_eq!(targets.len(), 2);
    assert_eq!(targets[1].1, "http://10.0.0.2:9000/xt/forward");

    let alone = HttpPeerCoordinator::new(Vec::new());
    assert_eq!(alone.origin_chain(), ChainId(0));
    assert!(alone.all_peer_urls("/xt/vote").is_empty());
}

#[test]
fn publisher_messages_and_retries() {
    match publisher_action(Some(PublisherPayload::Decided { xt_id: Some(vec![0xab, 0x01]), decision: true })) {
        PublisherAction::ApplyDecision { xt_id, decision } => {
            assert_eq!(xt_id, "ab01");
            assert!(decision);
        }
        other => panic!("unexpected {:?}", other),
    }
    match publisher_action(Some(PublisherPayload::Decided { xt_id: None, decision: false })) {
        PublisherAction::ApplyDecision { xt_id, decision } => {
            assert_eq!(xt_id, "");
            assert!(!decision);
        }
        other => panic!("unexpected {:?}", other),
    }
    assert!(matches!(publisher_action(Some(PublisherPayload::Vote)), PublisherAction::Ignore));
    assert!(matches!(publisher_action(Some(PublisherPayload::Other)), PublisherAction::Unhandled));
    assert!(matches!(publisher_action(None), PublisherAction::Unhandled));

    assert_eq!(connect_attempts(0), u32::MAX);
    assert_eq!(connect_attempts(10), 10);
    assert_eq!(next_attempt(1, 3), Some(2));
    assert_eq!(next_attempt(3, 3), None);
    assert_eq!(gave_up(10), "failed after 10 attempts");
}
