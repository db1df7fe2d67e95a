use compose_sidecar::coordinator::{CoordinatorError, DefaultCoordinator, VoteAction};
use compose_sidecar::pending_xt::PendingXt;
use compose_sidecar::primitives::{ChainId, MailboxMessage};
use compose_sidecar::storage::InMemoryStorage;

fn coordinator() -> DefaultCoordinator {
    DefaultCoordinator::new(ChainId(77777), false, false, false, false, false, false, 1000)
}

fn two_chain_xt(id: &str, peer_vote: Option<bool>) -> PendingXt {
    let mut xt = PendingXt::new(id.to_string(), id.as_bytes().to_vec());
    xt.raw_txs.insert(77777, vec![vec![1]]);
    xt.raw_txs.insert(88888, vec![vec![2]]);
    if let Some(v) = peer_vote {
        xt.peer_votes.insert(88888, v);
    }
    xt
}

fn pending<'a>(c: &'a DefaultCoordinator, id: &str) -> &'a PendingXt {
    c.state.pending.get(&id.to_string()).unwrap()
}

#[test]
fn send_vote_does_not_overwrite_existing_local_vote() {
    let mut coordinator = coordinator();
    coordinator
        .insert_pending(PendingXt::new("xt-77777-1".to_string(), b"xt-77777-1".to_vec()))
        .unwrap();

    coordinator.send_vote(&"xt-77777-1".to_string(), true, false, 1);
    let second = coordinator.send_vote(&"xt-77777-1".to_string(), false, false, 2);

    assert!(matches!(second, VoteAction::AlreadyVoted));
    let xt = pending(&coordinator, "xt-77777-1");
    assert_eq!(xt.local_vote, Some(true));
}

#[test]
fn send_vote_decides_when_peer_vote_already_present() {
    let mut coordinator = coordinator();
    coordinator.insert_pending(two_chain_xt("xt-77777-2", Some(true))).unwrap();

    coordinator.send_vote(&"xt-77777-2".to_string(), true, false, 5);

    let xt = pending(&coordinator, "xt-77777-2");
    assert_eq!(xt.local_vote, Some(true));
    assert_eq!(xt.decision, Some(true));
}

#[test]
fn send_vote_applies_existing_abort_peer_vote() {
    let mut coordinator = coordinator();
    coordinator.insert_pending(two_chain_xt("xt-77777-3", Some(false))).unwrap();

    coordinator.send_vote(&"xt-77777-3".to_string(), true, false, 5);

    let xt = pending(&coordinator, "xt-77777-3");
    assert_eq!(xt.local_vote, Some(true));
    assert_eq!(xt.decision, Some(false));
}

#[test]
fn local_vote_without_peer_waits_for_votes() {
    let mut coordinator = coordinator();
    coordinator.insert_pending(two_chain_xt("xt-a", None)).unwrap();
    let action = coordinator.send_vote(&"xt-a".to_string(), true, false, 5);
    assert!(matches!(action, VoteAction::RecordedOnly));
    let xt = pending(&coordinator, "xt-a");
    assert_eq!(xt.decision, None);
    assert!(xt.vote_sent);
    assert_eq!(xt.simulated_at, Some(5));
    assert_eq!(xt.locked_chains.get(&77777), Some(&true));

    // The peer's vote completes the set and commits.
    coordinator.handle_peer_vote(&"xt-a".to_string(), ChainId(88888), true, 9).unwrap();
    let xt = pending(&coordinator, "xt-a");
    assert_eq!(xt.decision, Some(true));
    assert_eq!(xt.decided_at, Some(9));
}

#[test]
fn decision_is_final_after_later_votes() {
    let mut coordinator = coordinator();
    coordinator.insert_pending(two_chain_xt("xt-b", Some(false))).unwrap();
    coordinator.send_vote(&"xt-b".to_string(), true, false, 5);
    assert_eq!(pending(&coordinator, "xt-b").decision, Some(false));
    coordinator.handle_peer_vote(&"xt-b".to_string(), ChainId(88888), true, 7).unwrap();
    let xt = pending(&coordinator, "xt-b");
    assert_eq!(xt.decision, Some(false));
    assert_eq!(xt.decided_at, Some(5));
    assert_eq!(xt.peer_votes.get(&88888), Some(&true));
}

#[test]
fn votes_go_to_publisher_when_connected() {
    let mut coordinator = DefaultCoordinator::new(ChainId(77777), false, true, false, false, true, false, 1000);
    coordinator.insert_pending(two_chain_xt("xt-c", Some(true))).unwrap();
    match coordinator.send_vote(&"xt-c".to_string(), true, true, 3) {
        VoteAction::SendToPublisher { instance_id, vote } => {
            assert_eq!(instance_id, b"xt-c".to_vec());
            assert!(vote);
        }
        other => panic!("unexpected {:?}", other),
    }
    // With a publisher the standalone rule does not decide.
    assert_eq!(pending(&coordinator, "xt-c").decision, None);

    coordinator.insert_pending(two_chain_xt("xt-d", None)).unwrap();
    assert!(matches!(
        coordinator.send_vote(&"xt-d".to_string(), false, false, 3),
        VoteAction::ForwardToPeers { vote: false }
    ));
}

#[test]
fn unknown_instances_are_reported() {
    let mut coordinator = coordinator();
    assert!(matches!(coordinator.send_vote(&"nope".to_string(), true, false, 1), VoteAction::NotPending));
    match coordinator.handle_peer_vote(&"nope".to_string(), ChainId(1), true, 1) {
        Err(CoordinatorError::InstanceNotFound(id)) => assert_eq!(id, "nope"),
        other => panic!("unexpected {:?}", other),
    }
    match coordinator.get_xt_status(&"nope".to_string()) {
        Err(CoordinatorError::InstanceNotFound(id)) => assert_eq!(id, "nope"),
        other => panic!("unexpected {:?}", other),
    }
}

#[test]
fn duplicate_instances_are_refused() {
    let mut coordinator = coordinator();
    coordinator.insert_pending(two_chain_xt("xt-e", None)).unwrap();
    match coordinator.insert_pending(two_chain_xt("xt-e", Some(true))) {
        Err(CoordinatorError::InstanceAlreadyPending(id)) => assert_eq!(id, "xt-e"),
        other => panic!("unexpected {:?}", other),
    }
    assert!(pending(&coordinator, "xt-e").peer_votes.get(&88888).is_none());
}

#[test]
fn status_reports_decision() {
    let mut coordinator = coordinator();
    coordinator.insert_pending(two_chain_xt("xt-f", Some(true))).unwrap();
    coordinator.send_vote(&"xt-f".to_string(), true, false, 1);
    let status = coordinator.get_xt_status(&"xt-f".to_string()).unwrap();
    assert_eq!(status.instance_id, "xt-f");
    assert_eq!(status.decision, Some(true));
}

#[test]
fn cleanup_removes_only_old_decisions() {
    let mut coordinator = coordinator();
    coordinator.insert_pending(two_chain_xt("old", Some(true))).unwrap();
    coordinator.insert_pending(two_chain_xt("recent", Some(true))).unwrap();
    coordinator.insert_pending(two_chain_xt("open", None)).unwrap();
    coordinator.send_vote(&"old".to_string(), true, false, 100);
    coordinator.send_vote(&"recent".to_string(), true, false, 900);

    coordinator.cleanup(1000, 300);

    assert!(coordinator.state.pending.get(&"old".to_string()).is_none());
    assert!(coordinator.state.pending.get(&"recent".to_string()).is_some());
    assert!(coordinator.state.pending.get(&"open".to_string()).is_some());
    assert_eq!(coordinator.state.pending.len(), 2);
}

#[test]
fn active_instance_needs_local_transactions_and_no_decision() {
    let mut coordinator = coordinator();
    coordinator.insert_pending(two_chain_xt("xt-g", Some(true))).unwrap();
    assert!(coordinator.state.has_active_instance(ChainId(77777)));
    assert!(!coordinator.state.has_active_instance(ChainId(99999)));
    coordinator.send_vote(&"xt-g".to_string(), true, false, 1);
    assert!(!coordinator.state.has_active_instance(ChainId(77777)));
}

#[test]
fn mailbox_message_is_filed_by_hex_instance_id() {
    let mut coordinator = coordinator();
    let xt = PendingXt::new("0a0b".to_string(), vec![0x0a, 0x0b]);
    coordinator.insert_pending(xt).unwrap();
    let msg = MailboxMessage {
        instance_id: vec![0x0a, 0x0b],
        source_chain: 88888,
        destination_chain: 77777,
        source: vec![0x11; 20],
        receiver: vec![0x22; 20],
        label: "SEND".to_string(),
        data: vec![vec![1, 2, 3]],
        session_id: 42,
    };
    coordinator.handle_mailbox_message(&msg, Ok(())).unwrap();
    assert_eq!(pending(&coordinator, "0a0b").pending_mailbox.len(), 1);

    let stray = MailboxMessage { instance_id: vec![0xff], ..msg };
    coordinator.handle_mailbox_message(&stray, Ok(())).unwrap();
    assert_eq!(pending(&coordinator, "0a0b").pending_mailbox.len(), 1);

    // Without a queue a failed recording does not matter.
    let again = MailboxMessage { instance_id: vec![0x0a, 0x0b], ..stray };
    coordinator.handle_mailbox_message(&again, Err("full".to_string())).unwrap();
    assert_eq!(pending(&coordinator, "0a0b").pending_mailbox.len(), 2);
}

#[test]
fn failed_queue_recording_is_reported_and_nothing_is_filed() {
    let mut coordinator = DefaultCoordinator::new(ChainId(77777), false, false, false, true, false, false, 1000);
    coordinator.insert_pending(PendingXt::new("0a0b".to_string(), vec![0x0a, 0x0b])).unwrap();
    let msg = MailboxMessage {
        instance_id: vec![0x0a, 0x0b],
        source_chain: 88888,
        destination_chain: 77777,
        source: vec![0x11; 20],
        receiver: vec![0x22; 20],
        label: "SEND".to_string(),
        data: vec![vec![1]],
        session_id: 1,
    };
    match coordinator.handle_mailbox_message(&msg, Err("queue closed".to_string())) {
        Err(CoordinatorError::Mailbox(e)) => assert_eq!(e, "queue closed"),
        other => panic!("unexpected {:?}", other),
    }
    assert_eq!(pending(&coordinator, "0a0b").pending_mailbox.len(), 0);
    coordinator.handle_mailbox_message(&msg, Ok(())).unwrap();
    assert_eq!(pending(&coordinator, "0a0b").pending_mailbox.len(), 1);
}

#[test]
fn storage_keeps_records_by_id() {
    let mut storage = InMemoryStorage::new();
    let id = "xt-1".to_string();
    storage.insert(&id, PendingXt::new(id.clone(), b"xt-1".to_vec())).unwrap();
    match storage.insert(&id, PendingXt::new(id.clone(), b"other".to_vec())) {
        Err(CoordinatorError::InstanceAlreadyPending(s)) => assert_eq!(s, "xt-1"),
        other => panic!("unexpected {:?}", other),
    }
    assert_eq!(storage.get(&id).unwrap().instance_id, b"xt-1".to_vec());

    let mut updated = PendingXt::new(id.clone(), b"xt-1".to_vec());
    updated.decision = Some(true);
    storage.update(&id, updated);
    assert_eq!(storage.get(&id).unwrap().decision, Some(true));

    let second = "xt-2".to_string();
    storage.insert(&second, PendingXt::new(second.clone(), Vec::new())).unwrap();
    let mut ids = storage.list_ids();
    ids.sort();
    assert_eq!(ids, vec!["xt-1".to_string(), "xt-2".to_string()]);

    storage.remove(&id);
    assert!(storage.get(&id).is_none());
    assert_eq!(storage.list_ids(), vec!["xt-2".to_string()]);
}
