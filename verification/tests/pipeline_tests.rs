use compose_sidecar::builder_poll::{build_transaction_payloads, DeliverableXt, PollStep};
use compose_sidecar::coordinator::{CoordinatorError, DefaultCoordinator};
use compose_sidecar::overrides::StateOverrides;
use compose_sidecar::pending_xt::PendingXt;
use compose_sidecar::pipeline::{
    judge_simulation, session_id_u64, word_to_u64, ProcessStart, SimulationVerdict,
};
use compose_sidecar::primitives::{
    BuilderPollRequest, ChainId, CrossRollupDependency, CrossRollupMessage, MailboxMessage, SimulationResult,
};
use compose_sidecar::put_inbox::{attach_put_inbox_txs, plan_put_inbox, put_inbox_jobs};
use compose_sidecar::run::{dependency_deadline, wait_step, RunAction, RunEvent, SimulationRun, WaitStep};

fn coordinator(publisher: bool, simulator: bool) -> DefaultCoordinator {
    DefaultCoordinator::new(ChainId(77777), simulator, publisher, true, false, false, false, 1000)
}

fn xt(id: &str, sequence: u64, chains: &[u64]) -> PendingXt {
    let mut x = PendingXt::new(id.to_string(), id.as_bytes().to_vec());
    x.sequence = sequence;
    for c in chains {
        x.raw_txs.insert(*c, vec![vec![0x51]]);
    }
    x
}

fn poll(chain: u64, flashblock_index: u64) -> BuilderPollRequest {
    BuilderPollRequest {
        chain_id: ChainId(chain),
        block_number: 10,
        flashblock_index,
        state_root: [7u8; 32],
        timestamp: 1,
        gas_limit: 30_000_000,
        state_overrides: None,
    }
}

fn word(n: u64) -> [u8; 32] {
    let mut w = [0u8; 32];
    w[24..].copy_from_slice(&n.to_be_bytes());
    w
}

fn dependency(label: &str, session: u64) -> CrossRollupDependency {
    CrossRollupDependency {
        source_chain_id: ChainId(88888),
        dest_chain_id: ChainId(77777),
        sender: [0x11; 20],
        receiver: [0x22; 20],
        label: label.as_bytes().to_vec(),
        data: None,
        session_id: Some(word(session)),
    }
}

fn message(instance: &[u8], label: &str, session: u64, data: Vec<u8>) -> MailboxMessage {
    MailboxMessage {
        instance_id: instance.to_vec(),
        source_chain: 88888,
        destination_chain: 77777,
        source: vec![0x11; 20],
        receiver: vec![0x22; 20],
        label: label.to_string(),
        data: vec![data],
        session_id: session,
    }
}

#[test]
fn first_flashblock_gets_ready_answer() {
    let mut c = coordinator(false, true);
    c.insert_pending(xt("a", 1, &[77777])).unwrap();
    match c.handle_builder_poll(&poll(77777, 0), false) {
        PollStep::Respond(r) => {
            assert!(!r.hold);
            assert!(r.transactions.is_empty());
        }
        _ => panic!("expected a response"),
    }
    assert!(c.state.chain_states.get(&77777).is_none());
}

#[test]
fn poll_starts_processing_first_undecided_instance() {
    let mut c = coordinator(false, true);
    c.insert_pending(xt("b", 2, &[77777])).unwrap();
    c.insert_pending(xt("a", 1, &[77777])).unwrap();
    match c.handle_builder_poll(&poll(77777, 1), false) {
        PollStep::Process { id, response } => {
            assert_eq!(id, "a");
            assert!(response.hold);
            assert_eq!(response.poll_after_ms, Some(50));
            assert_eq!(response.max_hold_ms, Some(1000));
        }
        _ => panic!("expected processing to start"),
    }
    let a = c.state.pending.get(&"a".to_string()).unwrap();
    assert_eq!(a.locked_chains.get(&77777), Some(&true));
    assert!(a.chain_states.get(&77777).is_some());
    assert_eq!(c.state.chain_states.get(&77777).unwrap().block_number, 10);
}

#[test]
fn committed_instances_are_delivered_once_in_order() {
    let mut c = coordinator(false, true);
    let mut second = xt("second", 2, &[77777]);
    second.decision = Some(true);
    let mut first = xt("first", 1, &[77777]);
    first.decision = Some(true);
    let mut aborted = xt("aborted", 0, &[77777]);
    aborted.decision = Some(false);
    c.insert_pending(second).unwrap();
    c.insert_pending(first).unwrap();
    c.insert_pending(aborted).unwrap();

    let ds = match c.handle_builder_poll(&poll(77777, 1), false) {
        PollStep::Deliver(ds) => ds,
        _ => panic!("expected a delivery"),
    };
    let ids: Vec<&str> = ds.iter().map(|d| d.id.as_str()).collect();
    assert_eq!(ids, vec!["first", "second"]);
    assert_eq!(c.state.pending.get(&"aborted".to_string()).unwrap().delivered_chains.get(&77777), Some(&true));

    let response = c.finish_builder_poll(ChainId(77777), &ds);
    assert!(!response.hold);
    assert_eq!(response.transactions, vec![vec![0x51u8], vec![0x51u8]]);

    // Nothing is delivered a second time.
    match c.handle_builder_poll(&poll(77777, 2), false) {
        PollStep::Respond(r) => {
            assert!(!r.hold);
            assert!(r.transactions.is_empty());
        }
        _ => panic!("expected a plain response"),
    }
}

#[test]
fn undecided_instance_blocks_later_deliveries() {
    let mut c = coordinator(false, true);
    let mut blocker = xt("blocker", 1, &[77777]);
    blocker.vote_sent = true;
    let mut later = xt("later", 2, &[77777]);
    later.decision = Some(true);
    c.insert_pending(blocker).unwrap();
    c.insert_pending(later).unwrap();
    match c.handle_builder_poll(&poll(77777, 1), false) {
        PollStep::Respond(r) => {
            assert!(r.hold);
            assert_eq!(r.max_hold_ms, Some(1000));
        }
        _ => panic!("expected a hold"),
    }
    assert!(c.state.pending.get(&"later".to_string()).unwrap().delivered_chains.get(&77777).is_none());
}

#[test]
fn start_processing_without_local_transactions_votes_no() {
    let mut c = coordinator(false, true);
    c.insert_pending(xt("x", 1, &[88888])).unwrap();
    assert!(matches!(c.start_processing(&"x".to_string()), ProcessStart::VoteNoLocalTransactions));
    assert!(matches!(c.start_processing(&"missing".to_string()), ProcessStart::NotPending));

    c.insert_pending(xt("y", 2, &[77777])).unwrap();
    match c.start_processing(&"y".to_string()) {
        ProcessStart::Simulate { txs, overrides } => {
            assert_eq!(txs, vec![vec![0x51u8]]);
            assert_eq!(overrides.len(), 0);
        }
        _ => panic!("expected a simulation"),
    }
    assert_eq!(c.state.pending.get(&"y".to_string()).unwrap().locked_chains.get(&77777), Some(&true));

    let mut unsimulated = coordinator(false, false);
    unsimulated.insert_pending(xt("z", 1, &[77777])).unwrap();
    assert!(matches!(unsimulated.start_processing(&"z".to_string()), ProcessStart::VoteYesUnsimulated));
}

#[test]
fn simulation_results_are_recorded_without_duplicates() {
    let mut c = coordinator(false, true);
    c.insert_pending(xt("s", 1, &[77777])).unwrap();
    let result = SimulationResult {
        success: false,
        error: None,
        state_overrides: None,
        dependencies: vec![dependency("SEND", 1), dependency("SEND", 1)],
        outbound_messages: Vec::new(),
    };
    assert!(matches!(judge_simulation(&result), SimulationVerdict::AwaitDependencies));
    let base = StateOverrides::new();
    let merged = c.record_simulation_state(&"s".to_string(), &result, &base);
    assert_eq!(merged.len(), 0);
    let s = c.state.pending.get(&"s".to_string()).unwrap();
    assert_eq!(s.dependencies.len(), 1);
    assert!(s.state_overrides.get(&77777).is_some());

    let reject = SimulationResult { success: false, error: Some("revert".to_string()), state_overrides: None, dependencies: Vec::new(), outbound_messages: Vec::new() };
    assert!(matches!(judge_simulation(&reject), SimulationVerdict::Reject));
    let accept = SimulationResult { success: true, ..reject };
    assert!(matches!(judge_simulation(&accept), SimulationVerdict::Accept));
}

#[test]
fn dependencies_are_fulfilled_from_the_mailbox_once() {
    let mut c = coordinator(false, true);
    let mut x = xt("f", 1, &[77777]);
    x.pending_mailbox.push(message(b"f", "OTHER", 1, vec![9]));
    x.pending_mailbox.push(message(b"f", "SEND", 1, vec![1, 2, 3]));
    c.insert_pending(x).unwrap();
    let deps = vec![dependency("SEND", 1), dependency("SEND", 1), dependency("SEND", 2)];
    assert_eq!(c.fulfill_dependencies_from_mailbox(&"f".to_string(), &deps), 1);
    let f = c.state.pending.get(&"f".to_string()).unwrap();
    assert_eq!(f.fulfilled_deps.len(), 1);
    assert_eq!(f.fulfilled_deps[0].data, Some(vec![1, 2, 3]));
    assert_eq!(f.pending_mailbox.len(), 1);
    assert_eq!(f.pending_mailbox[0].label, "OTHER");
    // Again: nothing new.
    assert_eq!(c.fulfill_dependencies_from_mailbox(&"f".to_string(), &deps), 0);
    assert_eq!(c.fulfill_dependencies_from_mailbox(&"missing".to_string(), &deps), 0);
}

#[test]
fn outbound_messages_are_never_sent_twice() {
    let mut c = coordinator(false, true);
    c.insert_pending(xt("o", 1, &[77777])).unwrap();
    let msg = CrossRollupMessage {
        source_chain_id: ChainId(77777),
        dest_chain_id: ChainId(88888),
        sender: [0x22; 20],
        receiver: [0x11; 20],
        label: "ACK".to_string(),
        data: vec![4, 5],
        session_id: Some(word(7)),
    };
    let same = CrossRollupMessage { data: vec![4, 5], label: "ACK".to_string(), ..msg };
    let msgs = vec![msg, same];
    let out = c.dispatch_outbound_mailbox(&"o".to_string(), &msgs);
    assert_eq!(out.len(), 1);
    assert_eq!(out[0].instance_id, b"o".to_vec());
    assert_eq!(out[0].destination_chain, 88888);
    assert_eq!(out[0].session_id, 7);
    assert_eq!(out[0].data, vec![vec![4u8, 5]]);
    let again = c.dispatch_outbound_mailbox(&"o".to_string(), &msgs);
    assert!(again.is_empty());
    assert_eq!(c.state.pending.get(&"o".to_string()).unwrap().sent_mailbox.len(), 1);

    let mut silent = coordinator(false, true);
    silent.has_mailbox_sender = false;
    silent.insert_pending(xt("o", 1, &[77777])).unwrap();
    assert!(silent.dispatch_outbound_mailbox(&"o".to_string(), &msgs).is_empty());
}

#[test]
fn words_convert_to_u64_when_small() {
    assert_eq!(word_to_u64(&word(42)), Some(42));
    let mut big = word(1);
    big[0] = 1;
    assert_eq!(word_to_u64(&big), None);
    assert_eq!(session_id_u64(&Some(word(u64::MAX))), u64::MAX);
    assert_eq!(session_id_u64(&Some(big)), 0);
    assert_eq!(session_id_u64(&None), 0);
}

#[test]
fn run_votes_yes_after_every_transaction_is_accepted() {
    let (mut run, first) = SimulationRun::start(2);
    assert_eq!(first, RunAction::Simulate { tx_index: 0 });
    assert_eq!(run.step(RunEvent::Simulated(SimulationVerdict::AwaitDependencies)), RunAction::AwaitDependencies);
    assert_eq!(run.step(RunEvent::DependenciesArrived), RunAction::Simulate { tx_index: 0 });
    assert_eq!(run.step(RunEvent::Simulated(SimulationVerdict::Accept)), RunAction::DispatchOutbound);
    assert_eq!(run.step(RunEvent::Dispatched { ok: true }), RunAction::Simulate { tx_index: 1 });
    assert_eq!(run.step(RunEvent::Simulated(SimulationVerdict::Accept)), RunAction::DispatchOutbound);
    assert_eq!(run.step(RunEvent::Dispatched { ok: true }), RunAction::Vote(true));
    assert_eq!(run.tx_index, 2);

    let (_, none) = SimulationRun::start(0);
    assert_eq!(none, RunAction::Vote(true));
}

#[test]
fn run_votes_no_on_any_failure() {
    let (mut run, _) = SimulationRun::start(1);
    assert_eq!(run.step(RunEvent::Simulated(SimulationVerdict::Reject)), RunAction::Vote(false));
    let (mut run, _) = SimulationRun::start(1);
    assert_eq!(run.step(RunEvent::SimulationFailed), RunAction::Vote(false));
    let (mut run, _) = SimulationRun::start(1);
    assert_eq!(run.step(RunEvent::Dispatched { ok: false }), RunAction::Vote(false));
    let (mut run, _) = SimulationRun::start(1);
    assert_eq!(run.step(RunEvent::DependenciesTimedOut), RunAction::Vote(false));

    // Three attempts at most.
    let (mut run, _) = SimulationRun::start(1);
    assert_eq!(run.step(RunEvent::DependenciesArrived), RunAction::Simulate { tx_index: 0 });
    assert_eq!(run.step(RunEvent::DependenciesArrived), RunAction::Simulate { tx_index: 0 });
    assert!(run.is_running());
    assert_eq!(run.step(RunEvent::DependenciesArrived), RunAction::Vote(false));
}

#[test]
fn waiting_polls_until_fulfilled_or_deadline() {
    let deadline = dependency_deadline(100, 1000);
    assert_eq!(deadline, 1100);
    assert_eq!(wait_step(1, 2000, deadline), WaitStep::Ready);
    assert_eq!(wait_step(0, 1100, deadline), WaitStep::TimedOut);
    assert_eq!(wait_step(0, 500, deadline), WaitStep::PollAgain { after_ms: 50 });
}

#[test]
fn put_inbox_transactions_get_consecutive_nonces() {
    let d = |id: &str, deps: usize| DeliverableXt {
        id: id.to_string(),
        put_inbox_txs: Vec::new(),
        raw_txs: vec![vec![0xaa]],
        deps: (0..deps).map(|i| dependency("SEND", i as u64)).collect(),
    };
    let ds = vec![d("a", 2), d("b", 0), d("c", 1)];
    assert_eq!(plan_put_inbox(&ds, true).unwrap(), 3);
    assert!(matches!(plan_put_inbox(&ds, false), Err(CoordinatorError::PutInboxNotConfigured)));
    assert_eq!(plan_put_inbox(&vec![d("e", 0)], false).unwrap(), 0);

    let jobs = put_inbox_jobs(&ds, 40);
    let triples: Vec<(usize, usize, u64)> = jobs.iter().map(|j| (j.entry, j.dep, j.nonce)).collect();
    assert_eq!(triples, vec![(0, 0, 40), (0, 1, 41), (2, 0, 42)]);

    let built = vec![vec![1u8], vec![2u8], vec![3u8]];
    let ds = attach_put_inbox_txs(ds, &built);
    assert_eq!(ds[0].put_inbox_txs, vec![vec![1u8], vec![2u8]]);
    assert!(ds[1].put_inbox_txs.is_empty());
    assert_eq!(ds[2].put_inbox_txs, vec![vec![3u8]]);
    assert_eq!(
        build_transaction_payloads(&ds),
        vec![vec![1u8], vec![2u8], vec![0xaa], vec![0xaa], vec![3u8], vec![0xaa]]
    );
}

#[test]
fn recorded_outbound_messages_are_kept_once() {
    let mut c = coordinator(false, true);
    c.insert_pending(xt("m", 1, &[77777])).unwrap();
    let msg = |data: Vec<u8>| CrossRollupMessage {
        source_chain_id: ChainId(77777),
        dest_chain_id: ChainId(88888),
        sender: [0x22; 20],
        receiver: [0x11; 20],
        label: "ACK".to_string(),
        data,
        session_id: None,
    };
    let result = SimulationResult {
        success: true,
        error: None,
        state_overrides: None,
        dependencies: Vec::new(),
        outbound_messages: vec![msg(vec![1]), msg(vec![1]), msg(vec![2])],
    };
    let base = StateOverrides::new();
    c.record_simulation_state(&"m".to_string(), &result, &base);
    c.record_simulation_state(&"m".to_string(), &result, &base);
    let m = c.state.pending.get(&"m".to_string()).unwrap();
    assert_eq!(m.outbound_messages.len(), 2);
    assert_eq!(m.outbound_messages[0].data, vec![1]);
    assert_eq!(m.outbound_messages[1].data, vec![2]);
}

#[test]
fn failed_put_inbox_building_holds_and_marks_nothing() {
    let mut c = coordinator(false, true);
    let mut x = xt("d", 1, &[77777]);
    x.decision = Some(true);
    c.insert_pending(x).unwrap();
    let ds = match c.handle_builder_poll(&poll(77777, 1), false) {
        PollStep::Deliver(ds) => ds,
        _ => panic!("expected a delivery"),
    };
    let r = c.complete_delivery(ChainId(77777), &ds, false);
    assert!(r.hold);
    assert!(r.transactions.is_empty());
    assert_eq!(r.poll_after_ms, Some(50));
    assert_eq!(r.max_hold_ms, Some(1000));
    assert!(c.state.pending.get(&"d".to_string()).unwrap().delivered_chains.get(&77777).is_none());
    let r = c.complete_delivery(ChainId(77777), &ds, true);
    assert!(!r.hold);
    assert_eq!(r.transactions, vec![vec![0x51u8]]);
    assert_eq!(c.state.pending.get(&"d".to_string()).unwrap().delivered_chains.get(&77777), Some(&true));
}
