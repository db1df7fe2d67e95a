//! Shared value types: chain ids, cross-chain messages and dependencies,
//! chain snapshots and the builder-poll exchange.

use vstd::prelude::*;

use crate::assoc::DeepClone;
use crate::overrides::{AccountOverride, StateOverrides};

verus! {

/// Identifier of a rollup chain.
#[derive(Clone, Copy, Debug, PartialEq, Eq, Structural)]
pub struct ChainId(pub u64);

/// A 20-byte account address.
pub type Address = [u8; 20];

/// A 32-byte word (a hash, or a 256-bit integer in big-endian order).
pub type Word = [u8; 32];

impl DeepClone for [u8; 20] {
    fn deep_clone(&self) -> (r: Self) {
        *self
    }
}

impl DeepClone for [u8; 32] {
    fn deep_clone(&self) -> (r: Self) {
        *self
    }
}

/// Whether two byte strings are equal.
pub fn bytes_eq(a: &[u8], b: &[u8]) -> (r: bool)
    ensures
        r == (a@ == b@),
{
    if a.len() != b.len() {
        return false;
    }
    let mut i: usize = 0;
    while i < a.len()
        invariant
            i <= a@.len(),
            a@.len() == b@.len(),
            forall|j: int| 0 <= j < i ==> a@[j] == b@[j],
        decreases a@.len() - i,
    {
        if a[i] != b[i] {
            return false;
        }
        i = i + 1;
    }
    assert(a@ =~= b@);
    true
}

/// Whether two vectors of byte strings are equal.
pub fn byte_lists_eq(a: &Vec<Vec<u8>>, b: &Vec<Vec<u8>>) -> (r: bool)
    ensures
        r == (a.deep_view() == b.deep_view()),
{
    if a.len() != b.len() {
        assert(a.deep_view().len() != b.deep_view().len());
        return false;
    }
    let mut i: usize = 0;
    while i < a.len()
        invariant
            i <= a@.len(),
            a@.len() == b@.len(),
            forall|j: int| 0 <= j < i ==> a.deep_view()[j] == b.deep_view()[j],
        decreases a@.len() - i,
    {
        if !bytes_eq(a[i].as_slice(), b[i].as_slice()) {
            proof {
                assert(a[i as int].deep_view() =~= a[i as int]@);
                assert(b[i as int].deep_view() =~= b[i as int]@);
                assert(a.deep_view()[i as int] != b.deep_view()[i as int]);
            }
            return false;
        }
        proof {
            assert(a[i as int].deep_view() =~= a[i as int]@);
            assert(b[i as int].deep_view() =~= b[i as int]@);
        }
        i = i + 1;
    }
    assert(a.deep_view() =~= b.deep_view());
    true
}

/// A CIRC mailbox message exchanged between sidecars.
#[derive(Debug)]
pub struct MailboxMessage {
    pub instance_id: Vec<u8>,
    pub source_chain: u64,
    pub destination_chain: u64,
    pub source: Vec<u8>,
    pub receiver: Vec<u8>,
    pub label: String,
    pub data: Vec<Vec<u8>>,
    pub session_id: u64,
}

pub struct MailboxMessageView {
    pub instance_id: Seq<u8>,
    pub source_chain: u64,
    pub destination_chain: u64,
    pub source: Seq<u8>,
    pub receiver: Seq<u8>,
    pub label: Seq<char>,
    pub data: Seq<Seq<u8>>,
    pub session_id: u64,
}

impl DeepView for MailboxMessage {
    type V = MailboxMessageView;

    open spec fn deep_view(&self) -> MailboxMessageView {
        MailboxMessageView {
            instance_id: self.instance_id.deep_view(),
            source_chain: self.source_chain,
            destination_chain: self.destination_chain,
            source: self.source.deep_view(),
            receiver: self.receiver.deep_view(),
            label: self.label@,
            data: self.data.deep_view(),
            session_id: self.session_id,
        }
    }
}

impl DeepClone for MailboxMessage {
    fn deep_clone(&self) -> (r: Self) {
        MailboxMessage {
            instance_id: self.instance_id.deep_clone(),
            source_chain: self.source_chain,
            destination_chain: self.destination_chain,
            source: self.source.deep_clone(),
            receiver: self.receiver.deep_clone(),
            label: self.label.clone(),
            data: self.data.deep_clone(),
            session_id: self.session_id,
        }
    }
}

/// A mailbox read discovered during simulation: the local transaction waits
/// for a message with these coordinates, and `data` once it has arrived.
#[derive(Debug)]
pub struct CrossRollupDependency {
    pub source_chain_id: ChainId,
    pub dest_chain_id: ChainId,
    pub sender: Address,
    pub receiver: Address,
    pub label: Vec<u8>,
    pub data: Option<Vec<u8>>,
    pub session_id: Option<Word>,
}

pub struct CrossRollupDependencyView {
    pub source_chain_id: ChainId,
    pub dest_chain_id: ChainId,
    pub sender: Seq<u8>,
    pub receiver: Seq<u8>,
    pub label: Seq<u8>,
    pub data: Option<Seq<u8>>,
    pub session_id: Option<Seq<u8>>,
}

impl DeepView for CrossRollupDependency {
    type V = CrossRollupDependencyView;

    open spec fn deep_view(&self) -> CrossRollupDependencyView {
        CrossRollupDependencyView {
            source_chain_id: self.source_chain_id,
            dest_chain_id: self.dest_chain_id,
            sender: self.sender.deep_view(),
            receiver: self.receiver.deep_view(),
            label: self.label.deep_view(),
            data: self.data.deep_view(),
            session_id: self.session_id.deep_view(),
        }
    }
}

impl DeepClone for CrossRollupDependency {
    fn deep_clone(&self) -> (r: Self) {
        CrossRollupDependency {
            source_chain_id: self.source_chain_id,
            dest_chain_id: self.dest_chain_id,
            sender: self.sender,
            receiver: self.receiver,
            label: self.label.deep_clone(),
            data: self.data.deep_clone(),
            session_id: self.session_id,
        }
    }
}

/// A mailbox write discovered during simulation: a message that the local
/// transaction sends to another chain.
#[derive(Debug)]
pub struct CrossRollupMessage {
    pub source_chain_id: ChainId,
    pub dest_chain_id: ChainId,
    pub sender: Address,
    pub receiver: Address,
    pub label: String,
    pub data: Vec<u8>,
    pub session_id: Option<Word>,
}

pub struct CrossRollupMessageView {
    pub source_chain_id: ChainId,
    pub dest_chain_id: ChainId,
    pub sender: Seq<u8>,
    pub receiver: Seq<u8>,
    pub label: Seq<char>,
    pub data: Seq<u8>,
    pub session_id: Option<Seq<u8>>,
}

impl DeepView for CrossRollupMessage {
    type V = CrossRollupMessageView;

    open spec fn deep_view(&self) -> CrossRollupMessageView {
        CrossRollupMessageView {
            source_chain_id: self.source_chain_id,
            dest_chain_id: self.dest_chain_id,
            sender: self.sender.deep_view(),
            receiver: self.receiver.deep_view(),
            label: self.label@,
            data: self.data.deep_view(),
            session_id: self.session_id.deep_view(),
        }
    }
}

impl DeepClone for CrossRollupMessage {
    fn deep_clone(&self) -> (r: Self) {
        CrossRollupMessage {
            source_chain_id: self.source_chain_id,
            dest_chain_id: self.dest_chain_id,
            sender: self.sender,
            receiver: self.receiver,
            label: self.label.clone(),
            data: self.data.deep_clone(),
            session_id: self.session_id,
        }
    }
}

/// Snapshot of a chain's head as last reported by its builder.
#[derive(Debug)]
pub struct ChainState {
    pub chain_id: ChainId,
    pub block_number: u64,
    pub flashblock_index: u64,
    pub state_root: Word,
    pub timestamp: u64,
    pub gas_limit: u64,
    pub state_overrides: Option<StateOverrides>,
}

pub struct ChainStateView {
    pub chain_id: ChainId,
    pub block_number: u64,
    pub flashblock_index: u64,
    pub state_root: Seq<u8>,
    pub timestamp: u64,
    pub gas_limit: u64,
    pub state_overrides: Option<Map<Seq<char>, <AccountOverride as DeepView>::V>>,
}

impl DeepView for ChainState {
    type V = ChainStateView;

    open spec fn deep_view(&self) -> ChainStateView {
        ChainStateView {
            chain_id: self.chain_id,
            block_number: self.block_number,
            flashblock_index: self.flashblock_index,
            state_root: self.state_root.deep_view(),
            timestamp: self.timestamp,
            gas_limit: self.gas_limit,
            state_overrides: self.state_overrides.deep_view(),
        }
    }
}

impl DeepClone for ChainState {
    fn deep_clone(&self) -> (r: Self) {
        ChainState {
            chain_id: self.chain_id,
            block_number: self.block_number,
            flashblock_index: self.flashblock_index,
            state_root: self.state_root,
            timestamp: self.timestamp,
            gas_limit: self.gas_limit,
            state_overrides: self.state_overrides.deep_clone(),
        }
    }
}

/// A builder's request for the transactions to include next.
#[derive(Debug)]
pub struct BuilderPollRequest {
    pub chain_id: ChainId,
    pub block_number: u64,
    pub flashblock_index: u64,
    pub state_root: Word,
    pub timestamp: u64,
    pub gas_limit: u64,
    pub state_overrides: Option<StateOverrides>,
}

/// The answer to a builder poll: transactions to include, or a hold signal.
#[derive(Debug)]
pub struct BuilderPollResponse {
    pub hold: bool,
    pub transactions: Vec<Vec<u8>>,
    pub poll_after_ms: Option<u64>,
    pub max_hold_ms: Option<u64>,
}

/// Outcome of simulating one transaction.
#[derive(Debug)]
pub struct SimulationResult {
    pub success: bool,
    pub error: Option<String>,
    pub state_overrides: Option<StateOverrides>,
    pub dependencies: Vec<CrossRollupDependency>,
    pub outbound_messages: Vec<CrossRollupMessage>,
}

} // verus!
