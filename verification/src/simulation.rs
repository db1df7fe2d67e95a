//! Simulation of transactions against a chain's RPC node: decoding signed
//! transactions into call arguments, choosing the node, and reading the
//! call tracer's output into a simulation result.
//!
//! The HTTP exchange with the node (`debug_traceCall`) is done by the caller;
//! this module decides what goes into it and what comes out of it.

use vstd::prelude::*;
use vstd::string::{StrSliceExecFns, StringExecFns};

use alloy_consensus::transaction::SignerRecoverable;
use alloy_consensus::Transaction;

use crate::assoc::{ChainMap, DeepClone};
use crate::evm::{word_bytes, word_from_u128};
use crate::hex::{decimal_text, push_decimal};
use crate::overrides::StateOverrides;
use crate::override_json::{document_json, document_text, parse_state_override_text, state_override_json_ok};
use crate::primitives::{Address, ChainId, CrossRollupDependency, CrossRollupDependencyView, CrossRollupMessage,
    CrossRollupMessageView, SimulationResult, Word};
use vstd::utf8::encode_utf8;

verus! {

/// Errors of a simulation.
#[derive(Debug)]
pub enum SimulationError {
    /// The RPC node could not be reached or answered with an error.
    Rpc(String),
    /// Anything else: no node for the chain, an undecodable transaction, a
    /// bad override document.
    Other(String),
}

/// The RPC node of one chain.
#[derive(Debug)]
pub struct ChainRpcConfig {
    pub chain_id: ChainId,
    pub rpc_url: String,
}

/// Simulates transactions through `debug_traceCall` on the nodes of the
/// chains it knows, watching calls to the mailbox contract when its address
/// is set.
#[derive(Debug)]
pub struct RpcSimulator {
    pub chains: ChainMap<String>,
    pub mailbox_address: Option<Address>,
}

/// The node table that a list of chain configurations gives: a later entry
/// for the same chain replaces an earlier one.
pub open spec fn rpc_table(cs: Seq<ChainRpcConfig>) -> Map<u64, Seq<char>>
    decreases cs.len(),
{
    if cs.len() == 0 {
        Map::empty()
    } else {
        rpc_table(cs.drop_last()).insert(cs.last().chain_id.0, cs.last().rpc_url@)
    }
}

/// The message for a chain without a node.
pub open spec fn no_rpc_message(chain_id: u64) -> Seq<char> {
    "no RPC configured for chain "@ + decimal_text(chain_id as nat)
}

impl RpcSimulator {
    pub fn new(chains: Vec<ChainRpcConfig>) -> (s: Self)
        ensures
            s.chains@ == rpc_table(chains@),
            s.mailbox_address is None,
    {
        let mut table: ChainMap<String> = ChainMap::new();
        let mut i: usize = 0;
        while i < chains.len()
            invariant
                i <= chains@.len(),
                table@ == rpc_table(chains@.subrange(0, i as int)),
            decreases chains@.len() - i,
        {
            let c = &chains[i];
            table.insert(c.chain_id.0, c.rpc_url.clone());
            proof {
                let s = chains@.subrange(0, i as int + 1);
                assert(s.drop_last() =~= chains@.subrange(0, i as int));
                assert(s.last() == chains@[i as int]);
            }
            i = i + 1;
        }
        proof {
            assert(chains@.subrange(0, chains@.len() as int) =~= chains@);
        }
        RpcSimulator { chains: table, mailbox_address: None }
    }

    /// The same simulator, watching the mailbox contract at `addr`.
    pub fn with_mailbox_address(self, addr: Address) -> (s: Self)
        ensures
            s.chains@ == self.chains@,
            s.mailbox_address == Some(addr),
    {
        RpcSimulator { chains: self.chains, mailbox_address: Some(addr) }
    }

    /// The URL of the node of `chain_id`.
    pub fn rpc_url(&self, chain_id: ChainId) -> (r: Result<&String, SimulationError>)
        ensures
            match r {
                Ok(url) => self.chains@.dom().contains(chain_id.0) && url@ == self.chains@[chain_id.0],
                Err(e) => !self.chains@.dom().contains(chain_id.0)
                    && (e matches SimulationError::Other(m) && m@ == no_rpc_message(chain_id.0)),
            },
    {
        match self.chains.get(&chain_id.0) {
            Some(url) => Ok(url),
            None => {
                let mut m = String::from_str("no RPC configured for chain ");
                push_decimal(&mut m, chain_id.0);
                Err(SimulationError::Other(m))
            },
        }
    }
}

// ---------------------------------------------------------------------------
// Signed transactions
// ---------------------------------------------------------------------------

/// What a signed transaction holds that a call needs.
#[derive(Debug)]
pub struct SignedTxFields {
    pub from: Address,
    pub gas_limit: u64,
    pub to: Option<Address>,
    pub input: Vec<u8>,
    pub value: Word,
}

/// Why a transaction could not be read.
#[derive(Debug)]
pub enum TxDecodeError {
    /// The bytes are not an RLP-encoded signed transaction.
    Decode(String),
    /// The signer could not be recovered from the signature.
    Signer(String),
}

/// The arguments of a `debug_traceCall` for a transaction: the sender and
/// gas limit always; the recipient, the input and the value when present,
/// non-empty and non-zero.
#[derive(Debug)]
pub struct TxCallArgs {
    pub from: Address,
    pub gas_limit: u64,
    pub to: Option<Address>,
    pub input: Option<Vec<u8>>,
    pub value: Option<Word>,
}

/// The transaction that `alloy_rlp::Decodable::decode` reads from `bytes` as
/// an `alloy_consensus::TxEnvelope`: its gas limit, recipient, input and value
/// (32 bytes, big-endian); `None` when decoding fails.
pub uninterp spec fn rlp_decoded_tx(bytes: Seq<u8>) -> Option<(u64, Option<Seq<u8>>, Seq<u8>, Seq<u8>)>;

/// The sender that `SignerRecoverable::recover_signer` recovers from the
/// signature of the transaction decoded from `bytes`; `None` when it fails.
pub uninterp spec fn recovered_signer(bytes: Seq<u8>) -> Option<Seq<u8>>;

pub open spec fn opt_bytes<const N: usize>(a: Option<[u8; N]>) -> Option<Seq<u8>> {
    match a {
        Some(x) => Some(x@),
        None => None,
    }
}

/// Calls `alloy_rlp::Decodable::decode` for an `alloy_consensus::TxEnvelope`
/// on `bytes`, then `recover_signer` and the envelope's getters. Claims only
/// that the fields are those the two named results give, and which step
/// failed; the text of an error is not stated.
#[verifier::external_body]
fn decode_signed_tx(bytes: &[u8]) -> (r: Result<SignedTxFields, TxDecodeError>)
    ensures
        match r {
            Ok(f) => rlp_decoded_tx(bytes@) == Some((f.gas_limit, opt_bytes(f.to), f.input@, f.value@))
                && recovered_signer(bytes@) == Some(f.from@),
            Err(TxDecodeError::Decode(_)) => rlp_decoded_tx(bytes@) is None,
            Err(TxDecodeError::Signer(_)) => rlp_decoded_tx(bytes@) is Some && recovered_signer(bytes@) is None,
        },
{
    let tx: alloy_consensus::TxEnvelope = match alloy_rlp::Decodable::decode(&mut &bytes[..]) {
        Ok(t) => t,
        Err(e) => return Err(TxDecodeError::Decode(format!("{e}"))),
    };
    let from = match tx.recover_signer() {
        Ok(a) => a,
        Err(e) => return Err(TxDecodeError::Signer(format!("{e}"))),
    };
    let to = tx.to().map(|a| a.0.0);
    Ok(SignedTxFields { from: from.0.0, gas_limit: tx.gas_limit(), to, input: tx.input().to_vec(), value: tx.value().to_be_bytes::<32>() })
}

/// Every byte of the word is zero.
pub open spec fn is_zero_word(w: Seq<u8>) -> bool {
    forall|i: int| 0 <= i < w.len() ==> w[i] == 0
}

fn word_is_zero(w: &Word) -> (b: bool)
    ensures
        b == is_zero_word(w@),
{
    let mut i: usize = 0;
    while i < 32
        invariant
            i <= 32,
            w@.len() == 32,
            forall|j: int| 0 <= j < i ==> w@[j] == 0,
        decreases 32 - i,
    {
        if w[i] != 0 {
            return false;
        }
        i = i + 1;
    }
    true
}

/// The call arguments for a decoded transaction.
pub fn call_args_from_fields(f: SignedTxFields) -> (a: TxCallArgs)
    ensures
        a.from == f.from,
        a.gas_limit == f.gas_limit,
        a.to == f.to,
        match a.input {
            Some(v) => f.input@.len() > 0 && v@ == f.input@,
            None => f.input@.len() == 0,
        },
        match a.value {
            Some(v) => !is_zero_word(f.value@) && v == f.value,
            None => is_zero_word(f.value@),
        },
{
    let input = if f.input.len() > 0 {
        Some(f.input)
    } else {
        None
    };
    let value = if word_is_zero(&f.value) {
        None
    } else {
        Some(f.value)
    };
    TxCallArgs { from: f.from, gas_limit: f.gas_limit, to: f.to, input, value }
}

/// The message prefix of an undecodable transaction.
pub open spec fn decode_failure_prefix() -> Seq<char> {
    "failed to decode tx: "@
}

/// The message prefix of a transaction whose signer cannot be recovered.
pub open spec fn signer_failure_prefix() -> Seq<char> {
    "failed to recover signer: "@
}

/// Decode RLP-encoded signed transaction bytes into the arguments of a
/// `debug_traceCall`.
pub fn decode_tx(tx_bytes: &[u8]) -> (r: Result<TxCallArgs, SimulationError>)
    ensures
        match r {
            Ok(a) => {
                &&& rlp_decoded_tx(tx_bytes@) matches Some((gas, to, input, value))
                &&& recovered_signer(tx_bytes@) == Some(a.from@)
                &&& a.gas_limit == gas
                &&& opt_bytes(a.to) == to
                &&& match a.input {
                    Some(v) => input.len() > 0 && v@ == input,
                    None => input.len() == 0,
                }
                &&& match a.value {
                    Some(v) => !is_zero_word(value) && v@ == value,
                    None => is_zero_word(value),
                }
            },
            Err(SimulationError::Other(m)) => if rlp_decoded_tx(tx_bytes@) is None {
                m@.len() >= decode_failure_prefix().len() && m@.subrange(0, decode_failure_prefix().len() as int)
                    == decode_failure_prefix()
            } else {
                &&& recovered_signer(tx_bytes@) is None
                &&& m@.len() >= signer_failure_prefix().len()
                &&& m@.subrange(0, signer_failure_prefix().len() as int) == signer_failure_prefix()
            },
            Err(SimulationError::Rpc(_)) => false,
        },
{
    match decode_signed_tx(tx_bytes) {
        Ok(f) => Ok(call_args_from_fields(f)),
        Err(TxDecodeError::Decode(e)) => {
            let mut m = String::from_str("failed to decode tx: ");
            m.append(e.as_str());
            proof {
                assert(m@.subrange(0, decode_failure_prefix().len() as int) =~= decode_failure_prefix());
            }
            Err(SimulationError::Other(m))
        },
        Err(TxDecodeError::Signer(e)) => {
            let mut m = String::from_str("failed to recover signer: ");
            m.append(e.as_str());
            proof {
                assert(m@.subrange(0, signer_failure_prefix().len() as int) =~= signer_failure_prefix());
            }
            Err(SimulationError::Other(m))
        },
    }
}

/// The message prefix of an override document that is not a state override.
pub open spec fn invalid_overrides_prefix() -> Seq<char> {
    "invalid state overrides payload: "@
}

/// The override document to hand to a call, as JSON text: an empty document
/// is left out; any other must read as a state override, else the call is
/// refused before it is made.
pub fn overrides_for_call(overrides: &StateOverrides) -> (r: Result<Option<Vec<u8>>, SimulationError>)
    ensures
        overrides@.dom().len() == 0 ==> (r matches Ok(None)),
        overrides@.dom().len() > 0 && state_override_json_ok(document_json(*overrides)) ==> (r matches Ok(Some(t))
            && t@ == document_json(*overrides)),
        overrides@.dom().len() > 0 && !state_override_json_ok(document_json(*overrides)) ==> (r matches Err(
            SimulationError::Other(m),
        ) && m@.len() >= invalid_overrides_prefix().len() && m@.subrange(0, invalid_overrides_prefix().len() as int)
            == invalid_overrides_prefix()),
{
    if overrides.is_empty() {
        return Ok(None);
    }
    let text = document_text(overrides);
    match parse_state_override_text(text.as_slice()) {
        Ok(()) => Ok(Some(text)),
        Err(e) => {
            let mut m = String::from_str("invalid state overrides payload: ");
            m.append(e.as_str());
            proof {
                assert(m@.subrange(0, invalid_overrides_prefix().len() as int) =~= invalid_overrides_prefix());
            }
            Err(SimulationError::Other(m))
        },
    }
}

// ---------------------------------------------------------------------------
// Tracer output
// ---------------------------------------------------------------------------

/// A call to the mailbox contract found in a call trace.
#[derive(Debug)]
pub struct MailboxCall {
    pub source_chain: ChainId,
    pub dest_chain: ChainId,
    pub sender: Address,
    pub receiver: Address,
    pub label: String,
    pub data: Vec<u8>,
    pub session_id: Option<u64>,
}

pub struct MailboxCallView {
    pub source_chain: ChainId,
    pub dest_chain: ChainId,
    pub sender: Seq<u8>,
    pub receiver: Seq<u8>,
    pub label: Seq<char>,
    pub data: Seq<u8>,
    pub session_id: Option<u64>,
}

impl DeepView for MailboxCall {
    type V = MailboxCallView;

    open spec fn deep_view(&self) -> MailboxCallView {
        MailboxCallView {
            source_chain: self.source_chain,
            dest_chain: self.dest_chain,
            sender: self.sender@,
            receiver: self.receiver@,
            label: self.label@,
            data: self.data@,
            session_id: self.session_id,
        }
    }
}

/// The mailbox reads and writes a call trace shows.
#[derive(Debug)]
pub struct ParsedMailbox {
    pub reads: Vec<MailboxCall>,
    pub writes: Vec<MailboxCall>,
}

/// The `error` field of a call trace.
#[derive(Debug)]
pub enum TraceErrorField {
    /// A string.
    Text(String),
    /// Any other JSON value.
    NonText,
}

/// What the call tracer returned for a transaction.
#[derive(Debug)]
pub struct CallTrace {
    pub error: Option<TraceErrorField>,
    pub state_overrides: Option<StateOverrides>,
    pub mailbox: ParsedMailbox,
}

/// The mailbox calls of a call trace. Trace parsing is not implemented yet:
/// no call is ever found.
pub fn parse_call_trace<T>(trace: &T) -> (s: ParsedMailbox)
    ensures
        s.reads@.len() == 0,
        s.writes@.len() == 0,
{
    ParsedMailbox { reads: Vec::new(), writes: Vec::new() }
}

pub open spec fn session_word(s: Option<u64>) -> Option<Seq<u8>> {
    match s {
        Some(v) => Some(word_bytes(v as nat)),
        None => None,
    }
}

/// The dependency a mailbox read stands for.
pub open spec fn read_dependency(c: MailboxCallView) -> CrossRollupDependencyView {
    CrossRollupDependencyView {
        source_chain_id: c.source_chain,
        dest_chain_id: c.dest_chain,
        sender: c.sender,
        receiver: c.receiver,
        label: encode_utf8(c.label),
        data: None,
        session_id: session_word(c.session_id),
    }
}

/// The outbound message a mailbox write stands for.
pub open spec fn write_message(c: MailboxCallView) -> CrossRollupMessageView {
    CrossRollupMessageView {
        source_chain_id: c.source_chain,
        dest_chain_id: c.dest_chain,
        sender: c.sender,
        receiver: c.receiver,
        label: c.label,
        data: c.data,
        session_id: session_word(c.session_id),
    }
}

fn session_to_word(s: Option<u64>) -> (w: Option<Word>)
    ensures
        opt_bytes(w) == session_word(s),
{
    match s {
        Some(v) => Some(word_from_u128(v as u128)),
        None => None,
    }
}

fn dependency_of_read(c: &MailboxCall) -> (d: CrossRollupDependency)
    ensures
        d.deep_view() == read_dependency(c.deep_view()),
{
    let label = c.label.as_str().as_bytes_vec();
    let d = CrossRollupDependency {
        source_chain_id: c.source_chain,
        dest_chain_id: c.dest_chain,
        sender: c.sender,
        receiver: c.receiver,
        label,
        data: None,
        session_id: session_to_word(c.session_id),
    };
    proof {
        assert(d.label.deep_view() =~= d.label@);
        assert(d.sender.deep_view() =~= d.sender@);
        assert(d.receiver.deep_view() =~= d.receiver@);
        assert(d.session_id.deep_view() == opt_bytes(d.session_id));
    }
    d
}

fn message_of_write(c: &MailboxCall) -> (m: CrossRollupMessage)
    ensures
        m.deep_view() == write_message(c.deep_view()),
{
    let m = CrossRollupMessage {
        source_chain_id: c.source_chain,
        dest_chain_id: c.dest_chain,
        sender: c.sender,
        receiver: c.receiver,
        label: c.label.clone(),
        data: c.data.deep_clone(),
        session_id: session_to_word(c.session_id),
    };
    proof {
        assert(m.data.deep_view() =~= m.data@);
        assert(c.data.deep_view() =~= c.data@);
        assert(m.sender.deep_view() =~= m.sender@);
        assert(m.receiver.deep_view() =~= m.receiver@);
        assert(m.session_id.deep_view() == opt_bytes(m.session_id));
    }
    m
}

impl RpcSimulator {
    /// The dependencies and outbound messages that the mailbox calls of a
    /// trace stand for; none when no mailbox address is set.
    pub fn extract_mailbox_data(&self, parsed: &ParsedMailbox) -> (r: (Vec<CrossRollupDependency>, Vec<CrossRollupMessage>))
        ensures
            self.mailbox_address is None ==> r.0@.len() == 0 && r.1@.len() == 0,
            self.mailbox_address is Some ==> r.0.deep_view() == parsed.reads.deep_view().map_values(
                |c: MailboxCallView| read_dependency(c),
            ) && r.1.deep_view() == parsed.writes.deep_view().map_values(|c: MailboxCallView| write_message(c)),
    {
        let mut deps: Vec<CrossRollupDependency> = Vec::new();
        let mut msgs: Vec<CrossRollupMessage> = Vec::new();
        if self.mailbox_address.is_none() {
            return (deps, msgs);
        }
        let mut i: usize = 0;
        while i < parsed.reads.len()
            invariant
                i <= parsed.reads@.len(),
                deps.deep_view() == parsed.reads.deep_view().subrange(0, i as int).map_values(
                    |c: MailboxCallView| read_dependency(c),
                ),
            decreases parsed.reads@.len() - i,
        {
            let d = dependency_of_read(&parsed.reads[i]);
            let ghost before = deps.deep_view();
            deps.push(d);
            proof {
                let rs = parsed.reads.deep_view();
                assert(rs[i as int] == parsed.reads@[i as int].deep_view());
                assert(deps.deep_view() =~= before.push(d.deep_view()));
                assert forall|k: int| 0 <= k < i implies before[k] == read_dependency(rs[k]) by {
                    assert(rs.subrange(0, i as int)[k] == rs[k]);
                }
                assert(deps.deep_view() =~= parsed.reads.deep_view().subrange(0, i as int + 1).map_values(
                    |c: MailboxCallView| read_dependency(c),
                ));
            }
            i = i + 1;
        }
        let mut j: usize = 0;
        while j < parsed.writes.len()
            invariant
                j <= parsed.writes@.len(),
                msgs.deep_view() == parsed.writes.deep_view().subrange(0, j as int).map_values(
                    |c: MailboxCallView| write_message(c),
                ),
            decreases parsed.writes@.len() - j,
        {
            let m = message_of_write(&parsed.writes[j]);
            let ghost before = msgs.deep_view();
            msgs.push(m);
            proof {
                let ws = parsed.writes.deep_view();
                assert(ws[j as int] == parsed.writes@[j as int].deep_view());
                assert(msgs.deep_view() =~= before.push(m.deep_view()));
                assert forall|k: int| 0 <= k < j implies before[k] == write_message(ws[k]) by {
                    assert(ws.subrange(0, j as int)[k] == ws[k]);
                }
                assert(msgs.deep_view() =~= parsed.writes.deep_view().subrange(0, j as int + 1).map_values(
                    |c: MailboxCallView| write_message(c),
                ));
            }
            j = j + 1;
        }
        proof {
            assert(parsed.reads.deep_view().subrange(0, i as int) =~= parsed.reads.deep_view());
            assert(parsed.writes.deep_view().subrange(0, j as int) =~= parsed.writes.deep_view());
        }
        (deps, msgs)
    }

    /// The simulation result a call trace gives: the transaction succeeded
    /// unless the trace carries a non-empty error string, which is then the
    /// error; the trace's state overrides and mailbox data are passed on.
    pub fn simulation_result(&self, trace: CallTrace) -> (r: SimulationResult)
        ensures
            r.success == match trace.error {
                Some(TraceErrorField::Text(s)) => s@.len() == 0,
                _ => true,
            },
            match trace.error {
                Some(TraceErrorField::Text(s)) => r.error is Some && r.error.unwrap()@ == s@,
                _ => r.error is None,
            },
            r.state_overrides.deep_view() == trace.state_overrides.deep_view(),
            self.mailbox_address is None ==> r.dependencies@.len() == 0 && r.outbound_messages@.len() == 0,
            self.mailbox_address is Some ==> r.dependencies.deep_view() == trace.mailbox.reads.deep_view().map_values(
                |c: MailboxCallView| read_dependency(c),
            ) && r.outbound_messages.deep_view() == trace.mailbox.writes.deep_view().map_values(
                |c: MailboxCallView| write_message(c),
            ),
    {
        let (dependencies, outbound_messages) = self.extract_mailbox_data(&trace.mailbox);
        let (success, error) = match trace.error {
            Some(TraceErrorField::Text(s)) => (s.unicode_len() == 0, Some(s)),
            _ => (true, None),
        };
        SimulationResult { success, error, state_overrides: trace.state_overrides, dependencies, outbound_messages }
    }
}

} // verus!
