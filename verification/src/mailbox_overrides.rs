//! State overrides that place fulfilled mailbox dependencies into the
//! mailbox contract's storage before a simulation.

use vstd::prelude::*;
use vstd::string::StringExecFns;

use crate::assoc::{DeepClone, StrMap};
use crate::evm::{keccak256, keccak256_digest, word_add, word_bytes, word_from_u128};
use crate::hex::{prefixed_hex, prefixed_hex_text};
use crate::overrides::{slots_object, AccountOverride, AccountOverrideView, FieldValue, FieldValueView, StateOverrides};
use crate::pipeline::be_value;
use crate::primitives::{Address, ChainId, CrossRollupDependency, CrossRollupDependencyView, Word};

verus! {

/// Storage slot of the mailbox contract's inbox mapping.
pub const INBOX_MAPPING_SLOT: u64 = 4;

/// Storage slot of the mailbox contract's created-keys mapping.
pub const CREATED_KEYS_MAPPING_SLOT: u64 = 6;

/// Solidity storage slot of `mapping[key]` for a mapping at slot `slot`.
pub open spec fn mapping_slot_of(key: Seq<u8>, slot: u64) -> Seq<u8> {
    keccak256_digest(key + word_bytes(slot as nat))
}

/// Solidity encoding of a short `bytes` value (at most 31 bytes) in one word:
/// the bytes left-aligned, twice the length in the last byte.
pub open spec fn short_word(data: Seq<u8>) -> Seq<u8> {
    let len = if data.len() < 31 { data.len() } else { 31 };
    Seq::new(32, |i: int| if i == 31 { (len * 2) as u8 } else if i < len { data[i] } else { 0 })
}

/// The `i`-th 32-byte chunk of `data`, zero-padded.
pub open spec fn chunk_word(data: Seq<u8>, i: int) -> Seq<u8> {
    Seq::new(32, |j: int| if 32 * i + j < data.len() { data[32 * i + j] } else { 0 })
}

/// Number of 32-byte chunks of a byte string of length `len`.
pub open spec fn chunk_count(len: nat) -> nat {
    ((len + 31) / 32) as nat
}

/// Storage writes (slot text, value text) that store `data` as a Solidity
/// `bytes` value at `slot`: short values in the slot itself; long ones as the
/// length word in the slot and the chunks from `keccak256(slot)` on.
pub open spec fn bytes_entries(slot: Seq<u8>, data: Seq<u8>) -> Seq<(Seq<char>, Seq<char>)> {
    if data.len() <= 31 {
        seq![(prefixed_hex_text(slot), prefixed_hex_text(short_word(data)))]
    } else {
        let base = be_value(keccak256_digest(slot));
        seq![(prefixed_hex_text(slot), prefixed_hex_text(word_bytes(data.len() * 2 + 1)))] + Seq::new(
            chunk_count(data.len()),
            |i: int| (prefixed_hex_text(word_bytes((base + i) as nat)), prefixed_hex_text(chunk_word(data, i))),
        )
    }
}

/// The map after inserting `es` in order.
pub open spec fn insert_all(m: Map<Seq<char>, Seq<char>>, es: Seq<(Seq<char>, Seq<char>)>) -> Map<Seq<char>, Seq<char>>
    decreases es.len(),
{
    if es.len() == 0 {
        m
    } else {
        insert_all(m, es.drop_last()).insert(es.last().0, es.last().1)
    }
}

proof fn lemma_insert_all_append(m: Map<Seq<char>, Seq<char>>, a: Seq<(Seq<char>, Seq<char>)>, b: Seq<(Seq<char>, Seq<char>)>)
    ensures
        insert_all(m, a + b) == insert_all(insert_all(m, a), b),
    decreases b.len(),
{
    if b.len() == 0 {
        assert(a + b =~= a);
    } else {
        lemma_insert_all_append(m, a, b.drop_last());
        assert((a + b).drop_last() =~= a + b.drop_last());
    }
}

/// The key of a dependency's message in the mailbox contract, when it has a session.
pub open spec fn mailbox_key_of(chain_id: u64, dep: CrossRollupDependencyView) -> Option<Seq<u8>> {
    match dep.session_id {
        Some(s) => Some(keccak256_digest(
            word_bytes(dep.source_chain_id.0 as nat) + word_bytes(chain_id as nat) + dep.sender + dep.receiver + s + dep.label,
        )),
        None => None,
    }
}

/// Storage writes that deliver one fulfilled dependency to chain `chain_id`:
/// its data into the inbox, and a mark in the created-keys mapping.
pub open spec fn dep_entries(chain_id: u64, dep: CrossRollupDependencyView) -> Seq<(Seq<char>, Seq<char>)> {
    if dep.dest_chain_id.0 != chain_id || dep.data is None || mailbox_key_of(chain_id, dep) is None {
        Seq::empty()
    } else {
        let key = mailbox_key_of(chain_id, dep).unwrap();
        bytes_entries(mapping_slot_of(key, INBOX_MAPPING_SLOT), dep.data.unwrap()) + seq![
            (prefixed_hex_text(mapping_slot_of(key, CREATED_KEYS_MAPPING_SLOT)), prefixed_hex_text(word_bytes(1))),
        ]
    }
}

/// Storage writes for all dependencies, in order.
pub open spec fn all_dep_entries(chain_id: u64, deps: Seq<CrossRollupDependencyView>) -> Seq<(Seq<char>, Seq<char>)>
    decreases deps.len(),
{
    if deps.len() == 0 {
        Seq::empty()
    } else {
        all_dep_entries(chain_id, deps.drop_last()) + dep_entries(chain_id, deps.last())
    }
}

/// The override document that writes `diff` into the storage of `mailbox`.
pub open spec fn mailbox_document(mailbox: Seq<u8>, diff: Map<Seq<char>, Seq<char>>) -> Map<Seq<char>, AccountOverrideView> {
    map![prefixed_hex_text(mailbox) => AccountOverrideView::Fields(map!["stateDiff"@ => slots_object(diff)])]
}

/// Storage slot of `mapping[key]` for a mapping at slot `slot`.
pub fn mapping_slot(key: &Word, slot: u64) -> (w: Word)
    ensures
        w@ == mapping_slot_of(key@, slot),
{
    let mut blob: Vec<u8> = Vec::new();
    push_word(&mut blob, key);
    let s = word_from_u128(slot as u128);
    push_word(&mut blob, &s);
    assert(blob@ =~= key@ + word_bytes(slot as nat));
    keccak256(blob.as_slice())
}

fn push_word(out: &mut Vec<u8>, w: &[u8])
    ensures
        final(out)@ == old(out)@ + w@,
{
    let mut i: usize = 0;
    while i < w.len()
        invariant
            i <= w@.len(),
            out@ == old(out)@ + w@.subrange(0, i as int),
        decreases w@.len() - i,
    {
        out.push(w[i]);
        proof {
            assert(out@ =~= old(out)@ + w@.subrange(0, i as int + 1));
        }
        i = i + 1;
    }
    assert(w@.subrange(0, w@.len() as int) =~= w@);
}

/// One-word encoding of a short `bytes` value; longer input is cut at 31 bytes.
pub fn encode_short_bytes(data: &[u8]) -> (w: Word)
    ensures
        w@ == short_word(data@),
{
    let mut word = [0u8; 32];
    let len: usize = if data.len() < 31 { data.len() } else { 31 };
    let mut i: usize = 0;
    while i < len
        invariant
            i <= len,
            len <= 31,
            len == (if data@.len() < 31 { data@.len() } else { 31 }),
            forall|j: int| 0 <= j < i ==> word[j] == data@[j],
            forall|j: int| i <= j < 32 ==> word[j] == 0,
        decreases len - i,
    {
        word[i] = data[i];
        i = i + 1;
    }
    word[31] = (len as u8) * 2;
    assert(word@ =~= short_word(data@));
    word
}

fn chunk_at(data: &[u8], i: usize) -> (w: Word)
    requires
        32 * i < data@.len(),
    ensures
        w@ == chunk_word(data@, i as int),
{
    let mut word = [0u8; 32];
    let l = data.len();
    assert(32 * i < l);
    let start = 32 * i;
    let mut j: usize = 0;
    while j < 32
        invariant
            j <= 32,
            start == 32 * i,
            start < data@.len(),
            forall|q: int| 0 <= q < j ==> word[q] == (if start + q < data@.len() { data@[start + q] } else { 0 }),
            forall|q: int| j <= q < 32 ==> word[q] == 0,
        decreases 32 - j,
    {
        if j < data.len() - start {
            word[j] = data[start + j];
        }
        j = j + 1;
    }
    assert(word@ =~= chunk_word(data@, i as int));
    word
}

/// Record in `state_diff` the storage writes that put `data` at `slot`.
pub fn apply_bytes_to_state_diff(state_diff: &mut StrMap<String>, slot: &Word, data: &[u8])
    ensures
        final(state_diff)@ == insert_all(old(state_diff)@, bytes_entries(slot@, data@)),
{
    let ghost m0 = state_diff@;
    if data.len() <= 31 {
        let k = prefixed_hex(slot);
        let sw = encode_short_bytes(data);
        let v = prefixed_hex(&sw);
        assert(k@ == prefixed_hex_text(slot@));
        assert(v@ == prefixed_hex_text(short_word(data@)));
        state_diff.insert(k, v);
        proof {
            let es = bytes_entries(slot@, data@);
            assert(es.len() == 1);
            assert(es.drop_last() =~= Seq::<(Seq<char>, Seq<char>)>::empty());
            assert(insert_all(m0, es.drop_last()) == m0);
            assert(es.last() == (k@, v@));
        }
        return;
    }
    let len_word = word_from_u128((data.len() as u128) * 2 + 1);
    let k0 = prefixed_hex(slot);
    let v0 = prefixed_hex(&len_word);
    assert(k0@ == prefixed_hex_text(slot@));
    assert(v0@ == prefixed_hex_text(word_bytes(data@.len() * 2 + 1)));
    state_diff.insert(k0, v0);
    let base = keccak256(slot);
    let ghost head = seq![(prefixed_hex_text(slot@), prefixed_hex_text(word_bytes(data@.len() * 2 + 1)))];
    let ghost chunks = Seq::new(
        chunk_count(data@.len()),
        |i: int| (prefixed_hex_text(word_bytes((be_value(keccak256_digest(slot@)) + i) as nat)), prefixed_hex_text(chunk_word(data@, i))),
    );
    proof {
        assert(head.drop_last() =~= Seq::<(Seq<char>, Seq<char>)>::empty());
        assert(insert_all(m0, head.drop_last()) == m0);
        assert(head.last() == (prefixed_hex_text(slot@), prefixed_hex_text(word_bytes(data@.len() * 2 + 1))));
        assert(state_diff@ == insert_all(m0, head));
    }
    let count = data.len() / 32 + if data.len() % 32 == 0 { 0 } else { 1 };
    proof {
        assert(count == chunk_count(data@.len()));
    }
    let mut i: usize = 0;
    while i < count
        invariant
            i <= count,
            count == chunk_count(data@.len()),
            data@.len() > 31,
            chunks.len() == count,
            base@ == keccak256_digest(slot@),
            chunks == Seq::new(
                chunk_count(data@.len()),
                |i: int| (prefixed_hex_text(word_bytes((be_value(keccak256_digest(slot@)) + i) as nat)), prefixed_hex_text(chunk_word(data@, i))),
            ),
            state_diff@ == insert_all(insert_all(m0, head), chunks.subrange(0, i as int)),
        decreases count - i,
    {
        proof {
            assert(32 * i < data@.len()) by (nonlinear_arith)
                requires
                    i < count,
                    count == (data@.len() + 31) / 32,
            ;
        }
        let key_word = word_add(&base, i as u64);
        let value_word = chunk_at(data, i);
        let kk = prefixed_hex(&key_word);
        let vv = prefixed_hex(&value_word);
        let ghost before = state_diff@;
        state_diff.insert(kk, vv);
        proof {
            let c1 = chunks.subrange(0, i as int + 1);
            assert(c1.drop_last() =~= chunks.subrange(0, i as int));
            assert(c1.last() == chunks[i as int]);
            assert(chunks[i as int] == (kk@, vv@));
        }
        i = i + 1;
    }
    proof {
        assert(chunks.subrange(0, count as int) =~= chunks);
        lemma_insert_all_append(m0, head, chunks);
        assert(bytes_entries(slot@, data@) =~= head + chunks);
    }
}

/// The key of a dependency's message in the mailbox contract of chain
/// `chain_id`; none without a session id.
pub fn mailbox_key(chain_id: ChainId, dep: &CrossRollupDependency) -> (k: Option<Word>)
    ensures
        match k {
            Some(w) => mailbox_key_of(chain_id.0, dep.deep_view()) == Some(w@),
            None => mailbox_key_of(chain_id.0, dep.deep_view()) is None,
        },
{
    let session = match &dep.session_id {
        Some(s) => s,
        None => {
            return None;
        },
    };
    let mut pre: Vec<u8> = Vec::new();
    let src = word_from_u128(dep.source_chain_id.0 as u128);
    let dst = word_from_u128(chain_id.0 as u128);
    push_word(&mut pre, &src);
    push_word(&mut pre, &dst);
    push_word(&mut pre, &dep.sender);
    push_word(&mut pre, &dep.receiver);
    push_word(&mut pre, session);
    push_word(&mut pre, dep.label.as_slice());
    proof {
        assert(dep.sender.deep_view() =~= dep.sender@);
        assert(dep.receiver.deep_view() =~= dep.receiver@);
        assert(session.deep_view() =~= session@);
        assert(dep.label.deep_view() =~= dep.label@);
        assert(pre@ =~= word_bytes(dep.source_chain_id.0 as nat) + word_bytes(chain_id.0 as nat) + dep.sender@ + dep.receiver@
            + session@ + dep.label@);
    }
    Some(keccak256(pre.as_slice()))
}

fn apply_dependency(state_diff: &mut StrMap<String>, chain_id: ChainId, dep: &CrossRollupDependency, one: &Word)
    requires
        one@ == word_bytes(1),
    ensures
        final(state_diff)@ == insert_all(old(state_diff)@, dep_entries(chain_id.0, dep.deep_view())),
{
    let ghost before = state_diff@;
    if dep.dest_chain_id.0 != chain_id.0 {
        return;
    }
    let data = match &dep.data {
        Some(d) => d,
        None => {
            return;
        },
    };
    let key = match mailbox_key(chain_id, dep) {
        Some(k) => k,
        None => {
            return;
        },
    };
    let inbox_slot = mapping_slot(&key, INBOX_MAPPING_SLOT);
    let created_slot = mapping_slot(&key, CREATED_KEYS_MAPPING_SLOT);
    apply_bytes_to_state_diff(state_diff, &inbox_slot, data.as_slice());
    let ghost mid = state_diff@;
    let kc = prefixed_hex(&created_slot);
    let vc = prefixed_hex(one);
    state_diff.insert(kc, vc);
    proof {
        assert(data.deep_view() =~= data@);
        let es = dep_entries(chain_id.0, dep.deep_view());
        let b = bytes_entries(inbox_slot@, data@);
        let tail = seq![(prefixed_hex_text(created_slot@), prefixed_hex_text(word_bytes(1)))];
        assert(es =~= b + tail);
        lemma_insert_all_append(before, b, tail);
        assert(tail.drop_last() =~= Seq::<(Seq<char>, Seq<char>)>::empty());
        assert(insert_all(mid, tail.drop_last()) == mid);
        assert(insert_all(mid, tail) == mid.insert(prefixed_hex_text(created_slot@), prefixed_hex_text(word_bytes(1))));
    }
}

/// State overrides that deliver the fulfilled dependencies `deps` aimed at
/// chain `chain_id` into the storage of its mailbox contract; none when no
/// dependency yields a storage write.
pub fn build_mailbox_state_overrides(chain_id: ChainId, mailbox_address: &Address, deps: &Vec<CrossRollupDependency>) -> (r: Option<StateOverrides>)
    ensures
        ({
            let diff = insert_all(Map::empty(), all_dep_entries(chain_id.0, deps.deep_view()));
            match r {
                Some(doc) => diff.dom().len() > 0 && doc@ == mailbox_document(mailbox_address.deep_view(), diff),
                None => diff.dom().len() == 0,
            }
        }),
{
    let mut state_diff: StrMap<String> = StrMap::new();
    let one = word_from_u128(1);
    let mut i: usize = 0;
    while i < deps.len()
        invariant
            i <= deps@.len(),
            one@ == word_bytes(1),
            state_diff@ == insert_all(Map::empty(), all_dep_entries(chain_id.0, deps.deep_view().subrange(0, i as int))),
        decreases deps@.len() - i,
    {
        let dep = &deps[i];
        let ghost before = state_diff@;
        proof {
            let s1 = deps.deep_view().subrange(0, i as int + 1);
            assert(s1.drop_last() =~= deps.deep_view().subrange(0, i as int));
            assert(s1.last() == dep.deep_view());
            lemma_insert_all_append(
                Map::empty(),
                all_dep_entries(chain_id.0, deps.deep_view().subrange(0, i as int)),
                dep_entries(chain_id.0, dep.deep_view()),
            );
        }
        apply_dependency(&mut state_diff, chain_id, dep, &one);
        i = i + 1;
    }
    proof {
        assert(deps.deep_view().subrange(0, deps@.len() as int) =~= deps.deep_view());
    }
    if state_diff.len() == 0 {
        return None;
    }
    let diff_obj = crate::overrides::map_to_json_object(&state_diff);
    let mut fields: StrMap<FieldValue> = StrMap::new();
    let diff_key = String::from_str("stateDiff");
    fields.insert(diff_key, diff_obj);
    let mut doc: StateOverrides = StrMap::new();
    doc.insert(prefixed_hex(mailbox_address), AccountOverride::Fields(fields));
    proof {
        assert(mailbox_address.deep_view() =~= mailbox_address@);
        assert(doc@ =~= mailbox_document(mailbox_address.deep_view(), state_diff@));
    }
    Some(doc)
}

} // verus!
