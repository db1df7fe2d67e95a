//! JSON text of state-override documents, and the check that such a text is
//! a state override that an RPC node accepts.

use vstd::prelude::*;
use vstd::utf8::encode_utf8;

use crate::assoc::StrMap;
use crate::overrides::{AccountOverride, FieldValue, SlotValue, StateOverrides};

verus! {

/// The lowercase hex digit of a nibble, as a byte.
pub open spec fn hex_digit_byte(n: u8) -> u8 {
    if n < 10 {
        (48 + n) as u8
    } else {
        (87 + n) as u8
    }
}

/// A byte of a JSON string's contents: quote and backslash escaped, control
/// bytes as `\u00XX`, every other byte as it is.
pub open spec fn escape_byte(b: u8) -> Seq<u8> {
    if b == 34 {
        seq![92u8, 34u8]
    } else if b == 92 {
        seq![92u8, 92u8]
    } else if b < 32 {
        seq![92u8, 117u8, 48u8, 48u8, hex_digit_byte(b / 16), hex_digit_byte(b % 16)]
    } else {
        seq![b]
    }
}

/// The escaped contents of a JSON string holding the bytes `s`.
pub open spec fn escaped(s: Seq<u8>) -> Seq<u8>
    decreases s.len(),
{
    if s.len() == 0 {
        Seq::empty()
    } else {
        escaped(s.drop_last()) + escape_byte(s.last())
    }
}

/// The JSON string of `s`, as UTF-8 bytes.
pub open spec fn json_string(s: Seq<char>) -> Seq<u8> {
    seq![34u8] + escaped(encode_utf8(s)) + seq![34u8]
}

/// One member of a JSON object: its key, a colon, its value.
pub open spec fn member(k: Seq<char>, v: Seq<u8>) -> Seq<u8> {
    json_string(k) + seq![58u8] + v
}

/// The first `n` members of an object with keys `ks` and values `vs`
/// written by `f`, separated by commas.
pub open spec fn members<V>(ks: Seq<Seq<char>>, vs: Seq<V>, f: spec_fn(V) -> Seq<u8>, n: int) -> Seq<u8>
    decreases n,
{
    if n <= 0 {
        Seq::empty()
    } else if n == 1 {
        member(ks[0], f(vs[0]))
    } else {
        members(ks, vs, f, n - 1) + seq![44u8] + member(ks[n - 1], f(vs[n - 1]))
    }
}

/// The JSON object with keys `ks` and values `vs` written by `f`.
pub open spec fn object_json<V>(ks: Seq<Seq<char>>, vs: Seq<V>, f: spec_fn(V) -> Seq<u8>) -> Seq<u8> {
    seq![123u8] + members(ks, vs, f, ks.len() as int) + seq![125u8]
}

/// A slot value: a string, or the JSON text it holds.
pub open spec fn slot_json(v: SlotValue) -> Seq<u8> {
    match v {
        SlotValue::Hex(s) => json_string(s@),
        SlotValue::Other(t) => encode_utf8(t@),
    }
}

/// An object of slots, in storage order.
pub open spec fn slots_json(m: StrMap<SlotValue>) -> Seq<u8> {
    object_json(m.key_seq(), m.value_seq(), |v: SlotValue| slot_json(v))
}

/// A field value: a string, an object of slots, or the JSON text it holds.
pub open spec fn field_json(v: FieldValue) -> Seq<u8> {
    match v {
        FieldValue::Text(s) => json_string(s@),
        FieldValue::Object(m) => slots_json(m),
        FieldValue::Other(t) => encode_utf8(t@),
    }
}

/// An account override: an object of fields, or the JSON text it holds.
pub open spec fn account_json(a: AccountOverride) -> Seq<u8> {
    match a {
        AccountOverride::Fields(m) => object_json(m.key_seq(), m.value_seq(), |v: FieldValue| field_json(v)),
        AccountOverride::Other(t) => encode_utf8(t@),
    }
}

/// The JSON text of an override document, accounts and fields in storage order.
pub open spec fn document_json(d: StateOverrides) -> Seq<u8> {
    object_json(d.key_seq(), d.value_seq(), |a: AccountOverride| account_json(a))
}

fn push_byte_escaped(out: &mut Vec<u8>, b: u8)
    ensures
        final(out)@ == old(out)@ + escape_byte(b),
{
    if b == 34 {
        out.push(92);
        out.push(34);
    } else if b == 92 {
        out.push(92);
        out.push(92);
    } else if b < 32 {
        let hi = b / 16;
        let lo = b % 16;
        out.push(92);
        out.push(117);
        out.push(48);
        out.push(48);
        out.push(if hi < 10 { 48 + hi } else { 87 + hi });
        out.push(if lo < 10 { 48 + lo } else { 87 + lo });
    } else {
        out.push(b);
    }
    assert(out@ =~= old(out)@ + escape_byte(b));
}

/// Append the JSON string of `s`.
fn push_json_string(out: &mut Vec<u8>, s: &str)
    ensures
        final(out)@ == old(out)@ + json_string(s@),
{
    let bytes = s.as_bytes();
    out.push(34);
    let ghost start = out@;
    let mut i: usize = 0;
    while i < bytes.len()
        invariant
            i <= bytes@.len(),
            bytes@ == encode_utf8(s@),
            start == old(out)@ + seq![34u8],
            out@ == start + escaped(bytes@.subrange(0, i as int)),
        decreases bytes@.len() - i,
    {
        push_byte_escaped(out, bytes[i]);
        proof {
            let t = bytes@.subrange(0, i as int + 1);
            assert(t.drop_last() =~= bytes@.subrange(0, i as int));
            assert(t.last() == bytes@[i as int]);
            assert(out@ =~= start + escaped(t));
        }
        i = i + 1;
    }
    out.push(34);
    proof {
        assert(bytes@.subrange(0, i as int) =~= bytes@);
        assert(out@ =~= old(out)@ + json_string(s@));
    }
}

/// Append `s` as it is.
fn push_text(out: &mut Vec<u8>, s: &str)
    ensures
        final(out)@ == old(out)@ + encode_utf8(s@),
{
    let bytes = s.as_bytes();
    let mut i: usize = 0;
    while i < bytes.len()
        invariant
            i <= bytes@.len(),
            bytes@ == encode_utf8(s@),
            out@ == old(out)@ + bytes@.subrange(0, i as int),
        decreases bytes@.len() - i,
    {
        out.push(bytes[i]);
        proof {
            assert(out@ =~= old(out)@ + bytes@.subrange(0, i as int + 1));
        }
        i = i + 1;
    }
    proof {
        assert(bytes@.subrange(0, i as int) =~= bytes@);
    }
}

proof fn lemma_members_step<V>(ks: Seq<Seq<char>>, vs: Seq<V>, f: spec_fn(V) -> Seq<u8>, i: int)
    requires
        0 <= i,
    ensures
        members(ks, vs, f, i + 1) == members(ks, vs, f, i) + (if i > 0 { seq![44u8] } else { Seq::empty() }) + member(
            ks[i],
            f(vs[i]),
        ),
{
    if i == 0 {
        assert(members(ks, vs, f, 1) =~= Seq::<u8>::empty() + Seq::<u8>::empty() + member(ks[0], f(vs[0])));
    }
}

fn push_slot(out: &mut Vec<u8>, v: &SlotValue)
    ensures
        final(out)@ == old(out)@ + slot_json(*v),
{
    match v {
        SlotValue::Hex(s) => push_json_string(out, s.as_str()),
        SlotValue::Other(t) => push_text(out, t.as_str()),
    }
}

fn push_slots(out: &mut Vec<u8>, m: &StrMap<SlotValue>)
    ensures
        final(out)@ == old(out)@ + slots_json(*m),
{
    let ghost f = |v: SlotValue| slot_json(v);
    let n = m.len();
    out.push(123);
    let ghost start = out@;
    let mut i: usize = 0;
    while i < n
        invariant
            i <= n,
            n == m.key_seq().len(),
            n == m.value_seq().len(),
            n == m@.dom().len(),
            f == (|v: SlotValue| slot_json(v)),
            out@ == start + members(m.key_seq(), m.value_seq(), f, i as int),
        decreases n - i,
    {
        proof {
            lemma_members_step(m.key_seq(), m.value_seq(), f, i as int);
        }
        let ghost before = out@;
        if i > 0 {
            out.push(44);
        }
        let k = m.key_at(i);
        push_json_string(out, k.as_str());
        out.push(58);
        let v = m.value_at(i);
        push_slot(out, v);
        proof {
            assert(out@ =~= before + (if i > 0 { seq![44u8] } else { Seq::empty() }) + member(
                m.key_seq()[i as int],
                f(m.value_seq()[i as int]),
            ));
        }
        i = i + 1;
    }
    out.push(125);
    proof {
        assert(out@ =~= old(out)@ + slots_json(*m));
    }
}

fn push_field(out: &mut Vec<u8>, v: &FieldValue)
    ensures
        final(out)@ == old(out)@ + field_json(*v),
{
    match v {
        FieldValue::Text(s) => push_json_string(out, s.as_str()),
        FieldValue::Object(m) => push_slots(out, m),
        FieldValue::Other(t) => push_text(out, t.as_str()),
    }
}

fn push_account(out: &mut Vec<u8>, a: &AccountOverride)
    ensures
        final(out)@ == old(out)@ + account_json(*a),
{
    match a {
        AccountOverride::Other(t) => push_text(out, t.as_str()),
        AccountOverride::Fields(m) => {
            let ghost f = |v: FieldValue| field_json(v);
            let n = m.len();
            out.push(123);
            let ghost start = out@;
            let mut i: usize = 0;
            while i < n
                invariant
                    i <= n,
                    n == m.key_seq().len(),
                    n == m.value_seq().len(),
                    n == m@.dom().len(),
                    f == (|v: FieldValue| field_json(v)),
                    out@ == start + members(m.key_seq(), m.value_seq(), f, i as int),
                decreases n - i,
            {
                proof {
                    lemma_members_step(m.key_seq(), m.value_seq(), f, i as int);
                }
                let ghost before = out@;
                if i > 0 {
                    out.push(44);
                }
                let k = m.key_at(i);
                push_json_string(out, k.as_str());
                out.push(58);
                let v = m.value_at(i);
                push_field(out, v);
                proof {
                    assert(out@ =~= before + (if i > 0 { seq![44u8] } else { Seq::empty() }) + member(
                        m.key_seq()[i as int],
                        f(m.value_seq()[i as int]),
                    ));
                }
                i = i + 1;
            }
            out.push(125);
            proof {
                assert(out@ =~= old(out)@ + account_json(*a));
            }
        },
    }
}

/// The JSON text of an override document.
pub fn document_text(d: &StateOverrides) -> (t: Vec<u8>)
    ensures
        t@ == document_json(*d),
{
    let mut out: Vec<u8> = Vec::new();
    let ghost f = |a: AccountOverride| account_json(a);
    let n = d.len();
    out.push(123);
    let ghost start = out@;
    let mut i: usize = 0;
    while i < n
        invariant
            i <= n,
            n == d.key_seq().len(),
            n == d.value_seq().len(),
            n == d@.dom().len(),
            f == (|a: AccountOverride| account_json(a)),
            start == seq![123u8],
            out@ == start + members(d.key_seq(), d.value_seq(), f, i as int),
        decreases n - i,
    {
        proof {
            lemma_members_step(d.key_seq(), d.value_seq(), f, i as int);
        }
        let ghost before = out@;
        if i > 0 {
            out.push(44);
        }
        let k = d.key_at(i);
        push_json_string(&mut out, k.as_str());
        out.push(58);
        let v = d.value_at(i);
        push_account(&mut out, v);
        proof {
            assert(out@ =~= before + (if i > 0 { seq![44u8] } else { Seq::empty() }) + member(
                d.key_seq()[i as int],
                f(d.value_seq()[i as int]),
            ));
        }
        i = i + 1;
    }
    out.push(125);
    proof {
        assert(out@ =~= document_json(*d));
    }
    out
}

/// Whether `serde_json` reads `text` as an `alloy_rpc_types_eth::state::StateOverride`.
pub uninterp spec fn state_override_json_ok(text: Seq<u8>) -> bool;

/// Calls `serde_json::from_slice::<alloy_rpc_types_eth::state::StateOverride>`
/// on `text`: `Ok` exactly when it parses (named `state_override_json_ok`);
/// the error's text is not stated.
#[verifier::external_body]
pub(crate) fn parse_state_override_text(text: &[u8]) -> (r: Result<(), String>)
    ensures
        r is Ok <==> state_override_json_ok(text@),
{
    match serde_json::from_slice::<alloy_rpc_types_eth::state::StateOverride>(text) {
        Ok(_) => Ok(()),
        Err(e) => Err(format!("{e}")),
    }
}

} // verus!
