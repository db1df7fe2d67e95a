//! State-override documents (`{address: {field: value}}`) and their merge rules.
//!
//! An override document maps an account address to either an object of fields
//! or some other JSON value. A field holds a string, an object of storage slots
//! (as `state` and `stateDiff` do) or some other JSON value; a slot holds a hex
//! string or some other JSON value. Values that the rules below never look into
//! are kept as their JSON text.

use vstd::prelude::*;

use vstd::string::StringExecFns;

use crate::assoc::{DeepClone, MapKey, StrMap};

verus! {

/// A value inside a storage-slot object.
#[derive(Debug)]
pub enum SlotValue {
    /// A JSON string, such as `"0x10"`.
    Hex(String),
    /// Any other JSON value, as its text.
    Other(String),
}

pub enum SlotValueView {
    Hex(Seq<char>),
    Other(Seq<char>),
}

impl DeepView for SlotValue {
    type V = SlotValueView;

    open spec fn deep_view(&self) -> SlotValueView {
        match self {
            SlotValue::Hex(s) => SlotValueView::Hex(s@),
            SlotValue::Other(s) => SlotValueView::Other(s@),
        }
    }
}

impl DeepClone for SlotValue {
    fn deep_clone(&self) -> (r: Self) {
        match self {
            SlotValue::Hex(s) => SlotValue::Hex(s.clone()),
            SlotValue::Other(s) => SlotValue::Other(s.clone()),
        }
    }
}

/// The value of one field of an account override.
#[derive(Debug)]
pub enum FieldValue {
    /// A JSON string.
    Text(String),
    /// A JSON object, slot by slot.
    Object(StrMap<SlotValue>),
    /// Any other JSON value, as its text.
    Other(String),
}

pub enum FieldValueView {
    Text(Seq<char>),
    Object(Map<Seq<char>, SlotValueView>),
    Other(Seq<char>),
}

impl DeepView for FieldValue {
    type V = FieldValueView;

    open spec fn deep_view(&self) -> FieldValueView {
        match self {
            FieldValue::Text(s) => FieldValueView::Text(s@),
            FieldValue::Object(m) => FieldValueView::Object(m@),
            FieldValue::Other(s) => FieldValueView::Other(s@),
        }
    }
}

impl DeepClone for FieldValue {
    fn deep_clone(&self) -> (r: Self) {
        match self {
            FieldValue::Text(s) => FieldValue::Text(s.clone()),
            FieldValue::Object(m) => FieldValue::Object(m.deep_clone()),
            FieldValue::Other(s) => FieldValue::Other(s.clone()),
        }
    }
}

/// The override of one account.
#[derive(Debug)]
pub enum AccountOverride {
    /// A JSON object, field by field.
    Fields(StrMap<FieldValue>),
    /// Any other JSON value, as its text.
    Other(String),
}

pub enum AccountOverrideView {
    Fields(Map<Seq<char>, FieldValueView>),
    Other(Seq<char>),
}

impl DeepView for AccountOverride {
    type V = AccountOverrideView;

    open spec fn deep_view(&self) -> AccountOverrideView {
        match self {
            AccountOverride::Fields(m) => AccountOverrideView::Fields(m@),
            AccountOverride::Other(s) => AccountOverrideView::Other(s@),
        }
    }
}

impl DeepClone for AccountOverride {
    fn deep_clone(&self) -> (r: Self) {
        match self {
            AccountOverride::Fields(m) => AccountOverride::Fields(m.deep_clone()),
            AccountOverride::Other(s) => AccountOverride::Other(s.clone()),
        }
    }
}

/// A state-override document: address to account override.
pub type StateOverrides = StrMap<AccountOverride>;

/// A JSON value that is expected to be an override document.
#[derive(Debug)]
pub enum OverridesValue {
    /// A JSON object: the document itself.
    Object(StateOverrides),
    /// Any other JSON value, as its text.
    Other(String),
}

/// Name of the field holding an account's full storage.
pub open spec fn state_key() -> Seq<char> {
    "state"@
}

/// Name of the field holding changes to an account's storage.
pub open spec fn state_diff_key() -> Seq<char> {
    "stateDiff"@
}

/// The string-valued slots of a field that is an object; nothing otherwise.
pub open spec fn hex_slots(v: FieldValueView) -> Map<Seq<char>, Seq<char>> {
    match v {
        FieldValueView::Object(m) => Map::new(
            |k: Seq<char>| m.dom().contains(k) && m[k] is Hex,
            |k: Seq<char>| m[k]->Hex_0,
        ),
        _ => Map::empty(),
    }
}

/// An object of string slots.
pub open spec fn slots_object(m: Map<Seq<char>, Seq<char>>) -> FieldValueView {
    FieldValueView::Object(m.map_values(|s: Seq<char>| SlotValueView::Hex(s)))
}

/// The slots of the field named `k`, if the account has it.
pub open spec fn hex_slots_of(fields: Map<Seq<char>, FieldValueView>, k: Seq<char>) -> Map<Seq<char>, Seq<char>> {
    if fields.dom().contains(k) {
        hex_slots(fields[k])
    } else {
        Map::empty()
    }
}

/// Merge the fields `new` of an account into its fields `existing`:
/// a new `state` replaces the storage and drops any `stateDiff`; a new
/// `stateDiff` is laid over the `state` when there is one, else over the
/// `stateDiff`; every other new field replaces the old one.
pub open spec fn merge_fields(
    existing: Map<Seq<char>, FieldValueView>,
    new: Map<Seq<char>, FieldValueView>,
) -> Map<Seq<char>, FieldValueView> {
    let e1 = if new.dom().contains(state_key()) {
        existing.insert(state_key(), new[state_key()]).remove(state_diff_key())
    } else {
        existing
    };
    let e2 = if new.dom().contains(state_diff_key()) {
        let overlay = hex_slots(new[state_diff_key()]);
        if e1.dom().contains(state_key()) {
            e1.insert(state_key(), slots_object(hex_slots(e1[state_key()]).union_prefer_right(overlay))).remove(
                state_diff_key(),
            )
        } else {
            e1.insert(state_diff_key(), slots_object(hex_slots_of(e1, state_diff_key()).union_prefer_right(overlay)))
        }
    } else {
        e1
    };
    e2.union_prefer_right(new.remove(state_key()).remove(state_diff_key()))
}

/// One account's override merged with a newer one: two objects merge field
/// by field; otherwise the newer override replaces the older.
pub open spec fn merge_account(base: AccountOverrideView, other: AccountOverrideView) -> AccountOverrideView {
    match (base, other) {
        (AccountOverrideView::Fields(e), AccountOverrideView::Fields(n)) => AccountOverrideView::Fields(merge_fields(e, n)),
        _ => other,
    }
}

/// Two override documents merged, the second taking precedence.
pub open spec fn merge_overrides(
    base: Map<Seq<char>, AccountOverrideView>,
    other: Map<Seq<char>, AccountOverrideView>,
) -> Map<Seq<char>, AccountOverrideView> {
    Map::new(
        |k: Seq<char>| base.dom().contains(k) || other.dom().contains(k),
        |k: Seq<char>|
            if other.dom().contains(k) {
                if base.dom().contains(k) {
                    merge_account(base[k], other[k])
                } else {
                    other[k]
                }
            } else {
                base[k]
            },
    )
}

/// The override document of an optional JSON value: an object is the
/// document, anything else an empty one.
pub open spec fn document_of(v: Option<OverridesValue>) -> Map<Seq<char>, AccountOverrideView> {
    match v {
        Some(OverridesValue::Object(m)) => m@,
        _ => Map::empty(),
    }
}

/// Parse state overrides from an optional JSON value.
pub fn parse_state_overrides(value: &Option<OverridesValue>) -> (m: StateOverrides)
    ensures
        m@ == document_of(*value),
{
    match value {
        Some(OverridesValue::Object(m)) => m.deep_clone(),
        _ => StateOverrides::new(),
    }
}

/// Clone a state override document.
pub fn clone_state_overrides(overrides: &StateOverrides) -> (m: StateOverrides)
    ensures
        m@ == overrides@,
{
    overrides.deep_clone()
}

/// The string-valued slots of a field, when the field is an object.
pub fn normalize_hex_map(value: &FieldValue) -> (m: StrMap<String>)
    ensures
        m@ == hex_slots(value.deep_view()),
{
    let mut m: StrMap<String> = StrMap::new();
    match value {
        FieldValue::Object(obj) => {
            let n = obj.len();
            let ghost ks = obj.key_seq();
            let mut i: usize = 0;
            while i < n
                invariant
                    i <= n,
                    n == obj@.dom().len(),
                    ks == obj.key_seq(),
                    ks.len() == n,
                    ks.no_duplicates(),
                    forall|j: int| 0 <= j < ks.len() ==> #[trigger] obj@.dom().contains(ks[j]),
                    forall|k: Seq<char>| #[trigger] obj@.dom().contains(k) <==> ks.contains(k),
                    forall|k: Seq<char>| #[trigger] m@.dom().contains(k) <==> (ks.subrange(0, i as int).contains(k) && obj@[k] is Hex),
                    forall|k: Seq<char>| #[trigger] m@.dom().contains(k) ==> m@[k] == obj@[k]->Hex_0,
                decreases n - i,
            {
                let k = obj.key_at(i);
                match obj.value_at(i) {
                    SlotValue::Hex(s) => {
                        m.insert(k.copy_key(), s.clone());
                    },
                    SlotValue::Other(_) => {},
                }
                proof {
                    let t0 = ks.subrange(0, i as int);
                    let t1 = ks.subrange(0, i as int + 1);
                    assert forall|x: Seq<char>| t1.contains(x) <==> (t0.contains(x) || x == ks[i as int]) by {
                        if t1.contains(x) {
                            let j = choose|j: int| 0 <= j < t1.len() && #[trigger] t1[j] == x;
                            if j < i {
                                assert(t0[j] == x);
                            }
                        }
                        if t0.contains(x) {
                            let j = choose|j: int| 0 <= j < t0.len() && #[trigger] t0[j] == x;
                            assert(t1[j] == x);
                        }
                        if x == ks[i as int] {
                            assert(t1[i as int] == x);
                        }
                    }
                }
                i = i + 1;
            }
            proof {
                assert(ks.subrange(0, n as int) =~= ks);
                assert(m@ =~= hex_slots(value.deep_view()));
            }
        },
        _ => {
            proof {
                assert(m@ =~= hex_slots(value.deep_view()));
            }
        },
    }
    m
}

/// The object of string slots that a map of slot texts describes.
pub fn map_to_json_object(map: &StrMap<String>) -> (v: FieldValue)
    ensures
        v.deep_view() == slots_object(map@),
{
    let mut obj: StrMap<SlotValue> = StrMap::new();
    let n = map.len();
    let ghost ks = map.key_seq();
    let mut i: usize = 0;
    while i < n
        invariant
            i <= n,
            n == map@.dom().len(),
            ks == map.key_seq(),
            ks.len() == n,
            forall|j: int| 0 <= j < ks.len() ==> #[trigger] map@.dom().contains(ks[j]),
            forall|k: Seq<char>| #[trigger] map@.dom().contains(k) <==> ks.contains(k),
            obj@ == map@.restrict(ks.subrange(0, i as int).to_set()).map_values(|s: Seq<char>| SlotValueView::Hex(s)),
        decreases n - i,
    {
        let k = map.key_at(i).copy_key();
        let v = map.value_at(i).clone();
        obj.insert(k, SlotValue::Hex(v));
        proof {
            let t0 = ks.subrange(0, i as int);
            let t1 = ks.subrange(0, i as int + 1);
            assert(t1.to_set() =~= t0.to_set().insert(ks[i as int])) by {
                assert forall|x: Seq<char>| t1.contains(x) <==> (t0.contains(x) || x == ks[i as int]) by {
                    if t1.contains(x) {
                        let j = choose|j: int| 0 <= j < t1.len() && #[trigger] t1[j] == x;
                        if j < i {
                            assert(t0[j] == x);
                        }
                    }
                    if t0.contains(x) {
                        let j = choose|j: int| 0 <= j < t0.len() && #[trigger] t0[j] == x;
                        assert(t1[j] == x);
                    }
                    if x == ks[i as int] {
                        assert(t1[i as int] == x);
                    }
                }
            }
            assert(obj@ =~= map@.restrict(t1.to_set()).map_values(|s: Seq<char>| SlotValueView::Hex(s)));
        }
        i = i + 1;
    }
    proof {
        assert(ks.subrange(0, n as int) =~= ks);
        assert(map@.restrict(ks.to_set()) =~= map@);
    }
    FieldValue::Object(obj)
}

fn merge_account_fields(existing: &mut StrMap<FieldValue>, new: &StrMap<FieldValue>)
    ensures
        final(existing)@ == merge_fields(old(existing)@, new@),
{
    let state = String::from_str("state");
    let diff = String::from_str("stateDiff");
    proof {
        reveal_strlit("state");
        reveal_strlit("stateDiff");
        assert(state@.len() == 5);
        assert(diff@.len() == 9);
        assert(state@ != diff@);
    }
    let ghost e0 = existing@;
    let ghost nw = new@;
    match new.get(&state) {
        Some(st) => {
            existing.insert(state.clone(), st.deep_clone());
            let _ = existing.remove(&diff);
        },
        None => {},
    }
    let ghost e1 = existing@;
    proof {
        if nw.dom().contains(state_key()) {
            assert(e1 == e0.insert(state_key(), nw[state_key()]).remove(state_diff_key()));
        } else {
            assert(e1 == e0);
        }
    }
    match new.get(&diff) {
        Some(d) => {
            let overlay = normalize_hex_map(d);
            if existing.contains_key(&state) {
                let mut merged = match existing.get(&state) {
                    Some(v) => normalize_hex_map(v),
                    None => StrMap::new(),
                };
                merged.extend_from(&overlay);
                let obj = map_to_json_object(&merged);
                existing.insert(state.clone(), obj);
                let _ = existing.remove(&diff);
            } else {
                let mut merged = match existing.get(&diff) {
                    Some(v) => normalize_hex_map(v),
                    None => {
                        let m: StrMap<String> = StrMap::new();
                        proof {
                            assert(m@ =~= hex_slots_of(e1, state_diff_key()));
                        }
                        m
                    },
                };
                merged.extend_from(&overlay);
                let obj = map_to_json_object(&merged);
                existing.insert(diff.clone(), obj);
            }
        },
        None => {},
    }
    let ghost e2 = existing@;
    let n = new.len();
    let ghost ks = new.key_seq();
    let ghost rest = nw.remove(state_key()).remove(state_diff_key());
    let mut i: usize = 0;
    while i < n
        invariant
            i <= n,
            n == nw.dom().len(),
            nw == new@,
            ks == new.key_seq(),
            ks.len() == n,
            state@ == state_key(),
            diff@ == state_diff_key(),
            rest == nw.remove(state_key()).remove(state_diff_key()),
            forall|j: int| 0 <= j < ks.len() ==> #[trigger] nw.dom().contains(ks[j]),
            forall|k: Seq<char>| #[trigger] nw.dom().contains(k) <==> ks.contains(k),
            existing@ == e2.union_prefer_right(rest.restrict(ks.subrange(0, i as int).to_set())),
        decreases n - i,
    {
        let k = new.key_at(i);
        if !(*k == state) && !(*k == diff) {
            let v = new.value_at(i).deep_clone();
            existing.insert(k.copy_key(), v);
        }
        proof {
            let t0 = ks.subrange(0, i as int);
            let t1 = ks.subrange(0, i as int + 1);
            assert(t1.to_set() =~= t0.to_set().insert(ks[i as int])) by {
                assert forall|x: Seq<char>| t1.contains(x) <==> (t0.contains(x) || x == ks[i as int]) by {
                    if t1.contains(x) {
                        let j = choose|j: int| 0 <= j < t1.len() && #[trigger] t1[j] == x;
                        if j < i {
                            assert(t0[j] == x);
                        }
                    }
                    if t0.contains(x) {
                        let j = choose|j: int| 0 <= j < t0.len() && #[trigger] t0[j] == x;
                        assert(t1[j] == x);
                    }
                    if x == ks[i as int] {
                        assert(t1[i as int] == x);
                    }
                }
            }
            assert(existing@ =~= e2.union_prefer_right(rest.restrict(t1.to_set())));
        }
        i = i + 1;
    }
    proof {
        assert(ks.subrange(0, n as int) =~= ks);
        assert(rest.restrict(ks.to_set()) =~= rest);
        assert(existing@ =~= merge_fields(e0, nw));
    }
}

/// Merge the override document `other` into `base`, `other` taking precedence.
pub fn merge_state_overrides(base: &mut StateOverrides, other: &StateOverrides)
    ensures
        final(base)@ == merge_overrides(old(base)@, other@),
{
    let ghost b0 = base@;
    let n = other.len();
    let ghost ks = other.key_seq();
    let mut i: usize = 0;
    while i < n
        invariant
            i <= n,
            n == other@.dom().len(),
            ks == other.key_seq(),
            ks.len() == n,
            ks.no_duplicates(),
            forall|j: int| 0 <= j < ks.len() ==> #[trigger] other@.dom().contains(ks[j]),
            forall|k: Seq<char>| #[trigger] other@.dom().contains(k) <==> ks.contains(k),
            base@ == merge_overrides(b0, other@.restrict(ks.subrange(0, i as int).to_set())),
        decreases n - i,
    {
        let addr = other.key_at(i);
        let incoming = other.value_at(i);
        let ghost before = base@;
        let both_fields = match (base.get(addr), incoming) {
            (Some(AccountOverride::Fields(_)), AccountOverride::Fields(_)) => true,
            _ => false,
        };
        if both_fields {
            let placeholder = AccountOverride::Other(String::new());
            match base.replace(addr, placeholder) {
                Some(AccountOverride::Fields(mut existing)) => {
                    match incoming {
                        AccountOverride::Fields(new_fields) => {
                            merge_account_fields(&mut existing, new_fields);
                        },
                        AccountOverride::Other(_) => {},
                    }
                    let _ = base.replace(addr, AccountOverride::Fields(existing));
                },
                _ => {},
            }
        } else {
            base.insert(addr.copy_key(), incoming.deep_clone());
        }
        proof {
            let t0 = ks.subrange(0, i as int);
            let t1 = ks.subrange(0, i as int + 1);
            assert(t1.to_set() =~= t0.to_set().insert(ks[i as int])) by {
                assert forall|x: Seq<char>| t1.contains(x) <==> (t0.contains(x) || x == ks[i as int]) by {
                    if t1.contains(x) {
                        let j = choose|j: int| 0 <= j < t1.len() && #[trigger] t1[j] == x;
                        if j < i {
                            assert(t0[j] == x);
                        }
                    }
                    if t0.contains(x) {
                        let j = choose|j: int| 0 <= j < t0.len() && #[trigger] t0[j] == x;
                        assert(t1[j] == x);
                    }
                    if x == ks[i as int] {
                        assert(t1[i as int] == x);
                    }
                }
            }
            assert(!t0.contains(ks[i as int])) by {
                if t0.contains(ks[i as int]) {
                    let j = choose|j: int| 0 <= j < t0.len() && #[trigger] t0[j] == ks[i as int];
                    assert(ks[j] == ks[i as int]);
                }
            }
            let k = ks[i as int];
            let o0 = other@.restrict(t0.to_set());
            let o1 = other@.restrict(t1.to_set());
            assert(before == merge_overrides(b0, o0));
            assert(before.dom().contains(k) == b0.dom().contains(k));
            if before.dom().contains(k) {
                assert(before[k] == b0[k]);
            }
            assert(base@ =~= merge_overrides(b0, o1));
        }
        i = i + 1;
    }
    proof {
        assert(ks.subrange(0, n as int) =~= ks);
        assert(other@.restrict(ks.to_set()) =~= other@);
    }
}

/// Merge two JSON override blobs: each is read as a document (a non-object
/// reads as an empty one) and the overlay takes precedence.
pub fn merge_state_override_values(base: &OverridesValue, overlay: &OverridesValue) -> (v: OverridesValue)
    ensures
        v matches OverridesValue::Object(m) && m@ == merge_overrides(
            document_of(Some(*base)),
            document_of(Some(*overlay)),
        ),
{
    let mut base_map = match base {
        OverridesValue::Object(m) => m.deep_clone(),
        OverridesValue::Other(_) => StateOverrides::new(),
    };
    let overlay_map = match overlay {
        OverridesValue::Object(m) => m.deep_clone(),
        OverridesValue::Other(_) => StateOverrides::new(),
    };
    merge_state_overrides(&mut base_map, &overlay_map);
    OverridesValue::Object(base_map)
}

} // verus!
