//! Event schemas: merging the schemas a tracer registers, their version hash, and
//! the JSON document that describes them.
use vstd::prelude::*;
use crate::trace_file::ByteOrder;
use crate::trace_file::u64_bytes;
use crate::trace_file::u64_to_bytes;
use vstd::string::StringSliceAdditionalSpecFns;
use std::collections::BTreeMap;
use fnv::FnvHasher;
use std::hash::Hasher;
use crate::text::decimal;
use crate::text::json_string;
use crate::text::push_json_string;
use crate::text::push_str;
use crate::text::push_char;
use crate::text::push_decimal;

verus! {

/// Whether an event carries a value, and of what kind.
#[derive(Debug, Clone, Copy, PartialEq, Eq, PartialOrd, Ord, Hash)]
pub enum ValueType {
    NoValue,
    Identifier,
    Count,
    Bytes,
    Duration,
    RangeCount,
    RangeBytes,
    RangeDuration,
}

impl ValueType {
    /// The number that stands for the value type in files (0 for `NoValue` up to 7).
    pub open spec fn spec_code(self) -> u8 {
        match self {
            ValueType::NoValue => 0,
            ValueType::Identifier => 1,
            ValueType::Count => 2,
            ValueType::Bytes => 3,
            ValueType::Duration => 4,
            ValueType::RangeCount => 5,
            ValueType::RangeBytes => 6,
            ValueType::RangeDuration => 7,
        }
    }

    /// The number that stands for the value type in files.
    pub fn code(&self) -> (c: u8)
        ensures
            c == self.spec_code(),
    {
        match self {
            ValueType::NoValue => 0,
            ValueType::Identifier => 1,
            ValueType::Count => 2,
            ValueType::Bytes => 3,
            ValueType::Duration => 4,
            ValueType::RangeCount => 5,
            ValueType::RangeBytes => 6,
            ValueType::RangeDuration => 7,
        }
    }
}

/// Metadata for an event type.
#[derive(Debug, Clone, Copy, PartialEq, Eq, PartialOrd, Ord, Hash)]
pub struct EventTypeInfo {
    /// The event type value.
    pub value: u64,
    /// The constant name.
    pub name: &'static str,
    /// The category (Packet, Stream, FlowControl, CongestionControl, Meta).
    pub category: &'static str,
    /// Human-readable description.
    pub description: &'static str,
    /// Whether the event includes a secondary value.
    pub value_type: ValueType,
}

/// Event schema containing namespace and event type information.
#[derive(Debug, Clone, Copy)]
pub struct Schema {
    pub module: &'static str,
    pub namespace: u32,
    pub events: &'static [EventTypeInfo],
}

/// An event type together with the module of the schema that registered it.
#[derive(Debug, Clone, Copy)]
pub struct MergedEvent {
    pub module: &'static str,
    pub event: EventTypeInfo,
}

/// The map from event value to entry after registering `evs` of `module` into `m`:
/// a later registration of a value replaces an earlier one.
pub open spec fn register_events(
    m: Map<u64, MergedEvent>,
    module: &'static str,
    evs: Seq<EventTypeInfo>,
) -> Map<u64, MergedEvent>
    decreases evs.len(),
{
    if evs.len() == 0 {
        m
    } else {
        register_events(m, module, evs.drop_last()).insert(
            evs.last().value,
            MergedEvent { module, event: evs.last() },
        )
    }
}

/// The map from event value to entry that registering the schemas in order gives.
pub open spec fn merged_events(schemas: Seq<&'static Schema>) -> Map<u64, MergedEvent>
    decreases schemas.len(),
{
    if schemas.len() == 0 {
        Map::empty()
    } else {
        register_events(
            merged_events(schemas.drop_last()),
            schemas.last().module,
            schemas.last().events@,
        )
    }
}

/// Entry values strictly increase along `s`.
pub open spec fn strictly_sorted(s: Seq<MergedEvent>) -> bool {
    forall|i: int, j: int| 0 <= i < j < s.len() ==> s[i].event.value < s[j].event.value
}

/// `s` lists the entries of `m` by increasing event value.
pub open spec fn lists_in_order(s: Seq<MergedEvent>, m: Map<u64, MergedEvent>) -> bool {
    &&& strictly_sorted(s)
    &&& forall|i: int| 0 <= i < s.len() ==> #[trigger] m.contains_key(s[i].event.value)
        && m[s[i].event.value] == s[i]
    &&& forall|k: u64| #[trigger] m.contains_key(k) ==> exists|i: int| 0 <= i < s.len() && s[i].event.value == k
}

/// The merged entries of the schemas, by increasing event value.
pub open spec fn merged_entries(schemas: Seq<&'static Schema>) -> Seq<MergedEvent> {
    choose|s: Seq<MergedEvent>| lists_in_order(s, merged_events(schemas))
}

/// The bytes an entry contributes to the schema hash: its value (8 bytes in byte order `o`),
/// the UTF-8 of its module, name, category and description, and its value type code.
pub open spec fn entry_hash_bytes(o: ByteOrder, e: MergedEvent) -> Seq<u8> {
    u64_bytes(o, e.event.value) + e.module.spec_bytes() + e.event.name.spec_bytes()
        + e.event.category.spec_bytes() + e.event.description.spec_bytes() + seq![
        e.event.value_type.spec_code(),
    ]
}

/// The bytes of all entries, one after the other.
pub open spec fn hash_input(o: ByteOrder, s: Seq<MergedEvent>) -> Seq<u8>
    decreases s.len(),
{
    if s.len() == 0 {
        Seq::empty()
    } else {
        hash_input(o, s.drop_last()) + entry_hash_bytes(o, s.last())
    }
}

/// One step of 64-bit FNV-1a: xor in the byte, then multiply by the FNV prime modulo 2^64.
pub open spec fn fnv1a_step(h: u64, b: u8) -> u64 {
    (((h ^ (b as u64)) as int * 0x100000001b3int) % 0x1_0000_0000_0000_0000int) as u64
}

/// 64-bit FNV-1a of `bytes`, starting from the state `key`.
pub open spec fn fnv1a(key: u64, bytes: Seq<u8>) -> u64
    decreases bytes.len(),
{
    if bytes.len() == 0 {
        key
    } else {
        fnv1a_step(fnv1a(key, bytes.drop_last()), bytes.last())
    }
}

/// `FnvHasher::with_key`, `Hasher::write` and `Hasher::finish` of the `fnv` crate:
/// starting from the state `key`, each byte is xored in and the state multiplied by the
/// FNV prime (wrapping); the final state is the hash.
#[verifier::external_body]
fn fnv1a_hash(key: u64, bytes: &[u8]) -> (h: u64)
    ensures
        h == fnv1a(key, bytes@),
{
    let mut hasher = FnvHasher::with_key(key);
    hasher.write(bytes);
    hasher.finish()
}

/// The JSON object of one entry.
pub open spec fn entry_json(e: MergedEvent) -> Seq<char> {
    "{\"value\":"@ + decimal(e.event.value as nat) + ",\"name\":"@ + json_string(e.event.name@)
        + ",\"category\":"@ + json_string(e.event.category@) + ",\"description\":"@ + json_string(
        e.event.description@,
    ) + ",\"module\":"@ + json_string(e.module@) + ",\"value_type\":"@ + decimal(
        e.event.value_type.spec_code() as nat,
    ) + "}"@
}

/// The JSON objects of the entries, separated by commas.
pub open spec fn entries_json(s: Seq<MergedEvent>) -> Seq<char>
    decreases s.len(),
{
    if s.len() == 0 {
        Seq::empty()
    } else if s.len() == 1 {
        entry_json(s[0])
    } else {
        entries_json(s.drop_last()) + seq![','] + entry_json(s.last())
    }
}

/// The schema document: its version and every entry.
pub open spec fn schema_json(version: u64, s: Seq<MergedEvent>) -> Seq<char> {
    "{\"schema_version\":"@ + decimal(version as nat) + ",\"events\":["@ + entries_json(s) + "]}"@
}

/// Every entry of `m` sits under its own event value.
pub open spec fn keyed_by_value(m: Map<u64, MergedEvent>) -> bool {
    forall|k: u64| #[trigger] m.contains_key(k) ==> m[k].event.value == k
}

proof fn lemma_register_keyed(m: Map<u64, MergedEvent>, module: &'static str, evs: Seq<EventTypeInfo>)
    requires
        keyed_by_value(m),
    ensures
        keyed_by_value(register_events(m, module, evs)),
    decreases evs.len(),
{
    if evs.len() > 0 {
        lemma_register_keyed(m, module, evs.drop_last());
    }
}

/// The entries of the map, walked in the order of their keys.
fn values_in_key_order(map: &BTreeMap<u64, MergedEvent>) -> (r: Vec<MergedEvent>)
    ensures
        exists|key_seq: Seq<u64>|
            {
                &&& vstd::std_specs::btree::increasing_seq(key_seq)
                &&& key_seq.to_set() == map@.dom()
                &&& r@ == key_seq.map(|i: int, k: u64| map@[k])
            },
{
    broadcast use vstd::std_specs::btree::group_btree_axioms;

    let mut out: Vec<MergedEvent> = Vec::new();
    let ghost values = map.values();
    for v in it: map.values()
        invariant
            it.seq() == vstd::std_specs::iter::IteratorSpec::remaining(&values),
            out@ == it.seq().subrange(0, it.index() as int).map_values(|r: &MergedEvent| *r),
    {
        out.push(*v);
        assert(out@ =~= it.seq().subrange(0, it.index() + 1).map_values(|r: &MergedEvent| *r));
    }
    proof {
        let ks = choose|key_seq: Seq<u64>|
            {
                &&& vstd::std_specs::btree::increasing_seq(key_seq)
                &&& key_seq.to_set() == map@.dom()
                &&& key_seq.no_duplicates()
                &&& vstd::std_specs::iter::IteratorSpec::remaining(&values) == key_seq.map(
                    |i: int, k: u64| &map@[k],
                )
            };
        assert(out@ =~= ks.map(|i: int, k: u64| map@[k]));
    }
    out
}

/// Walking a map keyed by event value in key order lists its entries by increasing value.
proof fn lemma_key_order_lists_in_order(map: Map<u64, MergedEvent>, ks: Seq<u64>, r: Seq<MergedEvent>)
    requires
        keyed_by_value(map),
        vstd::std_specs::btree::increasing_seq(ks),
        ks.to_set() == map.dom(),
        r == ks.map(|i: int, k: u64| map[k]),
    ensures
        lists_in_order(r, map),
{
    broadcast use vstd::std_specs::btree::group_btree_axioms, vstd::laws_cmp::group_laws_cmp;

    assert forall|i: int| 0 <= i < ks.len() implies #[trigger] map.contains_key(ks[i]) by {
        assert(ks.to_set().contains(ks[i]));
    }
    assert forall|i: int, j: int| 0 <= i < j < r.len() implies r[i].event.value < r[j].event.value by {
        assert(vstd::std_specs::cmp::OrdSpec::cmp_spec(&ks[i], &ks[j]) is Less);
        assert(map.contains_key(ks[i]) && map.contains_key(ks[j]));
    }
    assert forall|k: u64| #[trigger] map.contains_key(k) implies exists|i: int|
        0 <= i < r.len() && r[i].event.value == k by {
        assert(ks.to_set().contains(k));
        let i = choose|i: int| 0 <= i < ks.len() && ks[i] == k;
        assert(r[i] == map[k]);
    }
    assert forall|i: int| 0 <= i < r.len() implies #[trigger] map.contains_key(r[i].event.value)
        && map[r[i].event.value] == r[i] by {
        assert(map.contains_key(ks[i]));
        assert(r[i] == map[ks[i]]);
    }
    lemma_lists_in_order_intro(r, map);
}

proof fn lemma_lists_in_order_intro(s: Seq<MergedEvent>, m: Map<u64, MergedEvent>)
    requires
        strictly_sorted(s),
        forall|i: int| 0 <= i < s.len() ==> #[trigger] m.contains_key(s[i].event.value) && m[s[i].event.value] == s[i],
        forall|k: u64| #[trigger] m.contains_key(k) ==> exists|i: int| 0 <= i < s.len() && s[i].event.value == k,
    ensures
        lists_in_order(s, m),
{
}

/// Merges the events of the schemas by value, a later registration of a value
/// replacing an earlier one, and lists them by increasing value.
pub fn merge_schemas(schemas: &Vec<&'static Schema>) -> (r: Vec<MergedEvent>)
    ensures
        lists_in_order(r@, merged_events(schemas@)),
{
    broadcast use vstd::std_specs::btree::group_btree_axioms;

    let mut map: BTreeMap<u64, MergedEvent> = BTreeMap::new();
    let mut i: usize = 0;
    assert(merged_events(schemas@.subrange(0, 0)) == Map::<u64, MergedEvent>::empty());
    assert(map@ =~= Map::<u64, MergedEvent>::empty());
    while i < schemas.len()
        invariant
            i <= schemas@.len(),
            map@ == merged_events(schemas@.subrange(0, i as int)),
            keyed_by_value(map@),
        decreases schemas@.len() - i,
    {
        let schema: &'static Schema = schemas[i];
        let ghost base = merged_events(schemas@.subrange(0, i as int));
        let mut j: usize = 0;
        assert(schema.events@.subrange(0, 0) =~= Seq::<EventTypeInfo>::empty());
        while j < schema.events.len()
            invariant
                j <= schema.events@.len(),
                keyed_by_value(base),
                map@ == register_events(base, schema.module, schema.events@.subrange(0, j as int)),
            decreases schema.events@.len() - j,
        {
            let ev = schema.events[j];
            map.insert(ev.value, MergedEvent { module: schema.module, event: ev });
            proof {
                let next = schema.events@.subrange(0, j + 1);
                assert(next.drop_last() =~= schema.events@.subrange(0, j as int));
                assert(next.last() == ev);
            }
            j = j + 1;
        }
        proof {
            let next = schemas@.subrange(0, i + 1);
            assert(next.drop_last() =~= schemas@.subrange(0, i as int));
            assert(next.last() == schema);
            assert(schema.events@.subrange(0, j as int) =~= schema.events@);
            lemma_register_keyed(base, schema.module, schema.events@);
        }
        i = i + 1;
    }
    assert(schemas@.subrange(0, i as int) =~= schemas@);
    let r = values_in_key_order(&map);
    proof {
        let ks = choose|key_seq: Seq<u64>|
            {
                &&& vstd::std_specs::btree::increasing_seq(key_seq)
                &&& key_seq.to_set() == map@.dom()
                &&& r@ == key_seq.map(|i: int, k: u64| map@[k])
            };
        lemma_key_order_lists_in_order(map@, ks, r@);
    }
    r
}

/// Two lists of the same map by increasing value are the same list.
#[verifier::spinoff_prover]
pub proof fn lemma_listing_unique(a: Seq<MergedEvent>, b: Seq<MergedEvent>, m: Map<u64, MergedEvent>)
    requires
        lists_in_order(a, m),
        lists_in_order(b, m),
    ensures
        a == b,
    decreases a.len(),
{
    if a.len() == 0 {
        if b.len() > 0 {
            let k = b[0].event.value;
            assert(m.contains_key(k));
            assert(exists|i: int| 0 <= i < a.len() && a[i].event.value == k);
            assert(false);
        }
        assert(a =~= b);
    } else {
        let x = a.last().event.value;
        assert(m.contains_key(x));
        let jb = choose|j: int| 0 <= j < b.len() && b[j].event.value == x;
        let y = b.last().event.value;
        assert(m.contains_key(y));
        let ja = choose|j: int| 0 <= j < a.len() && a[j].event.value == y;
        assert(x == y) by {
            if jb < b.len() - 1 {
                assert(b[jb].event.value < b[b.len() - 1].event.value);
            }
            if ja < a.len() - 1 {
                assert(a[ja].event.value < a[a.len() - 1].event.value);
            }
        }
        let m2 = m.remove(x);
        let a2 = a.drop_last();
        let b2 = b.drop_last();
        assert forall|i: int| 0 <= i < a2.len() implies #[trigger] m2.contains_key(a2[i].event.value)
            && m2[a2[i].event.value] == a2[i] by {
            assert(a2[i] == a[i]);
            assert(a[i].event.value < a[a.len() - 1].event.value);
            assert(m.contains_key(a[i].event.value));
        }
        assert forall|k: u64| #[trigger] m2.contains_key(k) implies exists|i: int|
            0 <= i < a2.len() && a2[i].event.value == k by {
            assert(m.contains_key(k));
            let i = choose|i: int| 0 <= i < a.len() && a[i].event.value == k;
            assert(a2[i] == a[i]);
        }
        assert forall|i: int| 0 <= i < b2.len() implies #[trigger] m2.contains_key(b2[i].event.value)
            && m2[b2[i].event.value] == b2[i] by {
            assert(b2[i] == b[i]);
            assert(b[i].event.value < b[b.len() - 1].event.value);
            assert(m.contains_key(b[i].event.value));
        }
        assert forall|k: u64| #[trigger] m2.contains_key(k) implies exists|i: int|
            0 <= i < b2.len() && b2[i].event.value == k by {
            assert(m.contains_key(k));
            let i = choose|i: int| 0 <= i < b.len() && b[i].event.value == k;
            assert(b2[i] == b[i]);
        }
        assert(strictly_sorted(a2)) by {
            assert forall|i: int, j: int| 0 <= i < j < a2.len() implies a2[i].event.value < a2[j].event.value by {
                assert(a2[i] == a[i] && a2[j] == a[j]);
            }
        }
        assert(strictly_sorted(b2)) by {
            assert forall|i: int, j: int| 0 <= i < j < b2.len() implies b2[i].event.value < b2[j].event.value by {
                assert(b2[i] == b[i] && b2[j] == b[j]);
            }
        }
        assert(lists_in_order(a2, m2));
        assert(lists_in_order(b2, m2));
        lemma_listing_unique(a2, b2, m2);
        assert(a.last() == b.last());
        assert(a =~= a2.push(a.last()));
        assert(b =~= b2.push(b.last()));
    }
}

fn push_bytes(v: &mut Vec<u8>, b: &[u8])
    ensures
        final(v)@ == old(v)@ + b@,
{
    let mut i: usize = 0;
    while i < b.len()
        invariant
            i <= b@.len(),
            v@ == old(v)@ + b@.subrange(0, i as int),
        decreases b@.len() - i,
    {
        v.push(b[i]);
        i = i + 1;
        assert(v@ =~= old(v)@ + b@.subrange(0, i as int));
    }
    assert(b@.subrange(0, i as int) =~= b@);
}

fn push_entry_bytes(bytes: &mut Vec<u8>, e: &MergedEvent, o: ByteOrder)
    ensures
        final(bytes)@ == old(bytes)@ + entry_hash_bytes(o, *e),
{
    let mut vb = u64_to_bytes(o, e.event.value);
    bytes.append(&mut vb);
    push_bytes(bytes, e.module.as_bytes());
    push_bytes(bytes, e.event.name.as_bytes());
    push_bytes(bytes, e.event.category.as_bytes());
    push_bytes(bytes, e.event.description.as_bytes());
    bytes.push(e.event.value_type.code());
    assert(bytes@ =~= old(bytes)@ + entry_hash_bytes(o, *e));
}

/// The schema version of the entries: FNV-1a, keyed with 42, over their hash bytes
/// with values in byte order `o`.
pub fn schema_version(entries: &Vec<MergedEvent>, o: ByteOrder) -> (h: u64)
    ensures
        h == fnv1a(42, hash_input(o, entries@)),
{
    let mut bytes: Vec<u8> = Vec::new();
    let mut i: usize = 0;
    while i < entries.len()
        invariant
            i <= entries@.len(),
            bytes@ == hash_input(o, entries@.subrange(0, i as int)),
        decreases entries@.len() - i,
    {
        let e = entries[i];
        push_entry_bytes(&mut bytes, &e, o);
        proof {
            let next = entries@.subrange(0, i + 1);
            assert(next.drop_last() =~= entries@.subrange(0, i as int));
            assert(next.last() == e);
        }
        i = i + 1;
        assert(bytes@ =~= hash_input(o, entries@.subrange(0, i as int)));
    }
    assert(entries@.subrange(0, i as int) =~= entries@);
    fnv1a_hash(42, bytes.as_slice())
}

fn push_entry_json(s: &mut String, e: &MergedEvent)
    ensures
        final(s)@ == old(s)@ + entry_json(*e),
{
    push_str(s, "{\"value\":");
    push_decimal(s, e.event.value);
    push_str(s, ",\"name\":");
    push_json_string(s, e.event.name);
    push_str(s, ",\"category\":");
    push_json_string(s, e.event.category);
    push_str(s, ",\"description\":");
    push_json_string(s, e.event.description);
    push_str(s, ",\"module\":");
    push_json_string(s, e.module);
    push_str(s, ",\"value_type\":");
    push_decimal(s, e.event.value_type.code() as u64);
    push_str(s, "}");
    assert(s@ =~= old(s)@ + entry_json(*e));
}

/// The schema document for the version and the entries.
pub fn schema_document(version: u64, entries: &Vec<MergedEvent>) -> (r: String)
    ensures
        r@ == schema_json(version, entries@),
{
    let mut s = String::new();
    push_str(&mut s, "{\"schema_version\":");
    push_decimal(&mut s, version);
    push_str(&mut s, ",\"events\":[");
    let ghost head = s@;
    let mut i: usize = 0;
    while i < entries.len()
        invariant
            i <= entries@.len(),
            s@ == head + entries_json(entries@.subrange(0, i as int)),
        decreases entries@.len() - i,
    {
        if i > 0 {
            push_char(&mut s, ',');
        }
        let e = entries[i];
        push_entry_json(&mut s, &e);
        proof {
            let next = entries@.subrange(0, i + 1);
            assert(next.drop_last() =~= entries@.subrange(0, i as int));
            assert(next.last() == e);
        }
        i = i + 1;
        assert(s@ =~= head + entries_json(entries@.subrange(0, i as int)));
    }
    push_str(&mut s, "]}");
    assert(entries@.subrange(0, i as int) =~= entries@);
    assert(s@ =~= schema_json(version, entries@));
    s
}

/// The schema version and document of the schemas: their events merged by value
/// (a later registration replacing an earlier one) and listed by increasing value;
/// the version hashes values in byte order `o`.
pub fn generate_merged_schema(schemas: &Vec<&'static Schema>, o: ByteOrder) -> (r: (u64, String))
    ensures
        r.0 == fnv1a(42, hash_input(o, merged_entries(schemas@))),
        r.1@ == schema_json(r.0, merged_entries(schemas@)),
{
    let entries = merge_schemas(schemas);
    proof {
        let m = merged_events(schemas@);
        let c = merged_entries(schemas@);
        assert(lists_in_order(c, m));
        lemma_listing_unique(entries@, c, m);
    }
    let version = schema_version(&entries, o);
    let json = schema_document(version, &entries);
    (version, json)
}

/// Registering a value again replaces its entry: the merge keeps the last registration.
pub proof fn lemma_last_registration_wins(schemas: Seq<&'static Schema>, s: &'static Schema, i: int)
    requires
        0 <= i < s.events@.len(),
        forall|j: int| i < j < s.events@.len() ==> s.events@[j].value != s.events@[i].value,
    ensures
        merged_events(schemas.push(s)).contains_key(s.events@[i].value),
        merged_events(schemas.push(s))[s.events@[i].value] == (MergedEvent { module: s.module, event: s.events@[i] }),
{
    let base = merged_events(schemas);
    assert(schemas.push(s).drop_last() =~= schemas);
    lemma_register_keeps(base, s.module, s.events@, i);
}

proof fn lemma_register_keeps(m: Map<u64, MergedEvent>, module: &'static str, evs: Seq<EventTypeInfo>, i: int)
    requires
        0 <= i < evs.len(),
        forall|j: int| i < j < evs.len() ==> evs[j].value != evs[i].value,
    ensures
        register_events(m, module, evs).contains_key(evs[i].value),
        register_events(m, module, evs)[evs[i].value] == (MergedEvent { module, event: evs[i] }),
    decreases evs.len(),
{
    if i < evs.len() - 1 {
        lemma_register_keeps(m, module, evs.drop_last(), i);
        assert(evs.drop_last()[i] == evs[i]);
        assert(evs.last().value != evs[i].value);
    }
}

/// Registering events into `m` overlays the map that registering them alone gives.
proof fn lemma_register_overlays(m: Map<u64, MergedEvent>, module: &'static str, evs: Seq<EventTypeInfo>)
    ensures
        register_events(m, module, evs) == m.union_prefer_right(register_events(Map::empty(), module, evs)),
    decreases evs.len(),
{
    if evs.len() == 0 {
        assert(m.union_prefer_right(Map::<u64, MergedEvent>::empty()) =~= m);
    } else {
        lemma_register_overlays(m, module, evs.drop_last());
        let k = evs.last().value;
        let v = MergedEvent { module, event: evs.last() };
        let a = register_events(Map::empty(), module, evs.drop_last());
        assert(m.union_prefer_right(a.insert(k, v)) =~= m.union_prefer_right(a).insert(k, v));
    }
}

/// The values registering events alone gives are values of those events.
proof fn lemma_registered_values(module: &'static str, evs: Seq<EventTypeInfo>, k: u64)
    requires
        register_events(Map::empty(), module, evs).contains_key(k),
    ensures
        exists|i: int| 0 <= i < evs.len() && evs[i].value == k,
    decreases evs.len(),
{
    if evs.last().value != k {
        lemma_registered_values(module, evs.drop_last(), k);
        let i = choose|i: int| 0 <= i < evs.drop_last().len() && evs.drop_last()[i].value == k;
        assert(evs[i] == evs.drop_last()[i]);
    } else {
        assert(evs[evs.len() - 1].value == k);
    }
}

/// The map of the schemas registered one after the other.
proof fn lemma_merged_two(a: &'static Schema, b: &'static Schema)
    ensures
        merged_events(seq![a, b]) == register_events(Map::empty(), a.module, a.events@).union_prefer_right(
            register_events(Map::empty(), b.module, b.events@),
        ),
{
    assert(seq![a, b].drop_last() =~= seq![a]);
    assert(seq![a].drop_last() =~= Seq::<&'static Schema>::empty());
    assert(seq![a, b].last() == b);
    assert(seq![a].last() == a);
    assert(merged_events(Seq::<&'static Schema>::empty()) == Map::<u64, MergedEvent>::empty());
    assert(merged_events(seq![a]) == register_events(Map::empty(), a.module, a.events@));
    assert(merged_events(seq![a, b]) == register_events(merged_events(seq![a]), b.module, b.events@));
    lemma_register_overlays(
        register_events(Map::empty(), a.module, a.events@),
        b.module,
        b.events@,
    );
}

/// For schemas that share no event value, neither the order of registration nor
/// registering a schema again changes the merged events, and so neither changes the
/// schema version nor the schema document.
pub proof fn lemma_disjoint_schemas_commute(s1: &'static Schema, s2: &'static Schema)
    requires
        forall|i: int, j: int|
            0 <= i < s1.events@.len() && 0 <= j < s2.events@.len() ==> s1.events@[i].value
                != s2.events@[j].value,
    ensures
        merged_events(seq![s1, s2]) == merged_events(seq![s2, s1]),
        merged_events(seq![s1, s2, s1]) == merged_events(seq![s1, s2]),
        merged_entries(seq![s1, s2]) == merged_entries(seq![s2, s1]),
        merged_entries(seq![s1, s2, s1]) == merged_entries(seq![s1, s2]),
{
    let r1 = register_events(Map::empty(), s1.module, s1.events@);
    let r2 = register_events(Map::empty(), s2.module, s2.events@);
    lemma_merged_two(s1, s2);
    lemma_merged_two(s2, s1);
    assert forall|k: u64| r1.contains_key(k) implies !r2.contains_key(k) by {
        lemma_registered_values(s1.module, s1.events@, k);
        if r2.contains_key(k) {
            lemma_registered_values(s2.module, s2.events@, k);
            let i = choose|i: int| 0 <= i < s1.events@.len() && s1.events@[i].value == k;
            let j = choose|j: int| 0 <= j < s2.events@.len() && s2.events@[j].value == k;
            assert(s1.events@[i].value != s2.events@[j].value);
        }
    }
    assert(r1.union_prefer_right(r2) =~= r2.union_prefer_right(r1));
    assert(seq![s1, s2, s1].drop_last() =~= seq![s1, s2]);
    lemma_register_overlays(r1.union_prefer_right(r2), s1.module, s1.events@);
    assert(r1.union_prefer_right(r2).union_prefer_right(r1) =~= r1.union_prefer_right(r2));
}

/// The events text of one entry is that entry's object, and of no entry nothing.
pub proof fn lemma_entries_json_small(e: MergedEvent)
    ensures
        entries_json(Seq::<MergedEvent>::empty()) == Seq::<char>::empty(),
        entries_json(seq![e]) == entry_json(e),
{
}

/// The events text of two non-empty runs of entries, one after the other, is the
/// text of the first run, one comma, and the text of the second: every two
/// consecutive entry objects of the document are separated by exactly one comma.
pub proof fn lemma_entries_json_concat(a: Seq<MergedEvent>, b: Seq<MergedEvent>)
    requires
        a.len() > 0,
        b.len() > 0,
    ensures
        entries_json(a + b) == entries_json(a) + seq![','] + entries_json(b),
    decreases b.len(),
{
    let ab = a + b;
    assert(ab.last() == b.last());
    if b.len() == 1 {
        assert(ab.drop_last() =~= a);
        assert(b[0] == b.last());
        assert(entries_json(b) == entry_json(b[0]));
    } else {
        assert(ab.drop_last() =~= a + b.drop_last());
        lemma_entries_json_concat(a, b.drop_last());
        assert(entries_json(ab) =~= entries_json(a) + seq![','] + entries_json(b));
    }
}

/// The hashed bytes of two runs of entries are the bytes of the first run followed
/// by those of the second: every entry contributes its bytes once, in order.
pub proof fn lemma_hash_input_concat(o: ByteOrder, a: Seq<MergedEvent>, b: Seq<MergedEvent>)
    ensures
        hash_input(o, a + b) == hash_input(o, a) + hash_input(o, b),
        hash_input(o, Seq::<MergedEvent>::empty()) == Seq::<u8>::empty(),
    decreases b.len(),
{
    if b.len() == 0 {
        assert(a + b =~= a);
        assert(hash_input(o, a) + hash_input(o, b) =~= hash_input(o, a));
    } else {
        let ab = a + b;
        assert(ab.drop_last() =~= a + b.drop_last());
        assert(ab.last() == b.last());
        lemma_hash_input_concat(o, a, b.drop_last());
        assert(hash_input(o, ab) =~= hash_input(o, a) + hash_input(o, b));
    }
}

} // verus!
