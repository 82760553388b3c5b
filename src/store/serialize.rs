//! The snapshot of a store: its protobuf encoding (one map-entry field per
//! record), and its JSON text for the "list all records" answer.

use vstd::prelude::*;
use vstd::string::StringExecFns;
use crate::ipc::wire::{
    Field, FieldModel, field_models, fields_bytes, parse_fields, bytes_field_new, read_fields,
    encode_fields, lemma_parse_fields_bytes, text_ok,
};
use crate::ipc::message::{SetKey, SetKeyModel, set_bytes, set_decode, lemma_set_round_trip};
use crate::store::kv::{Store, map_of};

verus! {

pub open spec fn entry_model(e: (String, String)) -> SetKeyModel {
    SetKeyModel { key: e.0@, value: e.1@ }
}

/// The fields of a snapshot: one map entry (key 1, value 2) per record, as field 1.
pub open spec fn store_fields(entries: Seq<(String, String)>) -> Seq<FieldModel> {
    entries.map_values(|e: (String, String)| FieldModel::Bytes(1, set_bytes(entry_model(e))))
}

pub open spec fn store_bytes(entries: Seq<(String, String)>) -> Seq<u8> {
    fields_bytes(store_fields(entries))
}

/// The map a snapshot holds: each field 1 is a map entry, a later one for a key
/// overriding an earlier one; other fields are ignored.
pub open spec fn store_from_fields(fs: Seq<FieldModel>) -> Option<Map<Seq<char>, Seq<char>>>
    decreases fs.len(),
{
    if fs.len() == 0 {
        Some(Map::empty())
    } else {
        match store_from_fields(fs.drop_last()) {
            None => None,
            Some(m) => match fs.last() {
                FieldModel::Bytes(n, b) => if n != 1 {
                    Some(m)
                } else {
                    match set_decode(b) {
                        Some(e) => Some(m.insert(e.key, e.value)),
                        None => None,
                    }
                },
                FieldModel::Varint(n, _) => if n != 1 {
                    Some(m)
                } else {
                    None
                },
            },
        }
    }
}

pub open spec fn store_decode(bytes: Seq<u8>) -> Option<Map<Seq<char>, Seq<char>>> {
    match parse_fields(bytes) {
        Some(fs) => store_from_fields(fs),
        None => None,
    }
}

/// The protobuf encoding of `store`.
pub fn serialize_store(store: &Store) -> (r: Vec<u8>)
    ensures
        r@ == store_bytes(store.entries()),
{
    let mut fields: Vec<Field> = Vec::new();
    let mut i: usize = 0;
    while i < store.len()
        invariant
            i <= store.entries().len(),
            field_models(fields@) == store_fields(store.entries().take(i as int)),
            forall|j: int| 0 <= j < fields@.len() ==> crate::ipc::wire::field_ok(#[trigger] fields@[j]@),
        decreases store.entries().len() - i,
    {
        let (k, v) = store.entry(i);
        let e = SetKey { key: k.clone(), value: v.clone() };
        let ghost before = fields@;
        fields.push(bytes_field_new(1, e.encode()));
        proof {
            assert(e@ == entry_model(store.entries()[i as int]));
            assert(field_models(fields@) =~= field_models(before).push(
                FieldModel::Bytes(1, set_bytes(e@)),
            ));
            assert(store.entries().take(i + 1) =~= store.entries().take(i as int).push(
                store.entries()[i as int],
            ));
            assert(field_models(fields@) =~= store_fields(store.entries().take(i + 1)));
        }
        i = i + 1;
    }
    proof {
        assert(store.entries().take(i as int) =~= store.entries());
    }
    encode_fields(&fields)
}

proof fn lemma_store_from_fields_fails(fs: Seq<FieldModel>, i: int)
    requires
        0 <= i < fs.len(),
        store_from_fields(fs.take(i + 1)) is None,
    ensures
        store_from_fields(fs) is None,
    decreases fs.len() - i,
{
    if i + 1 == fs.len() {
        assert(fs.take(i + 1) =~= fs);
    } else {
        assert(fs.take(i + 2).drop_last() =~= fs.take(i + 1));
        lemma_store_from_fields_fails(fs, i + 1);
    }
}

/// The store that a snapshot holds.
pub fn deserialize_store(bytes: &[u8]) -> (r: Option<Store>)
    ensures
        match store_decode(bytes@) {
            Some(m) => r matches Some(s) && s@ == m,
            None => r is None,
        },
{
    let fields = match read_fields(bytes) {
        Some(f) => f,
        None => return None,
    };
    let ghost fs = field_models(fields@);
    let mut store = Store::new();
    let mut i: usize = 0;
    proof {
        assert(fs.take(0) =~= Seq::<FieldModel>::empty());
    }
    while i < fields.len()
        invariant
            i <= fields@.len(),
            fs == field_models(fields@),
            parse_fields(bytes@) == Some(fs),
            store_from_fields(fs.take(i as int)) == Some(store@),
        decreases fields@.len() - i,
    {
        proof {
            assert(fs.take(i + 1).drop_last() =~= fs.take(i as int));
            assert(fs.take(i + 1).last() == fs[i as int]);
            assert(fs[i as int] == fields@[i as int]@);
        }
        match &fields[i] {
            Field::Bytes(n, b) => {
                if *n == 1 {
                    match SetKey::decode(b.as_slice()) {
                        Some(e) => {
                            store.insert(e.key, e.value);
                        },
                        None => {
                            proof {
                                lemma_store_from_fields_fails(fs, i as int);
                            }
                            return None;
                        },
                    }
                }
            },
            Field::Varint(n, _) => {
                if *n == 1 {
                    proof {
                        lemma_store_from_fields_fails(fs, i as int);
                    }
                    return None;
                }
            },
        }
        i = i + 1;
    }
    proof {
        assert(fs.take(i as int) =~= fs);
    }
    Some(store)
}

proof fn lemma_store_from_entries(entries: Seq<(String, String)>)
    requires
        forall|j: int|
            0 <= j < entries.len() ==> text_ok(#[trigger] entries[j].0@) && text_ok(entries[j].1@),
    ensures
        store_from_fields(store_fields(entries)) == Some(map_of(entries)),
    decreases entries.len(),
{
    if entries.len() > 0 {
        let init = entries.drop_last();
        assert(store_fields(entries).drop_last() =~= store_fields(init));
        lemma_store_from_entries(init);
        let e = entries.last();
        assert(text_ok(entries[entries.len() - 1].0@));
        lemma_set_round_trip(entry_model(e));
    }
}

/// A snapshot reads back as the store it was taken of.
pub proof fn lemma_snapshot_round_trip(store: Store)
    requires
        forall|j: int|
            0 <= j < store.entries().len() ==> text_ok(#[trigger] store.entries()[j].0@) && text_ok(
                store.entries()[j].1@,
            ),
        forall|j: int|
            0 <= j < store.entries().len() ==> set_bytes(entry_model(#[trigger] store.entries()[j])).len()
                < 0x1_0000_0000_0000_0000,
    ensures
        store_decode(store_bytes(store.entries())) == Some(store@),
{
    let fs = store_fields(store.entries());
    assert forall|j: int| 0 <= j < fs.len() implies crate::ipc::wire::field_ok(#[trigger] fs[j]) by {
        assert(fs[j] == FieldModel::Bytes(1, set_bytes(entry_model(store.entries()[j]))));
    }
    lemma_parse_fields_bytes(fs);
    lemma_store_from_entries(store.entries());
    store.lemma_view();
}

/// A hexadecimal digit, in lower case.
pub open spec fn hex_digit(n: u32) -> char {
    seq!['0', '1', '2', '3', '4', '5', '6', '7', '8', '9', 'a', 'b', 'c', 'd', 'e', 'f'][(n % 16) as int]
}

/// How a character stands in a JSON string: '"' and '\\' behind a backslash,
/// the control characters as `\b`, `\f`, `\n`, `\r`, `\t` or `\u00XX`, every
/// other character as itself.
pub open spec fn escape_char(c: char) -> Seq<char> {
    if c == '"' {
        seq!['\\', '"']
    } else if c == '\\' {
        seq!['\\', '\\']
    } else if c == '\u{8}' {
        seq!['\\', 'b']
    } else if c == '\u{c}' {
        seq!['\\', 'f']
    } else if c == '\n' {
        seq!['\\', 'n']
    } else if c == '\r' {
        seq!['\\', 'r']
    } else if c == '\t' {
        seq!['\\', 't']
    } else if (c as u32) < 0x20 {
        seq!['\\', 'u', '0', '0', hex_digit((c as u32) / 16), hex_digit((c as u32) % 16)]
    } else {
        seq![c]
    }
}

pub open spec fn escaped(s: Seq<char>) -> Seq<char>
    decreases s.len(),
{
    if s.len() == 0 {
        seq![]
    } else {
        escaped(s.drop_last()) + escape_char(s.last())
    }
}

/// The JSON text of a string: in quotes, escaped.
pub open spec fn json_string(s: Seq<char>) -> Seq<char> {
    seq!['"'] + escaped(s) + seq!['"']
}

/// Relies on serde_json::to_string on a `str`: the string in quotes, each
/// character escaped by serde_json's table as `escape_char` says. Serializing a
/// `str` into memory does not fail.
#[verifier::external_body]
fn json_quote(s: &str) -> (r: String)
    ensures
        r@ == json_string(s@),
{
    serde_json::to_string(s).unwrap_or_default()
}

pub open spec fn member_text(e: (Seq<char>, Seq<char>)) -> Seq<char> {
    e.0 + seq![':'] + e.1
}

pub open spec fn members_text(ms: Seq<(Seq<char>, Seq<char>)>) -> Seq<char>
    decreases ms.len(),
{
    if ms.len() == 0 {
        seq![]
    } else if ms.len() == 1 {
        member_text(ms[0])
    } else {
        members_text(ms.drop_last()) + seq![','] + member_text(ms.last())
    }
}

/// An object's text from its members' key and value texts: `{k:v,...}`.
pub open spec fn object_text(ms: Seq<(Seq<char>, Seq<char>)>) -> Seq<char> {
    seq!['{'] + members_text(ms) + seq!['}']
}

pub open spec fn pair_views(v: Seq<(String, String)>) -> Seq<(Seq<char>, Seq<char>)> {
    v.map_values(|p: (String, String)| (p.0@, p.1@))
}

/// The JSON object of the entries, in order: `{"key":"value",...}`.
pub open spec fn json_object(entries: Seq<(String, String)>) -> Seq<char> {
    object_text(entries.map_values(|e: (String, String)| (json_string(e.0@), json_string(e.1@))))
}

/// Joins members, each a key text and a value text already in JSON, into an object.
pub fn object_from_members(members: &Vec<(String, String)>) -> (r: String)
    ensures
        r@ == object_text(pair_views(members@)),
{
    let mut out = String::from_str("{");
    proof {
        reveal_strlit("{");
        reveal_strlit("}");
        assert("{"@ =~= seq!['{']);
        assert("}"@ =~= seq!['}']);
    }
    let ghost ms = pair_views(members@);
    let mut i: usize = 0;
    while i < members.len()
        invariant
            i <= members@.len(),
            ms == pair_views(members@),
            out@ == seq!['{'] + members_text(ms.take(i as int)),
        decreases members@.len() - i,
    {
        proof {
            reveal_strlit(",");
            reveal_strlit(":");
            assert(","@ =~= seq![',']);
            assert(":"@ =~= seq![':']);
            assert(ms.take(i + 1).drop_last() =~= ms.take(i as int));
            assert(ms.take(i + 1).last() == ms[i as int]);
        }
        if i > 0 {
            out.append(",");
        }
        out.append(members[i].0.as_str());
        out.append(":");
        out.append(members[i].1.as_str());
        proof {
            if i == 0 {
                assert(ms.take(1) =~= seq![ms[0]]);
            }
            assert(out@ =~= seq!['{'] + members_text(ms.take(i + 1)));
        }
        i = i + 1;
    }
    out.append("}");
    proof {
        assert("}"@ =~= seq!['}']);
        assert(ms.take(i as int) =~= ms);
        assert(out@ =~= object_text(ms));
    }
    out
}

/// Every record of `store` as one JSON object.
pub fn records_json(store: &Store) -> (r: String)
    ensures
        r@ == json_object(store.entries()),
{
    let ghost es = store.entries();
    let mut members: Vec<(String, String)> = Vec::new();
    let mut i: usize = 0;
    while i < store.len()
        invariant
            i <= es.len(),
            es == store.entries(),
            pair_views(members@) == es.take(i as int).map_values(
                |e: (String, String)| (json_string(e.0@), json_string(e.1@)),
            ),
        decreases es.len() - i,
    {
        let (k, v) = store.entry(i);
        let ghost before = members@;
        members.push((json_quote(k.as_str()), json_quote(v.as_str())));
        proof {
            assert(pair_views(members@) =~= pair_views(before).push(
                (json_string(es[i as int].0@), json_string(es[i as int].1@)),
            ));
            assert(es.take(i + 1) =~= es.take(i as int).push(es[i as int]));
            assert(es.take(i + 1).map_values(
                |e: (String, String)| (json_string(e.0@), json_string(e.1@)),
            ) =~= es.take(i as int).map_values(
                |e: (String, String)| (json_string(e.0@), json_string(e.1@)),
            ).push((json_string(es[i as int].0@), json_string(es[i as int].1@))));
        }
        i = i + 1;
    }
    proof {
        assert(es.take(i as int) =~= es);
    }
    object_from_members(&members)
}

} // verus!
