//! Protobuf fields: a message is a run of fields, each a key (field number and
//! wire type) followed by a variable-length integer or a length-prefixed byte string.
//! Only these two wire types occur in this protocol; others are rejected.

use vstd::prelude::*;
use vstd::utf8::{decode_utf8, encode_utf8, valid_utf8};
use crate::ipc::varint::{
    varint_bytes, varint_decode, put_varint, read_varint, lemma_varint_round_trip,
    lemma_varint_decode_len,
};

verus! {

broadcast use vstd::utf8::encode_utf8_valid_utf8, vstd::utf8::encode_utf8_decode_utf8;

/// One field of a message.
pub enum Field {
    Varint(u64, u64),
    Bytes(u64, Vec<u8>),
}

/// What a field holds, in mathematical terms.
pub ghost enum FieldModel {
    Varint(u64, u64),
    Bytes(u64, Seq<u8>),
}

impl View for Field {
    type V = FieldModel;

    open spec fn view(&self) -> FieldModel {
        match self {
            Field::Varint(n, v) => FieldModel::Varint(*n, *v),
            Field::Bytes(n, b) => FieldModel::Bytes(*n, b@),
        }
    }
}

pub open spec fn field_models(fs: Seq<Field>) -> Seq<FieldModel> {
    fs.map_values(|f: Field| f@)
}

/// The largest field number that fits in a key.
pub const MAX_FIELD_NUMBER: u64 = 0x1fff_ffff;

/// The key of a field: its number and its wire type.
pub open spec fn key_of(n: u64, wire_type: nat) -> nat {
    n as nat * 8 + wire_type
}

pub open spec fn field_bytes(f: FieldModel) -> Seq<u8> {
    match f {
        FieldModel::Varint(n, v) => varint_bytes(key_of(n, 0)) + varint_bytes(v as nat),
        FieldModel::Bytes(n, b) => varint_bytes(key_of(n, 2)) + varint_bytes(b.len()) + b,
    }
}

pub open spec fn fields_bytes(fs: Seq<FieldModel>) -> Seq<u8>
    decreases fs.len(),
{
    if fs.len() == 0 {
        seq![]
    } else {
        field_bytes(fs[0]) + fields_bytes(fs.drop_first())
    }
}

/// A field that this protocol can write: a number from 1 to `MAX_FIELD_NUMBER`,
/// and a byte string whose length fits in 64 bits.
pub open spec fn field_ok(f: FieldModel) -> bool {
    match f {
        FieldModel::Varint(n, v) => 1 <= n <= MAX_FIELD_NUMBER,
        FieldModel::Bytes(n, b) => 1 <= n <= MAX_FIELD_NUMBER && b.len() < 0x1_0000_0000_0000_0000,
    }
}

/// The field at the front of `s`, and how many bytes it takes.
pub open spec fn parse_field(s: Seq<u8>) -> Option<(FieldModel, nat)> {
    match varint_decode(s) {
        None => None,
        Some((k, n)) => {
            let num = k / 8;
            let rest = s.subrange(n as int, s.len() as int);
            if num == 0 {
                None
            } else if k % 8 == 0 {
                match varint_decode(rest) {
                    Some((v, m)) => Some((FieldModel::Varint(num as u64, v as u64), n + m)),
                    None => None,
                }
            } else if k % 8 == 2 {
                match varint_decode(rest) {
                    Some((l, m)) => if m + l <= rest.len() {
                        Some(
                            (
                                FieldModel::Bytes(num as u64, rest.subrange(m as int, (m + l) as int)),
                                n + m + l,
                            ),
                        )
                    } else {
                        None
                    },
                    None => None,
                }
            } else {
                None
            }
        },
    }
}

/// The fields that `s` holds, in order; `None` where `s` is not a run of fields.
pub open spec fn parse_fields(s: Seq<u8>) -> Option<Seq<FieldModel>>
    decreases s.len(),
{
    if s.len() == 0 {
        Some(seq![])
    } else {
        match parse_field(s) {
            Some((f, n)) => if 0 < n <= s.len() {
                match parse_fields(s.subrange(n as int, s.len() as int)) {
                    Some(fs) => Some(seq![f] + fs),
                    None => None,
                }
            } else {
                None
            },
            None => None,
        }
    }
}

proof fn lemma_parse_field_bytes(f: FieldModel, rest: Seq<u8>)
    requires
        field_ok(f),
    ensures
        parse_field(field_bytes(f) + rest) == Some((f, field_bytes(f).len())),
        field_bytes(f).len() > 0,
{
    let s = field_bytes(f) + rest;
    match f {
        FieldModel::Varint(n, v) => {
            let kb = varint_bytes(key_of(n, 0));
            let vb = varint_bytes(v as nat);
            lemma_varint_round_trip(key_of(n, 0) as u64, vb + rest);
            assert(s =~= kb + (vb + rest));
            lemma_varint_round_trip(v, rest);
            assert(s.subrange(kb.len() as int, s.len() as int) =~= vb + rest);
            assert(key_of(n, 0) / 8 == n);
            assert(key_of(n, 0) % 8 == 0);
        },
        FieldModel::Bytes(n, b) => {
            let kb = varint_bytes(key_of(n, 2));
            let lb = varint_bytes(b.len());
            lemma_varint_round_trip(key_of(n, 2) as u64, lb + b + rest);
            assert(s =~= kb + (lb + b + rest));
            lemma_varint_round_trip(b.len() as u64, b + rest);
            assert(lb + b + rest =~= lb + (b + rest));
            let r = s.subrange(kb.len() as int, s.len() as int);
            assert(r =~= lb + (b + rest));
            assert(r.subrange(lb.len() as int, (lb.len() + b.len()) as int) =~= b);
            assert(key_of(n, 2) / 8 == n);
            assert(key_of(n, 2) % 8 == 2);
        },
    }
}

/// Fields that this protocol writes are read back as they were.
pub proof fn lemma_parse_fields_bytes(fs: Seq<FieldModel>)
    requires
        forall|i: int| 0 <= i < fs.len() ==> field_ok(#[trigger] fs[i]),
    ensures
        parse_fields(fields_bytes(fs)) == Some(fs),
    decreases fs.len(),
{
    if fs.len() > 0 {
        let s = fields_bytes(fs);
        let fb = field_bytes(fs[0]);
        let tail = fields_bytes(fs.drop_first());
        assert(field_ok(fs[0]));
        lemma_parse_field_bytes(fs[0], tail);
        assert(s =~= fb + tail);
        assert(s.subrange(fb.len() as int, s.len() as int) =~= tail);
        lemma_parse_fields_bytes(fs.drop_first());
        assert(seq![fs[0]] + fs.drop_first() =~= fs);
    }
}

/// Appends one field to `buf`.
pub fn put_field(buf: &mut Vec<u8>, f: &Field)
    requires
        field_ok(f@),
    ensures
        final(buf)@ == old(buf)@ + field_bytes(f@),
{
    match f {
        Field::Varint(n, v) => {
            put_varint(*n * 8, buf);
            put_varint(*v, buf);
            assert(final(buf)@ =~= old(buf)@ + field_bytes(f@));
        },
        Field::Bytes(n, b) => {
            put_varint(*n * 8 + 2, buf);
            put_varint(b.len() as u64, buf);
            buf.extend_from_slice(b.as_slice());
            assert(final(buf)@ =~= old(buf)@ + field_bytes(f@));
        },
    }
}

/// Reads the field that starts at `pos`, and the position after it.
fn read_field(bytes: &[u8], pos: usize) -> (r: Option<(Field, usize)>)
    requires
        pos < bytes@.len(),
    ensures
        match parse_field(bytes@.subrange(pos as int, bytes@.len() as int)) {
            Some((f, n)) => r matches Some((g, p)) && g@ == f && p == pos + n,
            None => r is None,
        },
        r matches Some((g, p)) ==> pos < p <= bytes@.len(),
{
    let ghost s = bytes@.subrange(pos as int, bytes@.len() as int);
    let (k, key_end) = match read_varint(bytes, pos) {
        Some(x) => x,
        None => return None,
    };
    proof {
        lemma_varint_decode_len(s);
        assert(bytes@.subrange(key_end as int, bytes@.len() as int) =~= s.subrange(
            (key_end - pos) as int,
            s.len() as int,
        ));
    }
    let num = k / 8;
    if num == 0 {
        return None;
    }
    if k % 8 == 0 {
        match read_varint(bytes, key_end) {
            Some((v, len_end)) => {
                proof {
                    lemma_varint_decode_len(bytes@.subrange(key_end as int, bytes@.len() as int));
                }
                Some((Field::Varint(num, v), len_end))
            },
            None => None,
        }
    } else if k % 8 == 2 {
        match read_varint(bytes, key_end) {
            Some((l, len_end)) => {
                proof {
                    lemma_varint_decode_len(bytes@.subrange(key_end as int, bytes@.len() as int));
                }
                if l > (bytes.len() - len_end) as u64 {
                    return None;
                }
                let end = len_end + l as usize;
                let b = vstd::slice::slice_to_vec(vstd::slice::slice_subrange(bytes, len_end, end));
                proof {
                    let rest = s.subrange((key_end - pos) as int, s.len() as int);
                    assert(b@ =~= rest.subrange((len_end - key_end) as int, (len_end - key_end + l) as int));
                }
                Some((Field::Bytes(num, b), end))
            },
            None => None,
        }
    } else {
        None
    }
}

/// Reads all the fields of `bytes`, in order.
pub fn read_fields(bytes: &[u8]) -> (r: Option<Vec<Field>>)
    ensures
        match parse_fields(bytes@) {
            Some(fs) => r matches Some(v) && field_models(v@) == fs,
            None => r is None,
        },
{
    let mut out: Vec<Field> = Vec::new();
    let mut pos: usize = 0;
    proof {
        assert(bytes@.subrange(0, bytes@.len() as int) =~= bytes@);
        assert(field_models(out@) =~= Seq::<FieldModel>::empty());
        assert forall|fs: Seq<FieldModel>| Seq::<FieldModel>::empty() + fs =~= fs by {}
    }
    while pos < bytes.len()
        invariant
            pos <= bytes@.len(),
            parse_fields(bytes@) == match parse_fields(bytes@.subrange(pos as int, bytes@.len() as int)) {
                Some(fs) => Some(field_models(out@) + fs),
                None => None,
            },
        decreases bytes@.len() - pos,
    {
        let ghost s = bytes@.subrange(pos as int, bytes@.len() as int);
        match read_field(bytes, pos) {
            Some((f, p)) => {
                proof {
                    assert(bytes@.subrange(p as int, bytes@.len() as int) =~= s.subrange(
                        (p - pos) as int,
                        s.len() as int,
                    ));
                }
                if p <= pos {
                    return None;
                }
                let ghost old_out = out@;
                out.push(f);
                proof {
                    assert(field_models(out@) =~= field_models(old_out) + seq![f@]);
                }
                pos = p;
            },
            None => return None,
        }
    }
    proof {
        assert(bytes@.subrange(pos as int, bytes@.len() as int) =~= Seq::<u8>::empty());
        assert(field_models(out@) + Seq::<FieldModel>::empty() =~= field_models(out@));
    }
    Some(out)
}

/// The text of the last field numbered `num`, or the empty text where there is none;
/// `None` where a field of that number is not a byte string, or not UTF-8.
pub open spec fn text_field(fs: Seq<FieldModel>, num: u64) -> Option<Seq<char>>
    decreases fs.len(),
{
    if fs.len() == 0 {
        Some(seq![])
    } else {
        match text_field(fs.drop_last(), num) {
            None => None,
            Some(prev) => match fs.last() {
                FieldModel::Bytes(n, b) => if n != num {
                    Some(prev)
                } else if valid_utf8(b) {
                    Some(decode_utf8(b))
                } else {
                    None
                },
                FieldModel::Varint(n, _) => if n != num {
                    Some(prev)
                } else {
                    None
                },
            },
        }
    }
}

/// The value of the last field numbered `num`, or 0 where there is none;
/// `None` where a field of that number is not an integer.
pub open spec fn int_field(fs: Seq<FieldModel>, num: u64) -> Option<u64>
    decreases fs.len(),
{
    if fs.len() == 0 {
        Some(0)
    } else {
        match int_field(fs.drop_last(), num) {
            None => None,
            Some(prev) => match fs.last() {
                FieldModel::Varint(n, v) => if n != num {
                    Some(prev)
                } else {
                    Some(v)
                },
                FieldModel::Bytes(n, _) => if n != num {
                    Some(prev)
                } else {
                    None
                },
            },
        }
    }
}

/// The bytes of the last field numbered `num`, or `Some(None)` where there is none;
/// `None` where a field of that number is not a byte string.
pub open spec fn bytes_field(fs: Seq<FieldModel>, num: u64) -> Option<Option<Seq<u8>>>
    decreases fs.len(),
{
    if fs.len() == 0 {
        Some(None)
    } else {
        match bytes_field(fs.drop_last(), num) {
            None => None,
            Some(prev) => match fs.last() {
                FieldModel::Bytes(n, b) => if n != num {
                    Some(prev)
                } else {
                    Some(Some(b))
                },
                FieldModel::Varint(n, _) => if n != num {
                    Some(prev)
                } else {
                    None
                },
            },
        }
    }
}

/// Text whose UTF-8 form fits in a field.
pub open spec fn text_ok(t: Seq<char>) -> bool {
    encode_utf8(t).len() < 0x1_0000_0000_0000_0000
}

pub open spec fn text_model(num: u64, t: Seq<char>) -> FieldModel {
    FieldModel::Bytes(num, encode_utf8(t))
}

/// Makes a field that holds the UTF-8 bytes of `s`.
pub fn text_field_new(num: u64, s: &String) -> (r: Field)
    requires
        1 <= num <= MAX_FIELD_NUMBER,
    ensures
        r@ == text_model(num, s@),
        field_ok(r@),
{
    let b = vstd::slice::slice_to_vec(s.as_str().as_bytes());
    let _ = b.len();
    Field::Bytes(num, b)
}

/// Makes a field that holds `v`.
pub fn int_field_new(num: u64, v: u64) -> (r: Field)
    requires
        1 <= num <= MAX_FIELD_NUMBER,
    ensures
        r@ == FieldModel::Varint(num, v),
        field_ok(r@),
{
    Field::Varint(num, v)
}

/// Makes a field that holds `b`, an encoded message.
pub fn bytes_field_new(num: u64, b: Vec<u8>) -> (r: Field)
    requires
        1 <= num <= MAX_FIELD_NUMBER,
    ensures
        r@ == FieldModel::Bytes(num, b@),
        field_ok(r@),
{
    let _ = b.len();
    Field::Bytes(num, b)
}

/// Text from UTF-8 bytes.
/// Relies on String::from_utf8: it succeeds exactly on valid UTF-8, and keeps the bytes.
#[verifier::external_body]
fn string_from_utf8(b: Vec<u8>) -> (r: Option<String>)
    ensures
        r is Some <==> valid_utf8(b@),
        r matches Some(s) ==> s@ == decode_utf8(b@),
{
    String::from_utf8(b).ok()
}

proof fn lemma_take_last<A>(s: Seq<A>, i: int)
    requires
        0 <= i < s.len(),
    ensures
        s.take(i + 1).drop_last() == s.take(i),
        s.take(i + 1).last() == s[i],
        s.take(i + 1).len() == i + 1,
{
    assert(s.take(i + 1).drop_last() =~= s.take(i));
}

/// The text of the last field numbered `num` (see `text_field`).
pub fn read_text_field(fields: &Vec<Field>, num: u64) -> (r: Option<String>)
    ensures
        match text_field(field_models(fields@), num) {
            Some(t) => r matches Some(s) && s@ == t,
            None => r is None,
        },
{
    let ghost fs = field_models(fields@);
    let mut cur = String::new();
    let mut i: usize = 0;
    proof {
        assert(fs.take(0) =~= Seq::<FieldModel>::empty());
    }
    while i < fields.len()
        invariant
            i <= fields@.len(),
            fs == field_models(fields@),
            text_field(fs.take(i as int), num) == Some(cur@),
        decreases fields@.len() - i,
    {
        proof {
            lemma_take_last(fs, i as int);
        }
        match &fields[i] {
            Field::Bytes(n, b) => {
                if *n == num {
                    match string_from_utf8(b.clone()) {
                        Some(t) => {
                            cur = t;
                        },
                        None => {
                            proof {
                                lemma_text_field_fails(fs, num, i as int);
                            }
                            return None;
                        },
                    }
                }
            },
            Field::Varint(n, _) => {
                if *n == num {
                    proof {
                        lemma_text_field_fails(fs, num, i as int);
                    }
                    return None;
                }
            },
        }
        i = i + 1;
    }
    proof {
        assert(fs.take(i as int) =~= fs);
    }
    Some(cur)
}

proof fn lemma_text_field_fails(fs: Seq<FieldModel>, num: u64, i: int)
    requires
        0 <= i < fs.len(),
        text_field(fs.take(i + 1), num) is None,
    ensures
        text_field(fs, num) is None,
    decreases fs.len() - i,
{
    if i + 1 == fs.len() {
        assert(fs.take(i + 1) =~= fs);
    } else {
        lemma_take_last(fs, i + 1);
        lemma_text_field_fails(fs, num, i + 1);
    }
}

proof fn lemma_int_field_fails(fs: Seq<FieldModel>, num: u64, i: int)
    requires
        0 <= i < fs.len(),
        int_field(fs.take(i + 1), num) is None,
    ensures
        int_field(fs, num) is None,
    decreases fs.len() - i,
{
    if i + 1 == fs.len() {
        assert(fs.take(i + 1) =~= fs);
    } else {
        lemma_take_last(fs, i + 1);
        lemma_int_field_fails(fs, num, i + 1);
    }
}

proof fn lemma_bytes_field_fails(fs: Seq<FieldModel>, num: u64, i: int)
    requires
        0 <= i < fs.len(),
        bytes_field(fs.take(i + 1), num) is None,
    ensures
        bytes_field(fs, num) is None,
    decreases fs.len() - i,
{
    if i + 1 == fs.len() {
        assert(fs.take(i + 1) =~= fs);
    } else {
        lemma_take_last(fs, i + 1);
        lemma_bytes_field_fails(fs, num, i + 1);
    }
}

/// The value of the last field numbered `num` (see `int_field`).
pub fn read_int_field(fields: &Vec<Field>, num: u64) -> (r: Option<u64>)
    ensures
        r == int_field(field_models(fields@), num),
{
    let ghost fs = field_models(fields@);
    let mut cur: u64 = 0;
    let mut i: usize = 0;
    proof {
        assert(fs.take(0) =~= Seq::<FieldModel>::empty());
    }
    while i < fields.len()
        invariant
            i <= fields@.len(),
            fs == field_models(fields@),
            int_field(fs.take(i as int), num) == Some(cur),
        decreases fields@.len() - i,
    {
        proof {
            lemma_take_last(fs, i as int);
        }
        match &fields[i] {
            Field::Varint(n, v) => {
                if *n == num {
                    cur = *v;
                }
            },
            Field::Bytes(n, _) => {
                if *n == num {
                    proof {
                        lemma_int_field_fails(fs, num, i as int);
                    }
                    return None;
                }
            },
        }
        i = i + 1;
    }
    proof {
        assert(fs.take(i as int) =~= fs);
    }
    Some(cur)
}

/// The bytes of the last field numbered `num` (see `bytes_field`).
pub fn read_bytes_field(fields: &Vec<Field>, num: u64) -> (r: Option<Option<Vec<u8>>>)
    ensures
        match bytes_field(field_models(fields@), num) {
            Some(None) => r == Some(None::<Vec<u8>>),
            Some(Some(b)) => r matches Some(Some(v)) && v@ == b,
            None => r is None,
        },
{
    let ghost fs = field_models(fields@);
    let mut cur: Option<Vec<u8>> = None;
    let mut i: usize = 0;
    proof {
        assert(fs.take(0) =~= Seq::<FieldModel>::empty());
    }
    while i < fields.len()
        invariant
            i <= fields@.len(),
            fs == field_models(fields@),
            bytes_field(fs.take(i as int), num) == Some(
                match cur {
                    Some(v) => Some(v@),
                    None => None,
                },
            ),
        decreases fields@.len() - i,
    {
        proof {
            lemma_take_last(fs, i as int);
        }
        match &fields[i] {
            Field::Bytes(n, b) => {
                if *n == num {
                    cur = Some(b.clone());
                }
            },
            Field::Varint(n, _) => {
                if *n == num {
                    proof {
                        lemma_bytes_field_fails(fs, num, i as int);
                    }
                    return None;
                }
            },
        }
        i = i + 1;
    }
    proof {
        assert(fs.take(i as int) =~= fs);
    }
    Some(cur)
}

proof fn lemma_fields_bytes_push(fs: Seq<FieldModel>, f: FieldModel)
    ensures
        fields_bytes(fs.push(f)) == fields_bytes(fs) + field_bytes(f),
    decreases fs.len(),
{
    if fs.len() == 0 {
        assert(fs.push(f).drop_first() =~= Seq::<FieldModel>::empty());
        assert(fs.push(f)[0] == f);
        assert(fields_bytes(fs.push(f).drop_first()) =~= Seq::<u8>::empty());
        assert(fields_bytes(fs) =~= Seq::<u8>::empty());
        assert(fields_bytes(fs.push(f)) =~= field_bytes(f));
    } else {
        assert(fs.push(f).drop_first() =~= fs.drop_first().push(f));
        lemma_fields_bytes_push(fs.drop_first(), f);
        assert(fields_bytes(fs.push(f)) =~= fields_bytes(fs) + field_bytes(f));
    }
}

/// The bytes of a message made of `fields`, in order.
pub fn encode_fields(fields: &Vec<Field>) -> (r: Vec<u8>)
    requires
        forall|i: int| 0 <= i < fields@.len() ==> field_ok(#[trigger] fields@[i]@),
    ensures
        r@ == fields_bytes(field_models(fields@)),
{
    let ghost fs = field_models(fields@);
    let mut buf: Vec<u8> = Vec::new();
    let mut i: usize = 0;
    proof {
        assert(fs.take(0) =~= Seq::<FieldModel>::empty());
        assert(buf@ =~= fields_bytes(fs.take(0)));
    }
    while i < fields.len()
        invariant
            i <= fields@.len(),
            fs == field_models(fields@),
            forall|i: int| 0 <= i < fields@.len() ==> field_ok(#[trigger] fields@[i]@),
            buf@ == fields_bytes(fs.take(i as int)),
        decreases fields@.len() - i,
    {
        put_field(&mut buf, &fields[i]);
        proof {
            assert(fs.take(i + 1) =~= fs.take(i as int).push(fs[i as int]));
            lemma_fields_bytes_push(fs.take(i as int), fs[i as int]);
        }
        i = i + 1;
    }
    proof {
        assert(fs.take(i as int) =~= fs);
    }
    buf
}

} // verus!
