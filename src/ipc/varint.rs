//! Base-128 variable-length integers, as used by the protobuf wire format.

use vstd::prelude::*;

verus! {

/// The bytes of `v` in base-128 variable-length form: seven bits per byte,
/// least significant group first, with the high bit set on every byte but the last.
pub open spec fn varint_bytes(v: nat) -> Seq<u8>
    decreases v,
{
    if v < 128 {
        seq![v as u8]
    } else {
        seq![(v % 128 + 128) as u8] + varint_bytes(v / 128)
    }
}

/// The value and the length of the variable-length integer at the front of `s`,
/// reading at most `budget` bytes; the last of ten bytes may only hold one bit.
pub open spec fn varint_prefix(s: Seq<u8>, budget: nat) -> Option<(nat, nat)>
    decreases budget,
{
    if budget == 0 || s.len() == 0 {
        None
    } else if s[0] < 128 {
        if budget == 1 && s[0] >= 2 {
            None
        } else {
            Some((s[0] as nat, 1nat))
        }
    } else {
        match varint_prefix(s.drop_first(), (budget - 1) as nat) {
            Some((v, n)) => Some(((s[0] - 128) as nat + 128 * v, n + 1)),
            None => None,
        }
    }
}

/// The variable-length integer at the front of `s`: its value and its length.
pub open spec fn varint_decode(s: Seq<u8>) -> Option<(nat, nat)> {
    varint_prefix(s, 10)
}

pub open spec fn pow128(n: nat) -> nat
    decreases n,
{
    if n == 0 {
        1
    } else {
        128 * pow128((n - 1) as nat)
    }
}

pub proof fn lemma_varint_prefix_of_bytes(v: nat, rest: Seq<u8>, budget: nat)
    requires
        budget >= 1,
        v < 2 * pow128((budget - 1) as nat),
    ensures
        varint_prefix(varint_bytes(v) + rest, budget) == Some((v, varint_bytes(v).len())),
    decreases v,
{
    let s = varint_bytes(v) + rest;
    if v < 128 {
        assert(s[0] == v as u8);
    } else {
        if budget == 1 {
            assert(false);
        }
        assert(pow128((budget - 1) as nat) == 128 * pow128((budget - 2) as nat));
        assert(v / 128 < 2 * pow128((budget - 2) as nat));
        lemma_varint_prefix_of_bytes(v / 128, rest, (budget - 1) as nat);
        assert(s.drop_first() =~= varint_bytes(v / 128) + rest);
        assert(s[0] == (v % 128 + 128) as u8);
    }
}

/// The encoding of a 64-bit value decodes to that value, whatever follows it.
pub proof fn lemma_varint_round_trip(v: u64, rest: Seq<u8>)
    ensures
        varint_decode(varint_bytes(v as nat) + rest) == Some((v as nat, varint_bytes(v as nat).len())),
        1 <= varint_bytes(v as nat).len() <= 10,
{
    reveal_with_fuel(pow128, 10);
    assert(2 * pow128(9) == 0x1_0000_0000_0000_0000);
    lemma_varint_prefix_of_bytes(v as nat, rest, 10);
    lemma_varint_len(v as nat, 10);
}

proof fn lemma_varint_len(v: nat, k: nat)
    requires
        v < 2 * pow128((k - 1) as nat),
        k >= 1,
    ensures
        1 <= varint_bytes(v).len() <= k,
    decreases v,
{
    if v >= 128 {
        if k == 1 {
            assert(false);
        }
        assert(pow128((k - 1) as nat) == 128 * pow128((k - 2) as nat));
        lemma_varint_len(v / 128, (k - 1) as nat);
    }
}

/// Appends the variable-length form of `v` to `buf`.
/// Relies on prost::encoding::encode_varint: seven bits per byte, low group first.
#[verifier::external_body]
pub(crate) fn put_varint(v: u64, buf: &mut Vec<u8>)
    ensures
        final(buf)@ == old(buf)@ + varint_bytes(v as nat),
{
    prost::encoding::encode_varint(v, buf)
}

/// Reads the variable-length integer at the front of `bytes`; gives its value and
/// how many bytes of `bytes` follow it.
/// Relies on prost::encoding::decode_varint: at most ten bytes, the tenth at most 1,
/// an error where the bytes end before the last group.
#[verifier::external_body]
fn decode_varint_front(bytes: &[u8]) -> (r: Option<(u64, usize)>)
    ensures
        match varint_decode(bytes@) {
            Some((v, n)) => r == Some((v as u64, (bytes@.len() - n) as usize)),
            None => r is None,
        },
{
    let mut rest = bytes;
    match prost::encoding::decode_varint(&mut rest) {
        Ok(v) => Some((v, rest.len())),
        Err(_) => None,
    }
}

/// Reads the variable-length integer that starts at `pos`: its value and the
/// position just after it.
pub fn read_varint(bytes: &[u8], pos: usize) -> (r: Option<(u64, usize)>)
    requires
        pos <= bytes@.len(),
    ensures
        match varint_decode(bytes@.subrange(pos as int, bytes@.len() as int)) {
            Some((v, n)) => r == Some((v as u64, (pos + n) as usize)),
            None => r is None,
        },
        r matches Some((v, p)) ==> pos < p <= bytes@.len() && varint_decode(
            bytes@.subrange(pos as int, bytes@.len() as int),
        ) == Some((v as nat, (p - pos) as nat)),
{
    let tail = vstd::slice::slice_subrange(bytes, pos, bytes.len());
    match decode_varint_front(tail) {
        Some((v, left)) => {
            proof {
                lemma_varint_decode_len(tail@);
            }
            Some((v, bytes.len() - left))
        },
        None => None,
    }
}

pub proof fn lemma_varint_prefix_len(s: Seq<u8>, budget: nat)
    ensures
        varint_prefix(s, budget) matches Some((v, n)) ==> 1 <= n <= s.len() && n <= budget,
    decreases budget,
{
    if budget > 0 && s.len() > 0 && s[0] >= 128 {
        lemma_varint_prefix_len(s.drop_first(), (budget - 1) as nat);
    }
}

pub proof fn lemma_varint_prefix_bound(s: Seq<u8>, budget: nat)
    requires
        budget >= 1,
    ensures
        varint_prefix(s, budget) matches Some((v, n)) ==> v < 2 * pow128((budget - 1) as nat),
    decreases budget,
{
    if budget > 1 && s.len() > 0 {
        assert(pow128((budget - 1) as nat) == 128 * pow128((budget - 2) as nat));
        lemma_pow128_pos((budget - 2) as nat);
        if s[0] >= 128 {
            lemma_varint_prefix_bound(s.drop_first(), (budget - 1) as nat);
            if let Some((v, n)) = varint_prefix(s.drop_first(), (budget - 1) as nat) {
                let p = pow128((budget - 2) as nat);
                let b: nat = (s[0] - 128) as nat;
                assert(b + 128 * v < 2 * (128 * p)) by (nonlinear_arith)
                    requires
                        v < 2 * p,
                        b < 128,
                ;
            }
        }
    }
}

proof fn lemma_pow128_pos(n: nat)
    ensures
        pow128(n) >= 1,
    decreases n,
{
    if n > 0 {
        lemma_pow128_pos((n - 1) as nat);
    }
}

pub proof fn lemma_varint_decode_len(s: Seq<u8>)
    ensures
        varint_decode(s) matches Some((v, n)) ==> 1 <= n <= s.len() && n <= 10 && v
            < 0x1_0000_0000_0000_0000,
{
    lemma_varint_prefix_len(s, 10);
    lemma_varint_prefix_bound(s, 10);
    reveal_with_fuel(pow128, 10);
}

} // verus!
