//! The wire format: a frame is a little-endian `u16` body size, a one-byte message id and
//! the body; bodies are sequences of fixed-width or length-prefixed fields.

use vstd::prelude::*;
use vstd::utf8::{
    decode_utf8, decode_utf8_encode_utf8, encode_utf8, encode_utf8_decode_utf8, encode_utf8_valid_utf8,
    valid_utf8,
};

verus! {

pub const PACKET_HEADER_SIZE: usize = 3;

pub const MAX_PACKET_BODY_SIZE: usize = 8192;

pub const MAX_PACKET_SIZE: usize = 8195;

/// Capacity of a connection's receive buffer.
pub const MAX_BUFFER_SIZE: usize = 16384;

pub open spec fn pow256(n: nat) -> nat
    decreases n,
{
    if n == 0 {
        1
    } else {
        256 * pow256((n - 1) as nat)
    }
}

/// `v` as `n` little-endian bytes.
pub open spec fn le_bytes(v: nat, n: nat) -> Seq<u8>
    decreases n,
{
    if n == 0 {
        Seq::empty()
    } else {
        seq![(v % 256) as u8] + le_bytes(v / 256, (n - 1) as nat)
    }
}

/// The number that little-endian bytes `s` stand for.
pub open spec fn le_value(s: Seq<u8>) -> nat
    decreases s.len(),
{
    if s.len() == 0 {
        0
    } else {
        s[0] as nat + 256 * le_value(s.drop_first())
    }
}

pub proof fn lemma_pow256_pos(n: nat)
    ensures
        pow256(n) >= 1,
    decreases n,
{
    if n > 0 {
        lemma_pow256_pos((n - 1) as nat);
    }
}

pub proof fn lemma_le_bytes_len(v: nat, n: nat)
    ensures
        le_bytes(v, n).len() == n,
    decreases n,
{
    if n > 0 {
        lemma_le_bytes_len(v / 256, (n - 1) as nat);
    }
}

/// Reading back `n` little-endian bytes of `v` gives `v`.
pub proof fn lemma_le_round_trip(v: nat, n: nat)
    requires
        v < pow256(n),
    ensures
        le_value(le_bytes(v, n)) == v,
        le_bytes(v, n).len() == n,
    decreases n,
{
    lemma_le_bytes_len(v, n);
    if n > 0 {
        let rest = le_bytes(v / 256, (n - 1) as nat);
        assert(v / 256 < pow256((n - 1) as nat)) by (nonlinear_arith)
            requires
                v < 256 * pow256((n - 1) as nat),
        ;
        lemma_le_round_trip(v / 256, (n - 1) as nat);
        assert(le_bytes(v, n).drop_first() == rest);
    }
}

pub proof fn lemma_le_value_bound(s: Seq<u8>)
    ensures
        le_value(s) < pow256(s.len()),
    decreases s.len(),
{
    if s.len() > 0 {
        lemma_le_value_bound(s.drop_first());
        let a = s[0] as nat;
        let b = le_value(s.drop_first());
        let p = pow256((s.len() - 1) as nat);
        assert(a + 256 * b < 256 * p) by (nonlinear_arith)
            requires
                a < 256,
                b < p,
        ;
    }
}

/// Little-endian bytes are determined by the number they stand for.
pub proof fn lemma_le_injective(s: Seq<u8>, t: Seq<u8>)
    requires
        s.len() == t.len(),
        le_value(s) == le_value(t),
    ensures
        s == t,
    decreases s.len(),
{
    if s.len() > 0 {
        let a = s[0] as int;
        let b = t[0] as int;
        let x = le_value(s.drop_first()) as int;
        let y = le_value(t.drop_first()) as int;
        assert(a == b && x == y) by (nonlinear_arith)
            requires
                0 <= a < 256,
                0 <= b < 256,
                x >= 0,
                y >= 0,
                a + 256 * x == b + 256 * y,
        ;
        lemma_le_injective(s.drop_first(), t.drop_first());
        assert(s =~= seq![s[0]] + s.drop_first());
        assert(t =~= seq![t[0]] + t.drop_first());
    }
}

pub proof fn lemma_pow256_values()
    ensures
        pow256(1) == 0x100,
        pow256(2) == 0x1_0000,
        pow256(4) == 0x1_0000_0000,
        pow256(8) == 0x1_0000_0000_0000_0000,
        pow256(16) == 0x1_0000_0000_0000_0000_0000_0000_0000_0000,
{
    reveal_with_fuel(pow256, 17);
}

/// Appends `v` as `n` little-endian bytes.
pub fn write_le(out: &mut Vec<u8>, v: u128, n: usize)
    requires
        n <= 16,
        v < pow256(n as nat),
    ensures
        final(out)@ == old(out)@ + le_bytes(v as nat, n as nat),
{
    let mut cur = v;
    let mut i: usize = 0;
    while i < n
        invariant
            i <= n,
            out@ + le_bytes(cur as nat, (n - i) as nat) == old(out)@ + le_bytes(v as nat, n as nat),
        decreases n - i,
    {
        let b = (cur % 256) as u8;
        proof {
            let rest = le_bytes((cur / 256) as nat, (n - i - 1) as nat);
            assert(le_bytes(cur as nat, (n - i) as nat) == seq![b] + rest);
            assert(out@.push(b) + rest =~= out@ + (seq![b] + rest));
        }
        out.push(b);
        cur = cur / 256;
        i += 1;
    }
    assert(out@ + le_bytes(cur as nat, 0) =~= out@);
}

/// The number stored little-endian in `bytes[pos..pos + n]`.
pub fn read_le(bytes: &[u8], pos: usize, n: usize) -> (r: u128)
    requires
        n <= 16,
        pos + n <= bytes@.len(),
    ensures
        r == le_value(bytes@.subrange(pos as int, pos + n)),
{
    proof {
        lemma_pow256_values();
    }
    let len = bytes.len();
    let mut acc: u128 = 0;
    let mut i: usize = n;
    assert(bytes@.subrange((pos + n) as int, (pos + n) as int).len() == 0);
    while i > 0
        invariant
            i <= n <= 16,
            pos + n <= bytes@.len(),
            len == bytes@.len(),
            acc == le_value(bytes@.subrange(pos + i, pos + n)),
            pow256(16) == 0x1_0000_0000_0000_0000_0000_0000_0000_0000,
        decreases i,
    {
        let ghost s = bytes@.subrange(pos + i - 1, pos + n);
        assert(s.drop_first() =~= bytes@.subrange(pos + i, pos + n));
        proof {
            lemma_le_value_bound(s);
            lemma_pow_mono((n - i + 1) as nat, 16);
        }
        acc = bytes[pos + i - 1] as u128 + 256 * acc;
        i -= 1;
    }
    acc
}

pub proof fn lemma_pow_mono(a: nat, b: nat)
    requires
        a <= b,
    ensures
        pow256(a) <= pow256(b),
    decreases b,
{
    if a < b {
        lemma_pow_mono(a, (b - 1) as nat);
        lemma_pow256_pos((b - 1) as nat);
    }
}

/// `le_value` read back as `n` bytes gives the bytes.
pub proof fn lemma_le_bytes_of_value(s: Seq<u8>)
    ensures
        le_bytes(le_value(s), s.len()) == s,
{
    lemma_le_value_bound(s);
    lemma_le_round_trip(le_value(s), s.len());
    lemma_le_injective(le_bytes(le_value(s), s.len()), s);
}

/// Two's complement of `v` on `n` bytes.
pub open spec fn twos(v: int, n: nat) -> nat {
    if v >= 0 {
        v as nat
    } else {
        (v + pow256(n)) as nat
    }
}

/// The signed number that `n` bytes holding `u` stand for.
pub open spec fn signed_of(u: nat, n: nat) -> int {
    if u * 2 >= pow256(n) {
        u - pow256(n)
    } else {
        u as int
    }
}

/// One body field.
#[derive(Debug)]
pub enum Field {
    U8(u8),
    U16(u16),
    U32(u32),
    U64(u64),
    U128(u128),
    I32(i32),
    I64(i64),
    I128(i128),
    Bool(bool),
    Str(String),
    Bytes(Vec<u8>),
    PairsU8(Vec<(u8, u8)>),
    PairsU32(Vec<(u32, u32)>),
    PairsI32(Vec<(i32, i32)>),
}

/// The type of a field, as a body layout names it.
#[derive(Clone, Copy, Debug, PartialEq, Eq, Structural)]
pub enum FieldKind {
    U8,
    U16,
    U32,
    U64,
    U128,
    I32,
    I64,
    I128,
    Bool,
    Str,
    Bytes,
    PairsU8,
    PairsU32,
    PairsI32,
}

pub open spec fn kind_of(f: Field) -> FieldKind {
    match f {
        Field::U8(_) => FieldKind::U8,
        Field::U16(_) => FieldKind::U16,
        Field::U32(_) => FieldKind::U32,
        Field::U64(_) => FieldKind::U64,
        Field::U128(_) => FieldKind::U128,
        Field::I32(_) => FieldKind::I32,
        Field::I64(_) => FieldKind::I64,
        Field::I128(_) => FieldKind::I128,
        Field::Bool(_) => FieldKind::Bool,
        Field::Str(_) => FieldKind::Str,
        Field::Bytes(_) => FieldKind::Bytes,
        Field::PairsU8(_) => FieldKind::PairsU8,
        Field::PairsU32(_) => FieldKind::PairsU32,
        Field::PairsI32(_) => FieldKind::PairsI32,
    }
}

pub open spec fn pairs_u8_bytes(s: Seq<(u8, u8)>) -> Seq<u8>
    decreases s.len(),
{
    if s.len() == 0 {
        Seq::empty()
    } else {
        pairs_u8_bytes(s.drop_last()) + seq![s.last().0, s.last().1]
    }
}

pub open spec fn pairs_u32_bytes(s: Seq<(u32, u32)>) -> Seq<u8>
    decreases s.len(),
{
    if s.len() == 0 {
        Seq::empty()
    } else {
        pairs_u32_bytes(s.drop_last()) + le_bytes(s.last().0 as nat, 4) + le_bytes(
            s.last().1 as nat,
            4,
        )
    }
}

pub open spec fn pairs_i32_bytes(s: Seq<(i32, i32)>) -> Seq<u8>
    decreases s.len(),
{
    if s.len() == 0 {
        Seq::empty()
    } else {
        pairs_i32_bytes(s.drop_last()) + le_bytes(twos(s.last().0 as int, 4), 4) + le_bytes(
            twos(s.last().1 as int, 4),
            4,
        )
    }
}

/// The bytes of one field.
pub open spec fn enc_field(f: Field) -> Seq<u8> {
    match f {
        Field::U8(v) => le_bytes(v as nat, 1),
        Field::U16(v) => le_bytes(v as nat, 2),
        Field::U32(v) => le_bytes(v as nat, 4),
        Field::U64(v) => le_bytes(v as nat, 8),
        Field::U128(v) => le_bytes(v as nat, 16),
        Field::I32(v) => le_bytes(twos(v as int, 4), 4),
        Field::I64(v) => le_bytes(twos(v as int, 8), 8),
        Field::I128(v) => le_bytes(twos(v as int, 16), 16),
        Field::Bool(b) => seq![if b { 1u8 } else { 0u8 }],
        Field::Str(s) => le_bytes(encode_utf8(s@).len(), 4) + encode_utf8(s@),
        Field::Bytes(v) => le_bytes(v@.len(), 4) + v@,
        Field::PairsU8(v) => le_bytes(v@.len(), 4) + pairs_u8_bytes(v@),
        Field::PairsU32(v) => le_bytes(v@.len(), 4) + pairs_u32_bytes(v@),
        Field::PairsI32(v) => le_bytes(v@.len(), 4) + pairs_i32_bytes(v@),
    }
}

/// A field the format can carry: strings are non-empty with an `i32` length, sequences
/// have a `u32` count.
pub open spec fn encodable(f: Field) -> bool {
    match f {
        Field::Str(s) => 0 < encode_utf8(s@).len() < 0x8000_0000,
        Field::Bytes(v) => v@.len() < 0x1_0000_0000,
        Field::PairsU8(v) => v@.len() < 0x1_0000_0000,
        Field::PairsU32(v) => v@.len() < 0x1_0000_0000,
        Field::PairsI32(v) => v@.len() < 0x1_0000_0000,
        _ => true,
    }
}

/// Two fields carry the same value.
pub open spec fn same_value(f: Field, g: Field) -> bool {
    match (f, g) {
        (Field::U8(a), Field::U8(b)) => a == b,
        (Field::U16(a), Field::U16(b)) => a == b,
        (Field::U32(a), Field::U32(b)) => a == b,
        (Field::U64(a), Field::U64(b)) => a == b,
        (Field::U128(a), Field::U128(b)) => a == b,
        (Field::I32(a), Field::I32(b)) => a == b,
        (Field::I64(a), Field::I64(b)) => a == b,
        (Field::I128(a), Field::I128(b)) => a == b,
        (Field::Bool(a), Field::Bool(b)) => a == b,
        (Field::Str(a), Field::Str(b)) => a@ == b@,
        (Field::Bytes(a), Field::Bytes(b)) => a@ == b@,
        (Field::PairsU8(a), Field::PairsU8(b)) => a@ == b@,
        (Field::PairsU32(a), Field::PairsU32(b)) => a@ == b@,
        (Field::PairsI32(a), Field::PairsI32(b)) => a@ == b@,
        _ => false,
    }
}

/// `e` stands in `s` from `pos` on.
pub open spec fn prefix_at(s: Seq<u8>, pos: int, e: Seq<u8>) -> bool {
    pos + e.len() <= s.len() && s.subrange(pos, pos + e.len()) == e
}

/// Relies on `String::from_utf8`: it accepts exactly the valid UTF-8 byte sequences and
/// decodes them.
#[verifier::external_body]
pub(crate) fn string_from_utf8(bytes: Vec<u8>) -> (r: Option<String>)
    ensures
        r is Some <==> valid_utf8(bytes@),
        r matches Some(s) ==> s@ == decode_utf8(bytes@),
{
    String::from_utf8(bytes).ok()
}

fn twos_i32(v: i32) -> (r: u128)
    ensures
        r == twos(v as int, 4),
        r < pow256(4),
{
    proof {
        lemma_pow256_values();
    }
    if v >= 0 {
        v as u128
    } else {
        (v as i64 + 0x1_0000_0000) as u128
    }
}

fn twos_i64(v: i64) -> (r: u128)
    ensures
        r == twos(v as int, 8),
        r < pow256(8),
{
    proof {
        lemma_pow256_values();
    }
    if v >= 0 {
        v as u128
    } else {
        (v as i128 + 0x1_0000_0000_0000_0000) as u128
    }
}

fn twos_i128(v: i128) -> (r: u128)
    ensures
        r == twos(v as int, 16),
        r < pow256(16),
{
    proof {
        lemma_pow256_values();
    }
    if v >= 0 {
        v as u128
    } else {
        u128::MAX - ((-(v + 1)) as u128)
    }
}

/// Appends the bytes of `f`.
pub fn encode_field(out: &mut Vec<u8>, f: &Field)
    requires
        encodable(*f),
    ensures
        final(out)@ == old(out)@ + enc_field(*f),
{
    proof {
        lemma_pow256_values();
    }
    match f {
        Field::U8(v) => write_le(out, *v as u128, 1),
        Field::U16(v) => write_le(out, *v as u128, 2),
        Field::U32(v) => write_le(out, *v as u128, 4),
        Field::U64(v) => write_le(out, *v as u128, 8),
        Field::U128(v) => write_le(out, *v, 16),
        Field::I32(v) => write_le(out, twos_i32(*v), 4),
        Field::I64(v) => write_le(out, twos_i64(*v), 8),
        Field::I128(v) => write_le(out, twos_i128(*v), 16),
        Field::Bool(b) => {
            if *b {
                out.push(1);
            } else {
                out.push(0);
            }
        },
        Field::Str(s) => {
            let bytes = s.as_str().as_bytes();
            write_le(out, bytes.len() as u128, 4);
            let ghost mid = out@;
            let mut i: usize = 0;
            while i < bytes.len()
                invariant
                    i <= bytes@.len(),
                    out@ == mid + bytes@.subrange(0, i as int),
                decreases bytes@.len() - i,
            {
                out.push(bytes[i]);
                i += 1;
                assert(out@ =~= mid + bytes@.subrange(0, i as int));
            }
            assert(bytes@.subrange(0, bytes@.len() as int) == bytes@);
            assert(out@ =~= old(out)@ + enc_field(*f));
        },
        Field::Bytes(v) => {
            write_le(out, v.len() as u128, 4);
            let ghost mid = out@;
            let mut i: usize = 0;
            while i < v.len()
                invariant
                    i <= v@.len(),
                    out@ == mid + v@.subrange(0, i as int),
                decreases v@.len() - i,
            {
                out.push(v[i]);
                i += 1;
                assert(out@ =~= mid + v@.subrange(0, i as int));
            }
            assert(v@.subrange(0, v@.len() as int) == v@);
            assert(out@ =~= old(out)@ + enc_field(*f));
        },
        Field::PairsU8(v) => {
            write_le(out, v.len() as u128, 4);
            let ghost mid = out@;
            let mut i: usize = 0;
            while i < v.len()
                invariant
                    i <= v@.len(),
                    out@ == mid + pairs_u8_bytes(v@.subrange(0, i as int)),
                decreases v@.len() - i,
            {
                let (a, b) = v[i];
                assert(v@.subrange(0, i + 1).drop_last() == v@.subrange(0, i as int));
                out.push(a);
                out.push(b);
                i += 1;
                assert(out@ =~= mid + pairs_u8_bytes(v@.subrange(0, i as int)));
            }
            assert(v@.subrange(0, v@.len() as int) == v@);
            assert(out@ =~= old(out)@ + enc_field(*f));
        },
        Field::PairsU32(v) => {
            write_le(out, v.len() as u128, 4);
            let ghost mid = out@;
            let mut i: usize = 0;
            while i < v.len()
                invariant
                    i <= v@.len(),
                    out@ == mid + pairs_u32_bytes(v@.subrange(0, i as int)),
                    pow256(4) == 0x1_0000_0000,
                decreases v@.len() - i,
            {
                let (a, b) = v[i];
                assert(v@.subrange(0, i + 1).drop_last() == v@.subrange(0, i as int));
                write_le(out, a as u128, 4);
                write_le(out, b as u128, 4);
                i += 1;
                assert(out@ =~= mid + pairs_u32_bytes(v@.subrange(0, i as int)));
            }
            assert(v@.subrange(0, v@.len() as int) == v@);
            assert(out@ =~= old(out)@ + enc_field(*f));
        },
        Field::PairsI32(v) => {
            write_le(out, v.len() as u128, 4);
            let ghost mid = out@;
            let mut i: usize = 0;
            while i < v.len()
                invariant
                    i <= v@.len(),
                    out@ == mid + pairs_i32_bytes(v@.subrange(0, i as int)),
                    pow256(4) == 0x1_0000_0000,
                decreases v@.len() - i,
            {
                let (a, b) = v[i];
                assert(v@.subrange(0, i + 1).drop_last() == v@.subrange(0, i as int));
                write_le(out, twos_i32(a), 4);
                write_le(out, twos_i32(b), 4);
                i += 1;
                assert(out@ =~= mid + pairs_i32_bytes(v@.subrange(0, i as int)));
            }
            assert(v@.subrange(0, v@.len() as int) == v@);
            assert(out@ =~= old(out)@ + enc_field(*f));
        },
    }
}

pub proof fn lemma_pairs_u8_len(s: Seq<(u8, u8)>)
    ensures
        pairs_u8_bytes(s).len() == 2 * s.len(),
    decreases s.len(),
{
    if s.len() > 0 {
        lemma_pairs_u8_len(s.drop_last());
    }
}

pub proof fn lemma_pairs_u32_len(s: Seq<(u32, u32)>)
    ensures
        pairs_u32_bytes(s).len() == 8 * s.len(),
    decreases s.len(),
{
    if s.len() > 0 {
        lemma_pairs_u32_len(s.drop_last());
        lemma_le_bytes_len(s.last().0 as nat, 4);
        lemma_le_bytes_len(s.last().1 as nat, 4);
    }
}

pub proof fn lemma_pairs_i32_len(s: Seq<(i32, i32)>)
    ensures
        pairs_i32_bytes(s).len() == 8 * s.len(),
    decreases s.len(),
{
    if s.len() > 0 {
        lemma_pairs_i32_len(s.drop_last());
        lemma_le_bytes_len(twos(s.last().0 as int, 4), 4);
        lemma_le_bytes_len(twos(s.last().1 as int, 4), 4);
    }
}

/// Lengths of encodings: fixed for numbers and flags, a four-byte count or length and
/// the items for the rest.
pub proof fn lemma_enc_len(f: Field)
    ensures
        enc_field(f).len() == match f {
            Field::U8(_) => 1int,
            Field::U16(_) => 2,
            Field::U32(_) => 4,
            Field::U64(_) => 8,
            Field::U128(_) => 16,
            Field::I32(_) => 4,
            Field::I64(_) => 8,
            Field::I128(_) => 16,
            Field::Bool(_) => 1,
            Field::Str(s) => 4 + encode_utf8(s@).len() as int,
            Field::Bytes(v) => 4 + v@.len() as int,
            Field::PairsU8(v) => 4 + 2 * v@.len() as int,
            Field::PairsU32(v) => 4 + 8 * v@.len() as int,
            Field::PairsI32(v) => 4 + 8 * v@.len() as int,
        },
{
    match f {
        Field::U8(v) => lemma_le_bytes_len(v as nat, 1),
        Field::U16(v) => lemma_le_bytes_len(v as nat, 2),
        Field::U32(v) => lemma_le_bytes_len(v as nat, 4),
        Field::U64(v) => lemma_le_bytes_len(v as nat, 8),
        Field::U128(v) => lemma_le_bytes_len(v as nat, 16),
        Field::I32(v) => lemma_le_bytes_len(twos(v as int, 4), 4),
        Field::I64(v) => lemma_le_bytes_len(twos(v as int, 8), 8),
        Field::I128(v) => lemma_le_bytes_len(twos(v as int, 16), 16),
        Field::Bool(_) => {},
        Field::Str(s) => lemma_le_bytes_len(encode_utf8(s@).len(), 4),
        Field::Bytes(v) => lemma_le_bytes_len(v@.len(), 4),
        Field::PairsU8(v) => {
            lemma_le_bytes_len(v@.len(), 4);
            lemma_pairs_u8_len(v@);
        },
        Field::PairsU32(v) => {
            lemma_le_bytes_len(v@.len(), 4);
            lemma_pairs_u32_len(v@);
        },
        Field::PairsI32(v) => {
            lemma_le_bytes_len(v@.len(), 4);
            lemma_pairs_i32_len(v@);
        },
    }
}

/// The count or length in front of a sequence or string is read back as itself.
pub proof fn lemma_count_prefix(s: Seq<u8>, pos: int, n: nat, rest: Seq<u8>)
    requires
        0 <= pos,
        n < 0x1_0000_0000,
        prefix_at(s, pos, le_bytes(n, 4) + rest),
    ensures
        pos + 4 <= s.len(),
        le_value(s.subrange(pos, pos + 4)) == n,
        s.subrange(pos + 4, pos + 4 + rest.len()) == rest,
{
    lemma_pow256_values();
    lemma_le_round_trip(n, 4);
    let e = le_bytes(n, 4) + rest;
    assert(s.subrange(pos, pos + 4) =~= e.subrange(0, 4));
    assert(e.subrange(0, 4) =~= le_bytes(n, 4));
    assert(s.subrange(pos + 4, pos + 4 + rest.len()) =~= e.subrange(4, e.len() as int));
    assert(e.subrange(4, e.len() as int) =~= rest);
}

fn signed_i32(u: u128) -> (r: i32)
    requires
        u < pow256(4),
    ensures
        twos(r as int, 4) == u,
{
    proof {
        lemma_pow256_values();
    }
    if u >= 0x8000_0000 {
        (u as i64 - 0x1_0000_0000) as i32
    } else {
        u as i32
    }
}

fn signed_i64(u: u128) -> (r: i64)
    requires
        u < pow256(8),
    ensures
        twos(r as int, 8) == u,
{
    proof {
        lemma_pow256_values();
    }
    if u >= 0x8000_0000_0000_0000 {
        (u as i128 - 0x1_0000_0000_0000_0000) as i64
    } else {
        u as i64
    }
}

fn signed_i128(u: u128) -> (r: i128)
    requires
        u < pow256(16),
    ensures
        twos(r as int, 16) == u,
{
    proof {
        lemma_pow256_values();
    }
    if u >= 0x8000_0000_0000_0000_0000_0000_0000_0000 {
        -((u128::MAX - u) as i128) - 1
    } else {
        u as i128
    }
}

/// Copies `bytes[start..end]`.
fn copy_range(bytes: &[u8], start: usize, end: usize) -> (r: Vec<u8>)
    requires
        start <= end <= bytes@.len(),
    ensures
        r@ == bytes@.subrange(start as int, end as int),
{
    let mut v: Vec<u8> = Vec::new();
    let mut i: usize = start;
    while i < end
        invariant
            start <= i <= end <= bytes@.len(),
            v@ == bytes@.subrange(start as int, i as int),
        decreases end - i,
    {
        v.push(bytes[i]);
        i += 1;
        assert(v@ =~= bytes@.subrange(start as int, i as int));
    }
    v
}

/// Reads one field of the given kind at `pos`: the field and where it ends, or `None` when
/// no field of that kind is encoded there.
pub fn decode_field(kind: FieldKind, bytes: &[u8], pos: usize) -> (r: Option<(Field, usize)>)
    requires
        pos <= bytes@.len(),
    ensures
        r matches Some((f, end)) ==> kind_of(f) == kind && encodable(f) && end == pos + enc_field(
            f,
        ).len() && prefix_at(bytes@, pos as int, enc_field(f)),
        r is None ==> forall|f: Field|
            kind_of(f) == kind && encodable(f) ==> !prefix_at(bytes@, pos as int, #[trigger] enc_field(f)),
{
    proof {
        lemma_pow256_values();
    }
    let avail = bytes.len() - pos;
    let width: usize = match kind {
        FieldKind::U8 => 1,
        FieldKind::U16 => 2,
        FieldKind::U32 => 4,
        FieldKind::U64 => 8,
        FieldKind::U128 => 16,
        FieldKind::I32 => 4,
        FieldKind::I64 => 8,
        FieldKind::I128 => 16,
        FieldKind::Bool => 1,
        _ => 4,
    };
    if avail < width {
        proof {
            assert forall|f: Field|
                kind_of(f) == kind && encodable(f) implies !prefix_at(bytes@, pos as int, #[trigger] enc_field(f)) by {
                lemma_enc_len(f);
            }
        }
        return None;
    }
    let ghost seg = bytes@.subrange(pos as int, pos + width);
    let u = read_le(bytes, pos, width);
    proof {
        lemma_le_value_bound(seg);
        lemma_le_bytes_of_value(seg);
    }
    match kind {
        FieldKind::U8 => Some((Field::U8(u as u8), pos + 1)),
        FieldKind::U16 => Some((Field::U16(u as u16), pos + 2)),
        FieldKind::U32 => Some((Field::U32(u as u32), pos + 4)),
        FieldKind::U64 => Some((Field::U64(u as u64), pos + 8)),
        FieldKind::U128 => Some((Field::U128(u), pos + 16)),
        FieldKind::I32 => Some((Field::I32(signed_i32(u)), pos + 4)),
        FieldKind::I64 => Some((Field::I64(signed_i64(u)), pos + 8)),
        FieldKind::I128 => Some((Field::I128(signed_i128(u)), pos + 16)),
        FieldKind::Bool => {
            if u == 0 {
                Some((Field::Bool(false), pos + 1))
            } else if u == 1 {
                Some((Field::Bool(true), pos + 1))
            } else {
                proof {
                    assert forall|f: Field|
                        kind_of(f) == kind && encodable(f) implies !prefix_at(bytes@, pos as int, #[trigger] enc_field(f)) by {
                        if prefix_at(bytes@, pos as int, enc_field(f)) {
                            assert(bytes@.subrange(pos as int, pos + 1)[0] == enc_field(f)[0]);
                        }
                    }
                }
                None
            }
        },
        FieldKind::Str => decode_str(bytes, pos, u),
        FieldKind::Bytes => decode_bytes(bytes, pos, u),
        FieldKind::PairsU8 => decode_pairs_u8(bytes, pos, u),
        FieldKind::PairsU32 => decode_pairs_u32(bytes, pos, u),
        FieldKind::PairsI32 => decode_pairs_i32(bytes, pos, u),
    }
}

fn decode_str(bytes: &[u8], pos: usize, u: u128) -> (r: Option<(Field, usize)>)
    requires
        pos + 4 <= bytes@.len(),
        u == le_value(bytes@.subrange(pos as int, pos + 4)),
    ensures
        r matches Some((f, end)) ==> kind_of(f) == FieldKind::Str && encodable(f) && end == pos
            + enc_field(f).len() && prefix_at(bytes@, pos as int, enc_field(f)),
        r is None ==> forall|f: Field|
            kind_of(f) == FieldKind::Str && encodable(f) ==> !prefix_at(
                bytes@,
                pos as int,
                #[trigger] enc_field(f),
            ),
{
    proof {
        lemma_pow256_values();
        lemma_le_value_bound(bytes@.subrange(pos as int, pos + 4));
        lemma_le_bytes_of_value(bytes@.subrange(pos as int, pos + 4));
    }
    let l = signed_i32(u);
    if l <= 0 {
        proof {
            assert forall|f: Field|
                kind_of(f) == FieldKind::Str && encodable(f) implies !prefix_at(
                bytes@,
                pos as int,
                #[trigger] enc_field(f),
            ) by {
                if let Field::Str(st) = f {
                    if prefix_at(bytes@, pos as int, enc_field(f)) {
                        lemma_count_prefix(bytes@, pos as int, encode_utf8(st@).len(), encode_utf8(st@));
                    }
                }
            }
        }
        return None;
    }
    let len = l as usize;
    if bytes.len() - pos - 4 < len {
        proof {
            assert forall|f: Field|
                kind_of(f) == FieldKind::Str && encodable(f) implies !prefix_at(
                bytes@,
                pos as int,
                #[trigger] enc_field(f),
            ) by {
                if let Field::Str(st) = f {
                    if prefix_at(bytes@, pos as int, enc_field(f)) {
                        lemma_count_prefix(bytes@, pos as int, encode_utf8(st@).len(), encode_utf8(st@));
                    }
                }
            }
        }
        return None;
    }
    let v = copy_range(bytes, pos + 4, pos + 4 + len);
    let ghost vb = v@;
    match string_from_utf8(v) {
        None => {
            proof {
                assert forall|f: Field|
                    kind_of(f) == FieldKind::Str && encodable(f) implies !prefix_at(
                    bytes@,
                    pos as int,
                    #[trigger] enc_field(f),
                ) by {
                    if let Field::Str(st) = f {
                        if prefix_at(bytes@, pos as int, enc_field(f)) {
                            lemma_count_prefix(
                                bytes@,
                                pos as int,
                                encode_utf8(st@).len(),
                                encode_utf8(st@),
                            );
                            encode_utf8_valid_utf8(st@);
                        }
                    }
                }
            }
            None
        },
        Some(st) => {
            proof {
                decode_utf8_encode_utf8(vb);
                let e = enc_field(Field::Str(st));
                lemma_le_bytes_len(len as nat, 4);
                assert(e =~= bytes@.subrange(pos as int, pos + 4) + vb);
                assert(bytes@.subrange(pos as int, pos + 4 + len) =~= bytes@.subrange(pos as int, pos + 4) + vb);
            }
            Some((Field::Str(st), pos + 4 + len))
        },
    }
}

fn decode_bytes(bytes: &[u8], pos: usize, u: u128) -> (r: Option<(Field, usize)>)
    requires
        pos + 4 <= bytes@.len(),
        u == le_value(bytes@.subrange(pos as int, pos + 4)),
    ensures
        r matches Some((f, end)) ==> kind_of(f) == FieldKind::Bytes && encodable(f) && end == pos
            + enc_field(f).len() && prefix_at(bytes@, pos as int, enc_field(f)),
        r is None ==> forall|f: Field|
            kind_of(f) == FieldKind::Bytes && encodable(f) ==> !prefix_at(
                bytes@,
                pos as int,
                #[trigger] enc_field(f),
            ),
{
    proof {
        lemma_pow256_values();
        lemma_le_value_bound(bytes@.subrange(pos as int, pos + 4));
        lemma_le_bytes_of_value(bytes@.subrange(pos as int, pos + 4));
    }
    if ((bytes.len() - pos - 4) as u128) < u {
        proof {
            assert forall|f: Field|
                kind_of(f) == FieldKind::Bytes && encodable(f) implies !prefix_at(
                bytes@,
                pos as int,
                #[trigger] enc_field(f),
            ) by {
                if let Field::Bytes(w) = f {
                    if prefix_at(bytes@, pos as int, enc_field(f)) {
                        lemma_count_prefix(bytes@, pos as int, w@.len(), w@);
                    }
                }
            }
        }
        return None;
    }
    let len = u as usize;
    let v = copy_range(bytes, pos + 4, pos + 4 + len);
    proof {
        let e = enc_field(Field::Bytes(v));
        assert(e =~= bytes@.subrange(pos as int, pos + 4) + v@);
        assert(bytes@.subrange(pos as int, pos + 4 + len) =~= bytes@.subrange(pos as int, pos + 4) + v@);
    }
    Some((Field::Bytes(v), pos + 4 + len))
}

fn decode_pairs_u8(bytes: &[u8], pos: usize, u: u128) -> (r: Option<(Field, usize)>)
    requires
        pos + 4 <= bytes@.len(),
        u == le_value(bytes@.subrange(pos as int, pos + 4)),
    ensures
        r matches Some((f, end)) ==> kind_of(f) == FieldKind::PairsU8 && encodable(f) && end == pos
            + enc_field(f).len() && prefix_at(bytes@, pos as int, enc_field(f)),
        r is None ==> forall|f: Field|
            kind_of(f) == FieldKind::PairsU8 && encodable(f) ==> !prefix_at(
                bytes@,
                pos as int,
                #[trigger] enc_field(f),
            ),
{
    proof {
        lemma_pow256_values();
        lemma_le_value_bound(bytes@.subrange(pos as int, pos + 4));
        lemma_le_bytes_of_value(bytes@.subrange(pos as int, pos + 4));
    }
    if ((bytes.len() - pos - 4) as u128) < u * 2 {
        proof {
            assert forall|f: Field|
                kind_of(f) == FieldKind::PairsU8 && encodable(f) implies !prefix_at(
                bytes@,
                pos as int,
                #[trigger] enc_field(f),
            ) by {
                if let Field::PairsU8(w) = f {
                    if prefix_at(bytes@, pos as int, enc_field(f)) {
                        lemma_pairs_u8_len(w@);
                        lemma_count_prefix(bytes@, pos as int, w@.len(), pairs_u8_bytes(w@));
                    }
                }
            }
        }
        return None;
    }
    let n = u as usize;
    let mut v: Vec<(u8, u8)> = Vec::new();
    let mut cur: usize = pos + 4;
    let blen = bytes.len();
    let mut i: usize = 0;
    assert(bytes@.subrange(pos + 4, pos + 4) =~= pairs_u8_bytes(v@));
    while i < n
        invariant
            i <= n,
            v@.len() == i,
            cur == pos + 4 + 2 * i,
            pos + 4 + 2 * n <= bytes@.len(),
            blen == bytes@.len(),
            bytes@.subrange(pos + 4, cur as int) == pairs_u8_bytes(v@),
            pow256(4) == 0x1_0000_0000,
        decreases n - i,
    {
        let p = (bytes[cur], bytes[cur + 1]);
        let ghost prev = v@;
        v.push(p);
        proof {
            assert(v@.drop_last() == prev);
            assert(bytes@.subrange(pos + 4, cur + 2) =~= bytes@.subrange(pos + 4, cur as int) + seq![p.0, p.1]);
        }
        cur = cur + 2;
        i += 1;
    }
    proof {
        let e = enc_field(Field::PairsU8(v));
        assert(e =~= bytes@.subrange(pos as int, pos + 4) + pairs_u8_bytes(v@));
        assert(bytes@.subrange(pos as int, cur as int) =~= bytes@.subrange(pos as int, pos + 4) + bytes@.subrange(pos + 4, cur as int));
        lemma_pairs_u8_len(v@);
    }
    Some((Field::PairsU8(v), cur))
}

fn decode_pairs_u32(bytes: &[u8], pos: usize, u: u128) -> (r: Option<(Field, usize)>)
    requires
        pos + 4 <= bytes@.len(),
        u == le_value(bytes@.subrange(pos as int, pos + 4)),
    ensures
        r matches Some((f, end)) ==> kind_of(f) == FieldKind::PairsU32 && encodable(f) && end == pos
            + enc_field(f).len() && prefix_at(bytes@, pos as int, enc_field(f)),
        r is None ==> forall|f: Field|
            kind_of(f) == FieldKind::PairsU32 && encodable(f) ==> !prefix_at(
                bytes@,
                pos as int,
                #[trigger] enc_field(f),
            ),
{
    proof {
        lemma_pow256_values();
        lemma_le_value_bound(bytes@.subrange(pos as int, pos + 4));
        lemma_le_bytes_of_value(bytes@.subrange(pos as int, pos + 4));
    }
    if ((bytes.len() - pos - 4) as u128) < u * 8 {
        proof {
            assert forall|f: Field|
                kind_of(f) == FieldKind::PairsU32 && encodable(f) implies !prefix_at(
                bytes@,
                pos as int,
                #[trigger] enc_field(f),
            ) by {
                if let Field::PairsU32(w) = f {
                    if prefix_at(bytes@, pos as int, enc_field(f)) {
                        lemma_pairs_u32_len(w@);
                        lemma_count_prefix(bytes@, pos as int, w@.len(), pairs_u32_bytes(w@));
                    }
                }
            }
        }
        return None;
    }
    let n = u as usize;
    let mut v: Vec<(u32, u32)> = Vec::new();
    let mut cur: usize = pos + 4;
    let blen = bytes.len();
    let mut i: usize = 0;
    assert(bytes@.subrange(pos + 4, pos + 4) =~= pairs_u32_bytes(v@));
    while i < n
        invariant
            i <= n,
            v@.len() == i,
            cur == pos + 4 + 8 * i,
            pos + 4 + 8 * n <= bytes@.len(),
            blen == bytes@.len(),
            bytes@.subrange(pos + 4, cur as int) == pairs_u32_bytes(v@),
            pow256(4) == 0x1_0000_0000,
        decreases n - i,
    {
        let a = read_le(bytes, cur, 4);
        let b = read_le(bytes, cur + 4, 4);
        proof {
            lemma_le_value_bound(bytes@.subrange(cur as int, cur + 4));
            lemma_le_value_bound(bytes@.subrange(cur + 4, cur + 8));
            lemma_le_bytes_of_value(bytes@.subrange(cur as int, cur + 4));
            lemma_le_bytes_of_value(bytes@.subrange(cur + 4, cur + 8));
        }
        let p = (a as u32, b as u32);
        let ghost prev = v@;
        v.push(p);
        proof {
            assert(v@.drop_last() == prev);
            assert(bytes@.subrange(pos + 4, cur + 8) =~= bytes@.subrange(pos + 4, cur as int) + bytes@.subrange(cur as int, cur + 4) + bytes@.subrange(cur + 4, cur + 8));
        }
        cur = cur + 8;
        i += 1;
    }
    proof {
        let e = enc_field(Field::PairsU32(v));
        assert(e =~= bytes@.subrange(pos as int, pos + 4) + pairs_u32_bytes(v@));
        assert(bytes@.subrange(pos as int, cur as int) =~= bytes@.subrange(pos as int, pos + 4) + bytes@.subrange(pos + 4, cur as int));
        lemma_pairs_u32_len(v@);
    }
    Some((Field::PairsU32(v), cur))
}

fn decode_pairs_i32(bytes: &[u8], pos: usize, u: u128) -> (r: Option<(Field, usize)>)
    requires
        pos + 4 <= bytes@.len(),
        u == le_value(bytes@.subrange(pos as int, pos + 4)),
    ensures
        r matches Some((f, end)) ==> kind_of(f) == FieldKind::PairsI32 && encodable(f) && end == pos
            + enc_field(f).len() && prefix_at(bytes@, pos as int, enc_field(f)),
        r is None ==> forall|f: Field|
            kind_of(f) == FieldKind::PairsI32 && encodable(f) ==> !prefix_at(
                bytes@,
                pos as int,
                #[trigger] enc_field(f),
            ),
{
    proof {
        lemma_pow256_values();
        lemma_le_value_bound(bytes@.subrange(pos as int, pos + 4));
        lemma_le_bytes_of_value(bytes@.subrange(pos as int, pos + 4));
    }
    if ((bytes.len() - pos - 4) as u128) < u * 8 {
        proof {
            assert forall|f: Field|
                kind_of(f) == FieldKind::PairsI32 && encodable(f) implies !prefix_at(
                bytes@,
                pos as int,
                #[trigger] enc_field(f),
            ) by {
                if let Field::PairsI32(w) = f {
                    if prefix_at(bytes@, pos as int, enc_field(f)) {
                        lemma_pairs_i32_len(w@);
                        lemma_count_prefix(bytes@, pos as int, w@.len(), pairs_i32_bytes(w@));
                    }
                }
            }
        }
        return None;
    }
    let n = u as usize;
    let mut v: Vec<(i32, i32)> = Vec::new();
    let mut cur: usize = pos + 4;
    let blen = bytes.len();
    let mut i: usize = 0;
    assert(bytes@.subrange(pos + 4, pos + 4) =~= pairs_i32_bytes(v@));
    while i < n
        invariant
            i <= n,
            v@.len() == i,
            cur == pos + 4 + 8 * i,
            pos + 4 + 8 * n <= bytes@.len(),
            blen == bytes@.len(),
            bytes@.subrange(pos + 4, cur as int) == pairs_i32_bytes(v@),
            pow256(4) == 0x1_0000_0000,
        decreases n - i,
    {
        let a = read_le(bytes, cur, 4);
        let b = read_le(bytes, cur + 4, 4);
        proof {
            lemma_le_value_bound(bytes@.subrange(cur as int, cur + 4));
            lemma_le_value_bound(bytes@.subrange(cur + 4, cur + 8));
            lemma_le_bytes_of_value(bytes@.subrange(cur as int, cur + 4));
            lemma_le_bytes_of_value(bytes@.subrange(cur + 4, cur + 8));
        }
        let p = (signed_i32(a), signed_i32(b));
        let ghost prev = v@;
        v.push(p);
        proof {
            assert(v@.drop_last() == prev);
            assert(bytes@.subrange(pos + 4, cur + 8) =~= bytes@.subrange(pos + 4, cur as int) + bytes@.subrange(cur as int, cur + 4) + bytes@.subrange(cur + 4, cur + 8));
        }
        cur = cur + 8;
        i += 1;
    }
    proof {
        let e = enc_field(Field::PairsI32(v));
        assert(e =~= bytes@.subrange(pos as int, pos + 4) + pairs_i32_bytes(v@));
        assert(bytes@.subrange(pos as int, cur as int) =~= bytes@.subrange(pos as int, pos + 4) + bytes@.subrange(pos + 4, cur as int));
        lemma_pairs_i32_len(v@);
    }
    Some((Field::PairsI32(v), cur))
}

proof fn lemma_prefix_split(s: Seq<u8>, pos: int, a: Seq<u8>, b: Seq<u8>)
    requires
        0 <= pos,
        prefix_at(s, pos, a + b),
    ensures
        prefix_at(s, pos, a),
        prefix_at(s, pos + a.len(), b),
{
    let w = s.subrange(pos, pos + a.len() + b.len());
    assert(w == a + b);
    assert(s.subrange(pos, pos + a.len()) =~= w.subrange(0, a.len() as int));
    assert(w.subrange(0, a.len() as int) =~= a);
    assert(s.subrange(pos + a.len(), pos + a.len() + b.len()) =~= w.subrange(
        a.len() as int,
        w.len() as int,
    ));
    assert(w.subrange(a.len() as int, w.len() as int) =~= b);
}

proof fn lemma_le_same(x: nat, y: nat, n: nat)
    requires
        x < pow256(n),
        y < pow256(n),
        le_bytes(x, n) == le_bytes(y, n),
    ensures
        x == y,
{
    lemma_le_round_trip(x, n);
    lemma_le_round_trip(y, n);
}

proof fn lemma_twos_same(x: int, y: int, n: nat)
    requires
        n >= 1,
        -pow256(n) <= 2 * x < pow256(n),
        -pow256(n) <= 2 * y < pow256(n),
        twos(x, n) == twos(y, n),
    ensures
        x == y,
{
}

proof fn lemma_pairs_u8_injective(a: Seq<(u8, u8)>, b: Seq<(u8, u8)>)
    requires
        a.len() == b.len(),
        pairs_u8_bytes(a) == pairs_u8_bytes(b),
    ensures
        a == b,
    decreases a.len(),
{
    if a.len() > 0 {
        lemma_pairs_u8_len(a.drop_last());
        lemma_pairs_u8_len(b.drop_last());
        let k = pairs_u8_bytes(a.drop_last()).len() as int;
        assert(pairs_u8_bytes(a.drop_last()) =~= pairs_u8_bytes(a).subrange(0, k));
        assert(pairs_u8_bytes(b.drop_last()) =~= pairs_u8_bytes(b).subrange(0, k));
        lemma_pairs_u8_injective(a.drop_last(), b.drop_last());
        assert(pairs_u8_bytes(a)[k] == a.last().0);
        assert(pairs_u8_bytes(b)[k] == b.last().0);
        assert(pairs_u8_bytes(a)[k + 1] == a.last().1);
        assert(pairs_u8_bytes(b)[k + 1] == b.last().1);
        assert(a =~= a.drop_last().push(a.last()));
        assert(b =~= b.drop_last().push(b.last()));
    }
}

proof fn lemma_pairs_u32_injective(a: Seq<(u32, u32)>, b: Seq<(u32, u32)>)
    requires
        a.len() == b.len(),
        pairs_u32_bytes(a) == pairs_u32_bytes(b),
    ensures
        a == b,
    decreases a.len(),
{
    if a.len() > 0 {
        lemma_pow256_values();
        lemma_pairs_u32_len(a.drop_last());
        lemma_pairs_u32_len(b.drop_last());
        let k = pairs_u32_bytes(a.drop_last()).len() as int;
        let (x1, y1) = a.last();
        let (x2, y2) = b.last();
        lemma_le_bytes_len(x1 as nat, 4);
        lemma_le_bytes_len(y1 as nat, 4);
        lemma_le_bytes_len(x2 as nat, 4);
        lemma_le_bytes_len(y2 as nat, 4);
        let pa = pairs_u32_bytes(a);
        let pb = pairs_u32_bytes(b);
        assert(pairs_u32_bytes(a.drop_last()) =~= pa.subrange(0, k));
        assert(pairs_u32_bytes(b.drop_last()) =~= pb.subrange(0, k));
        assert(le_bytes(x1 as nat, 4) =~= pa.subrange(k, k + 4));
        assert(le_bytes(x2 as nat, 4) =~= pb.subrange(k, k + 4));
        assert(le_bytes(y1 as nat, 4) =~= pa.subrange(k + 4, k + 8));
        assert(le_bytes(y2 as nat, 4) =~= pb.subrange(k + 4, k + 8));
        lemma_le_same(x1 as nat, x2 as nat, 4);
        lemma_le_same(y1 as nat, y2 as nat, 4);
        lemma_pairs_u32_injective(a.drop_last(), b.drop_last());
        assert(a =~= a.drop_last().push(a.last()));
        assert(b =~= b.drop_last().push(b.last()));
    }
}

proof fn lemma_pairs_i32_injective(a: Seq<(i32, i32)>, b: Seq<(i32, i32)>)
    requires
        a.len() == b.len(),
        pairs_i32_bytes(a) == pairs_i32_bytes(b),
    ensures
        a == b,
    decreases a.len(),
{
    if a.len() > 0 {
        lemma_pow256_values();
        lemma_pairs_i32_len(a.drop_last());
        lemma_pairs_i32_len(b.drop_last());
        let k = pairs_i32_bytes(a.drop_last()).len() as int;
        let (x1, y1) = a.last();
        let (x2, y2) = b.last();
        lemma_le_bytes_len(twos(x1 as int, 4), 4);
        lemma_le_bytes_len(twos(y1 as int, 4), 4);
        lemma_le_bytes_len(twos(x2 as int, 4), 4);
        lemma_le_bytes_len(twos(y2 as int, 4), 4);
        let pa = pairs_i32_bytes(a);
        let pb = pairs_i32_bytes(b);
        assert(pairs_i32_bytes(a.drop_last()) =~= pa.subrange(0, k));
        assert(pairs_i32_bytes(b.drop_last()) =~= pb.subrange(0, k));
        assert(le_bytes(twos(x1 as int, 4), 4) =~= pa.subrange(k, k + 4));
        assert(le_bytes(twos(x2 as int, 4), 4) =~= pb.subrange(k, k + 4));
        assert(le_bytes(twos(y1 as int, 4), 4) =~= pa.subrange(k + 4, k + 8));
        assert(le_bytes(twos(y2 as int, 4), 4) =~= pb.subrange(k + 4, k + 8));
        lemma_le_same(twos(x1 as int, 4), twos(x2 as int, 4), 4);
        lemma_le_same(twos(y1 as int, 4), twos(y2 as int, 4), 4);
        lemma_twos_same(x1 as int, x2 as int, 4);
        lemma_twos_same(y1 as int, y2 as int, 4);
        lemma_pairs_i32_injective(a.drop_last(), b.drop_last());
        assert(a =~= a.drop_last().push(a.last()));
        assert(b =~= b.drop_last().push(b.last()));
    }
}

/// Two encodable fields of one kind that both stand at `pos` have the same bytes and
/// carry the same value.
pub proof fn lemma_enc_unique(s: Seq<u8>, pos: int, f: Field, g: Field)
    requires
        0 <= pos,
        kind_of(f) == kind_of(g),
        encodable(f),
        encodable(g),
        prefix_at(s, pos, enc_field(f)),
        prefix_at(s, pos, enc_field(g)),
    ensures
        enc_field(f) == enc_field(g),
        same_value(f, g),
{
    lemma_pow256_values();
    lemma_enc_len(f);
    lemma_enc_len(g);
    match (f, g) {
        (Field::U8(a), Field::U8(b)) => lemma_le_same(a as nat, b as nat, 1),
        (Field::U16(a), Field::U16(b)) => lemma_le_same(a as nat, b as nat, 2),
        (Field::U32(a), Field::U32(b)) => lemma_le_same(a as nat, b as nat, 4),
        (Field::U64(a), Field::U64(b)) => lemma_le_same(a as nat, b as nat, 8),
        (Field::U128(a), Field::U128(b)) => lemma_le_same(a as nat, b as nat, 16),
        (Field::I32(a), Field::I32(b)) => {
            lemma_le_same(twos(a as int, 4), twos(b as int, 4), 4);
            lemma_twos_same(a as int, b as int, 4);
        },
        (Field::I64(a), Field::I64(b)) => {
            lemma_le_same(twos(a as int, 8), twos(b as int, 8), 8);
            lemma_twos_same(a as int, b as int, 8);
        },
        (Field::I128(a), Field::I128(b)) => {
            lemma_le_same(twos(a as int, 16), twos(b as int, 16), 16);
            lemma_twos_same(a as int, b as int, 16);
        },
        (Field::Bool(a), Field::Bool(b)) => {
            assert(enc_field(f)[0] == s[pos]);
            assert(enc_field(g)[0] == s[pos]);
        },
        (Field::Str(a), Field::Str(b)) => {
            lemma_count_prefix(s, pos, encode_utf8(a@).len(), encode_utf8(a@));
            lemma_count_prefix(s, pos, encode_utf8(b@).len(), encode_utf8(b@));
            encode_utf8_decode_utf8(a@);
            encode_utf8_decode_utf8(b@);
        },
        (Field::Bytes(a), Field::Bytes(b)) => {
            lemma_count_prefix(s, pos, a@.len(), a@);
            lemma_count_prefix(s, pos, b@.len(), b@);
        },
        (Field::PairsU8(a), Field::PairsU8(b)) => {
            lemma_pairs_u8_len(a@);
            lemma_pairs_u8_len(b@);
            lemma_count_prefix(s, pos, a@.len(), pairs_u8_bytes(a@));
            lemma_count_prefix(s, pos, b@.len(), pairs_u8_bytes(b@));
            lemma_pairs_u8_injective(a@, b@);
        },
        (Field::PairsU32(a), Field::PairsU32(b)) => {
            lemma_pairs_u32_len(a@);
            lemma_pairs_u32_len(b@);
            lemma_count_prefix(s, pos, a@.len(), pairs_u32_bytes(a@));
            lemma_count_prefix(s, pos, b@.len(), pairs_u32_bytes(b@));
            lemma_pairs_u32_injective(a@, b@);
        },
        (Field::PairsI32(a), Field::PairsI32(b)) => {
            lemma_pairs_i32_len(a@);
            lemma_pairs_i32_len(b@);
            lemma_count_prefix(s, pos, a@.len(), pairs_i32_bytes(a@));
            lemma_count_prefix(s, pos, b@.len(), pairs_i32_bytes(b@));
            lemma_pairs_i32_injective(a@, b@);
        },
        _ => {},
    }
}

/// The bytes of a sequence of fields, one after the other.
pub open spec fn enc_fields(fs: Seq<Field>) -> Seq<u8>
    decreases fs.len(),
{
    if fs.len() == 0 {
        Seq::empty()
    } else {
        enc_fields(fs.drop_last()) + enc_field(fs.last())
    }
}

pub open spec fn kinds_of(fs: Seq<Field>) -> Seq<FieldKind> {
    fs.map_values(|f: Field| kind_of(f))
}

pub open spec fn all_encodable(fs: Seq<Field>) -> bool {
    forall|i: int| 0 <= i < fs.len() ==> encodable(#[trigger] fs[i])
}

/// The encoding of the first `i` fields starts the encoding of all of them.
pub proof fn lemma_enc_fields_prefix(fs: Seq<Field>, i: int, s: Seq<u8>, pos: int)
    requires
        0 <= i <= fs.len(),
        0 <= pos,
        prefix_at(s, pos, enc_fields(fs)),
    ensures
        prefix_at(s, pos, enc_fields(fs.subrange(0, i))),
    decreases fs.len() - i,
{
    if i < fs.len() {
        let t = fs.subrange(0, i + 1);
        lemma_enc_fields_prefix(fs, i + 1, s, pos);
        assert(t.drop_last() =~= fs.subrange(0, i));
        lemma_prefix_split(s, pos, enc_fields(t.drop_last()), enc_field(t.last()));
    } else {
        assert(fs.subrange(0, i) =~= fs);
    }
}

/// Two encodable field sequences with the same layout that both start `s` have the same
/// bytes and carry the same values.
pub proof fn lemma_fields_unique(s: Seq<u8>, fs: Seq<Field>, gs: Seq<Field>)
    requires
        kinds_of(fs) == kinds_of(gs),
        all_encodable(fs),
        all_encodable(gs),
        prefix_at(s, 0, enc_fields(fs)),
        prefix_at(s, 0, enc_fields(gs)),
    ensures
        enc_fields(fs) == enc_fields(gs),
        forall|i: int| 0 <= i < fs.len() ==> same_value(#[trigger] fs[i], gs[i]),
    decreases fs.len(),
{
    assert(fs.len() == kinds_of(fs).len());
    assert(gs.len() == kinds_of(gs).len());
    if fs.len() > 0 {
        let n = fs.len() - 1;
        lemma_prefix_split(s, 0, enc_fields(fs.drop_last()), enc_field(fs.last()));
        lemma_prefix_split(s, 0, enc_fields(gs.drop_last()), enc_field(gs.last()));
        assert(kinds_of(fs.drop_last()) =~= kinds_of(gs.drop_last())) by {
            assert forall|i: int| 0 <= i < n implies kinds_of(fs.drop_last())[i] == kinds_of(gs.drop_last())[i] by {
                assert(kinds_of(fs)[i] == kinds_of(gs)[i]);
                assert(kinds_of(fs)[i] == kind_of(fs[i]));
                assert(kinds_of(gs)[i] == kind_of(gs[i]));
                assert(kinds_of(fs.drop_last())[i] == kind_of(fs.drop_last()[i]));
                assert(kinds_of(gs.drop_last())[i] == kind_of(gs.drop_last()[i]));
                assert(fs.drop_last()[i] == fs[i]);
                assert(gs.drop_last()[i] == gs[i]);
            }
        }
        lemma_fields_unique(s, fs.drop_last(), gs.drop_last());
        assert(kinds_of(fs)[n] == kinds_of(gs)[n]);
        assert(kinds_of(fs)[n] == kind_of(fs[n]));
        assert(kinds_of(gs)[n] == kind_of(gs[n]));
        assert(fs.last() == fs[n]);
        assert(gs.last() == gs[n]);
        assert(encodable(fs[n]));
        assert(encodable(gs[n]));
        lemma_enc_unique(s, enc_fields(fs.drop_last()).len() as int, fs.last(), gs.last());
        assert forall|i: int| 0 <= i < fs.len() implies same_value(#[trigger] fs[i], gs[i]) by {
            if i < n {
                assert(fs.drop_last()[i] == fs[i]);
                assert(gs.drop_last()[i] == gs[i]);
            }
        }
    }
}

/// Decoding what was encoded gives back the same values, whatever follows the encoding.
pub proof fn lemma_round_trip(fs: Seq<Field>, rest: Seq<u8>, decoded: Seq<Field>)
    requires
        all_encodable(fs),
        all_encodable(decoded),
        kinds_of(decoded) == kinds_of(fs),
        prefix_at(enc_fields(fs) + rest, 0, enc_fields(decoded)),
    ensures
        decoded.len() == fs.len(),
        forall|i: int| 0 <= i < fs.len() ==> same_value(#[trigger] decoded[i], fs[i]),
{
    let s = enc_fields(fs) + rest;
    assert(s.subrange(0, enc_fields(fs).len() as int) =~= enc_fields(fs));
    lemma_fields_unique(s, decoded, fs);
    assert(decoded.len() == kinds_of(decoded).len());
    assert(fs.len() == kinds_of(fs).len());
}

/// Errors of the transport and the codec.
#[derive(Debug)]
pub enum Error {
    Io,
    FailedToSendBytes,
    FailedToRegisterForEvents,
    InvalidData(String),
    ConnectionNotFound,
}

/// The bytes of `fields`, in order.
pub fn encode_fields(fields: &Vec<Field>) -> (r: Vec<u8>)
    requires
        all_encodable(fields@),
    ensures
        r@ == enc_fields(fields@),
{
    let mut out: Vec<u8> = Vec::new();
    let mut i: usize = 0;
    while i < fields.len()
        invariant
            i <= fields@.len(),
            all_encodable(fields@),
            out@ == enc_fields(fields@.subrange(0, i as int)),
        decreases fields@.len() - i,
    {
        assert(fields@.subrange(0, i + 1).drop_last() =~= fields@.subrange(0, i as int));
        assert(encodable(fields@[i as int]));
        encode_field(&mut out, &fields[i]);
        i += 1;
    }
    assert(fields@.subrange(0, fields@.len() as int) =~= fields@);
    out
}

/// Reads fields of the given kinds from the start of `bytes`; bytes after them are left.
/// Fails exactly when no such fields are encoded there.
pub fn decode_fields(schema: &Vec<FieldKind>, bytes: &[u8]) -> (r: Result<Vec<Field>, Error>)
    ensures
        r matches Ok(fs) ==> kinds_of(fs@) == schema@ && all_encodable(fs@) && prefix_at(
            bytes@,
            0,
            enc_fields(fs@),
        ),
        r is Err ==> forall|fs: Seq<Field>|
            kinds_of(fs) == schema@ && all_encodable(fs) ==> !prefix_at(bytes@, 0, #[trigger] enc_fields(fs)),
{
    let mut out: Vec<Field> = Vec::new();
    let mut pos: usize = 0;
    let mut i: usize = 0;
    assert(bytes@.subrange(0, 0) =~= enc_fields(out@));
    while i < schema.len()
        invariant
            i <= schema@.len(),
            out@.len() == i,
            kinds_of(out@) == schema@.subrange(0, i as int),
            all_encodable(out@),
            pos == enc_fields(out@).len(),
            prefix_at(bytes@, 0, enc_fields(out@)),
        decreases schema@.len() - i,
    {
        match decode_field(schema[i], bytes, pos) {
            None => {
                proof {
                    assert forall|fs: Seq<Field>|
                        kinds_of(fs) == schema@ && all_encodable(fs) implies !prefix_at(
                        bytes@,
                        0,
                        #[trigger] enc_fields(fs),
                    ) by {
                        if prefix_at(bytes@, 0, enc_fields(fs)) {
                            assert(fs.len() == kinds_of(fs).len());
                            let head = fs.subrange(0, i as int);
                            let t = fs.subrange(0, i + 1);
                            lemma_enc_fields_prefix(fs, i + 1, bytes@, 0);
                            assert(t.drop_last() =~= head);
                            lemma_prefix_split(bytes@, 0, enc_fields(head), enc_field(t.last()));
                            assert(kinds_of(head) =~= kinds_of(out@));
                            assert(all_encodable(head));
                            lemma_enc_fields_prefix(fs, i as int, bytes@, 0);
                            lemma_fields_unique(bytes@, head, out@);
                            assert(kind_of(t.last()) == kinds_of(fs)[i as int]);
                            assert(encodable(fs[i as int]));
                        }
                    }
                }
                return Err(Error::InvalidData("malformed packet body".to_owned()));
            },
            Some((f, end)) => {
                let ghost prev = out@;
                proof {
                    lemma_enc_len(f);
                    assert(prefix_at(bytes@, 0, enc_fields(prev) + enc_field(f))) by {
                        assert(bytes@.subrange(0, pos + enc_field(f).len()) =~= bytes@.subrange(0, pos as int) + bytes@.subrange(pos as int, pos + enc_field(f).len()));
                    }
                }
                out.push(f);
                pos = end;
                i += 1;
                proof {
                    assert(out@.drop_last() =~= prev);
                    assert(kinds_of(out@) =~= schema@.subrange(0, i as int));
                }
            },
        }
    }
    assert(schema@.subrange(0, schema@.len() as int) =~= schema@);
    Ok(out)
}

/// Size and message id in front of a body.
#[derive(Clone, Copy, Debug, PartialEq, Eq, Structural)]
pub struct PacketHeader {
    pub size: u16,
    pub id: u8,
}

/// A framed message.
#[derive(Debug)]
pub struct Packet {
    pub header: PacketHeader,
    pub body: Vec<u8>,
}

/// A frame: the body size as two little-endian bytes, the id, the body.
pub open spec fn frame_spec(id: u8, body: Seq<u8>) -> Seq<u8> {
    le_bytes(body.len(), 2) + seq![id] + body
}

/// Frames `body` as message `id`; bodies over the size limit are refused.
pub fn serialize_packet(id: u8, body: &Vec<u8>) -> (r: Result<Vec<u8>, Error>)
    ensures
        r is Ok <==> body@.len() <= MAX_PACKET_BODY_SIZE,
        r matches Ok(v) ==> v@ == frame_spec(id, body@),
{
    if body.len() > MAX_PACKET_BODY_SIZE {
        return Err(Error::InvalidData("packet body too large".to_owned()));
    }
    proof {
        lemma_pow256_values();
    }
    let mut data: Vec<u8> = Vec::new();
    write_le(&mut data, body.len() as u128, 2);
    data.push(id);
    let ghost mid = data@;
    let mut i: usize = 0;
    while i < body.len()
        invariant
            i <= body@.len(),
            data@ == mid + body@.subrange(0, i as int),
        decreases body@.len() - i,
    {
        data.push(body[i]);
        i += 1;
        assert(data@ =~= mid + body@.subrange(0, i as int));
    }
    assert(body@.subrange(0, body@.len() as int) =~= body@);
    assert(data@ =~= frame_spec(id, body@));
    Ok(data)
}

/// The body size a buffer's first two bytes announce.
pub open spec fn announced_size(buffer: Seq<u8>) -> nat {
    le_value(buffer.subrange(0, 2))
}

/// Reads the header at the front of `buffer`; fails when fewer than three bytes are there
/// or the announced body is over the size limit.
pub fn deserialize_packet_header(buffer: &[u8]) -> (r: Result<PacketHeader, Error>)
    ensures
        r is Ok <==> buffer@.len() >= PACKET_HEADER_SIZE && announced_size(buffer@) <= MAX_PACKET_BODY_SIZE,
        r matches Ok(h) ==> h.size as nat == announced_size(buffer@) && h.id == buffer@[2],
{
    if buffer.len() < PACKET_HEADER_SIZE {
        return Err(Error::InvalidData("incomplete packet header".to_owned()));
    }
    let size = read_le(buffer, 0, 2);
    if size > MAX_PACKET_BODY_SIZE as u128 {
        return Err(Error::InvalidData("packet body too large".to_owned()));
    }
    Ok(PacketHeader { size: size as u16, id: buffer[2] })
}

/// Takes the first complete frame off `buffer`: the packet and the number of bytes it used,
/// `None` while the frame is incomplete, an error when its body is over the size limit.
pub fn take_packet(buffer: &[u8]) -> (r: Result<Option<(Packet, usize)>, Error>)
    ensures
        buffer@.len() < PACKET_HEADER_SIZE ==> r matches Ok(None),
        buffer@.len() >= PACKET_HEADER_SIZE ==> {
            let size = announced_size(buffer@);
            if size > MAX_PACKET_BODY_SIZE {
                r is Err
            } else if buffer@.len() < PACKET_HEADER_SIZE + size {
                r matches Ok(None)
            } else {
                r matches Ok(Some((p, n))) && p.header.size as nat == size && p.header.id
                    == buffer@[2] && p.body@ == buffer@.subrange(3, 3 + size as int) && n == 3 + size
            }
        },
{
    if buffer.len() < PACKET_HEADER_SIZE {
        return Ok(None);
    }
    let header = deserialize_packet_header(buffer)?;
    let size = header.size as usize;
    if buffer.len() - PACKET_HEADER_SIZE < size {
        return Ok(None);
    }
    let body = copy_range(buffer, PACKET_HEADER_SIZE, PACKET_HEADER_SIZE + size);
    Ok(Some((Packet { header, body }, PACKET_HEADER_SIZE + size)))
}

/// A frame read back gives its id and body, whatever follows it.
pub proof fn lemma_frame_round_trip(id: u8, body: Seq<u8>, rest: Seq<u8>)
    requires
        body.len() <= MAX_PACKET_BODY_SIZE,
    ensures
        (frame_spec(id, body) + rest).len() >= PACKET_HEADER_SIZE + body.len(),
        announced_size(frame_spec(id, body) + rest) == body.len(),
        (frame_spec(id, body) + rest)[2] == id,
        (frame_spec(id, body) + rest).subrange(3, 3 + body.len() as int) == body,
{
    lemma_pow256_values();
    lemma_le_round_trip(body.len(), 2);
    let s = frame_spec(id, body) + rest;
    assert(s.subrange(0, 2) =~= le_bytes(body.len(), 2));
    assert(s.subrange(3, 3 + body.len() as int) =~= body);
}

/// A connection's receive buffer: `data[..offset]` holds bytes not yet framed.
#[derive(Debug)]
pub struct NetworkBuffer {
    pub data: Vec<u8>,
    pub offset: usize,
}

impl NetworkBuffer {
    pub open spec fn wf(&self) -> bool {
        self.data@.len() == MAX_BUFFER_SIZE && self.offset <= MAX_BUFFER_SIZE
    }

    /// The bytes waiting to be framed.
    pub open spec fn pending(&self) -> Seq<u8> {
        self.data@.subrange(0, self.offset as int)
    }

    pub fn new() -> (r: Self)
        ensures
            r.wf(),
            r.offset == 0,
    {
        NetworkBuffer { data: vec![0u8; MAX_BUFFER_SIZE], offset: 0 }
    }

    /// Appends received bytes; refuses them when the buffer would overflow.
    pub fn append(&mut self, bytes: &[u8]) -> (r: bool)
        requires
            old(self).wf(),
        ensures
            final(self).wf(),
            r == (old(self).offset + bytes@.len() <= MAX_BUFFER_SIZE),
            r ==> final(self).pending() == old(self).pending() + bytes@,
            !r ==> final(self).pending() == old(self).pending(),
    {
        if bytes.len() > MAX_BUFFER_SIZE - self.offset {
            return false;
        }
        let ghost start = self.pending();
        let mut i: usize = 0;
        while i < bytes.len()
            invariant
                i <= bytes@.len(),
                self.wf(),
                old(self).offset + bytes@.len() <= MAX_BUFFER_SIZE,
                self.offset == old(self).offset + i,
                self.pending() == start + bytes@.subrange(0, i as int),
            decreases bytes@.len() - i,
        {
            let o = self.offset;
            let ghost before = self.data@;
            self.data.set(o, bytes[i]);
            self.offset = o + 1;
            proof {
                assert(self.data@.subrange(0, o as int) =~= before.subrange(0, o as int));
                assert(self.pending() =~= before.subrange(0, o as int).push(bytes@[i as int]));
                assert(bytes@.subrange(0, i + 1) =~= bytes@.subrange(0, i as int).push(bytes@[i as int]));
            }
            i += 1;
            assert(self.pending() =~= start + bytes@.subrange(0, i as int));
        }
        assert(bytes@.subrange(0, bytes@.len() as int) =~= bytes@);
        true
    }

    /// Drops the first `count` pending bytes.
    pub fn drain(&mut self, count: usize)
        requires
            old(self).wf(),
            count <= old(self).offset,
        ensures
            final(self).wf(),
            final(self).pending() == old(self).pending().subrange(count as int, old(self).offset as int),
    {
        let ghost start = self.pending();
        let n = self.offset - count;
        let mut i: usize = 0;
        while i < n
            invariant
                i <= n,
                n == old(self).offset - count,
                self.wf(),
                self.offset == old(self).offset,
                start == old(self).pending(),
                count <= old(self).offset,
                forall|k: int| 0 <= k < i ==> self.data@[k] == start[count + k],
                forall|k: int| i + count <= k < self.offset ==> self.data@[k] == start[k],
            decreases n - i,
        {
            let b = self.data[i + count];
            self.data.set(i, b);
            i += 1;
        }
        self.offset = n;
        assert(self.pending() =~= start.subrange(count as int, old(self).offset as int));
    }

    pub fn clear(&mut self)
        ensures
            final(self).wf(),
            final(self).offset == 0,
    {
        self.data = vec![0u8; MAX_BUFFER_SIZE];
        self.offset = 0;
    }
}

/// Whether the format can carry `f`.
pub fn field_encodable(f: &Field) -> (r: bool)
    ensures
        r == encodable(*f),
{
    match f {
        Field::Str(s) => {
            let st = s.as_str();
            let b = st.as_bytes();
            proof {
                assert(st@ == s@);
            }
            b.len() > 0 && b.len() < 0x8000_0000
        },
        Field::Bytes(v) => (v.len() as u64) < 0x1_0000_0000,
        Field::PairsU8(v) => (v.len() as u64) < 0x1_0000_0000,
        Field::PairsU32(v) => (v.len() as u64) < 0x1_0000_0000,
        Field::PairsI32(v) => (v.len() as u64) < 0x1_0000_0000,
        _ => true,
    }
}

/// The frame of message `id` with the given body fields; fails when a field cannot be
/// carried (an empty or oversized string or sequence) or the body is over the size limit.
pub fn serialize_fields(id: u8, fields: &Vec<Field>) -> (r: Result<Vec<u8>, Error>)
    ensures
        r matches Ok(v) ==> all_encodable(fields@) && enc_fields(fields@).len() <= MAX_PACKET_BODY_SIZE
            && v@ == frame_spec(id, enc_fields(fields@)),
        r is Err ==> !all_encodable(fields@) || enc_fields(fields@).len() > MAX_PACKET_BODY_SIZE,
{
    let mut i: usize = 0;
    while i < fields.len()
        invariant
            i <= fields@.len(),
            forall|k: int| 0 <= k < i ==> encodable(#[trigger] fields@[k]),
        decreases fields@.len() - i,
    {
        if !field_encodable(&fields[i]) {
            return Err(Error::InvalidData("field cannot be encoded".to_owned()));
        }
        i += 1;
    }
    let body = encode_fields(fields);
    serialize_packet(id, &body)
}

} // verus!
