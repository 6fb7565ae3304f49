//! Descriptor-driven decoding of fixed-width unsigned fields.

use vstd::prelude::*;

verus! {

/// Byte order of a multi-byte field.
#[derive(Clone, Copy, Debug, PartialEq, Eq, Structural)]
pub enum ByteOrder {
    Little,
    Big,
}

/// Width of one unsigned field.
#[derive(Clone, Copy, Debug, PartialEq, Eq, Structural)]
pub enum FieldWidth {
    U8,
    U16,
    U32,
    U64,
}

/// The one undifferentiated "no structural match" outcome.
#[derive(Clone, Copy, Debug, PartialEq, Eq, Structural)]
pub struct StructureError;

pub open spec fn width_len(w: FieldWidth) -> nat {
    match w {
        FieldWidth::U8 => 1,
        FieldWidth::U16 => 2,
        FieldWidth::U32 => 4,
        FieldWidth::U64 => 8,
    }
}

/// Total byte span of the first `n` fields of a descriptor.
pub open spec fn span(fields: Seq<FieldWidth>, n: int) -> nat
    decreases n,
{
    if n <= 0 {
        0
    } else {
        span(fields, n - 1) + width_len(fields[n - 1])
    }
}

/// Byte span of a whole descriptor.
pub open spec fn descriptor_size(fields: Seq<FieldWidth>) -> nat {
    span(fields, fields.len() as int)
}

/// Unsigned value of bytes read least significant first.
pub open spec fn le_value(b: Seq<u8>) -> nat
    decreases b.len(),
{
    if b.len() == 0 {
        0
    } else {
        b[0] as nat + 256 * le_value(b.subrange(1, b.len() as int))
    }
}

/// Unsigned value of bytes read most significant first.
pub open spec fn be_value(b: Seq<u8>) -> nat
    decreases b.len(),
{
    if b.len() == 0 {
        0
    } else {
        be_value(b.drop_last()) * 256 + b.last() as nat
    }
}

pub open spec fn value_of(b: Seq<u8>, order: ByteOrder) -> nat {
    match order {
        ByteOrder::Little => le_value(b),
        ByteOrder::Big => be_value(b),
    }
}

/// Value of the field of width `w` that starts at byte `off` of `data`.
pub open spec fn field_at(data: Seq<u8>, off: int, w: nat, order: ByteOrder) -> nat {
    value_of(data.subrange(off, off + w), order)
}

/// Little-endian value of the `w` bytes of `data` at `off`.
pub open spec fn le_at(data: Seq<u8>, off: int, w: nat) -> nat {
    le_value(data.subrange(off, off + w))
}

pub open spec fn pow256(n: nat) -> nat
    decreases n,
{
    if n == 0 {
        1
    } else {
        256 * pow256((n - 1) as nat)
    }
}

proof fn lemma_le_bound(b: Seq<u8>)
    ensures
        le_value(b) < pow256(b.len()),
    decreases b.len(),
{
    if b.len() > 0 {
        lemma_le_bound(b.subrange(1, b.len() as int));
    }
}

proof fn lemma_be_bound(b: Seq<u8>)
    ensures
        be_value(b) < pow256(b.len()),
    decreases b.len(),
{
    if b.len() > 0 {
        lemma_be_bound(b.drop_last());
        assert(be_value(b.drop_last()) * 256 + (b.last() as nat) < pow256((b.len() - 1) as nat) * 256)
            by (nonlinear_arith)
            requires
                be_value(b.drop_last()) < pow256((b.len() - 1) as nat),
                b.last() < 256,
        ;
    }
}

pub proof fn lemma_pow256_values()
    ensures
        pow256(1) == 0x100,
        pow256(2) == 0x1_0000,
        pow256(4) == 0x1_0000_0000,
        pow256(8) == 0x1_0000_0000_0000_0000,
{
    reveal_with_fuel(pow256, 9);
}

/// A field of `w` bytes holds a value below `256^w`.
pub proof fn lemma_le_at_bound(d: Seq<u8>, off: int, w: nat)
    requires
        0 <= off,
        off + w <= d.len(),
    ensures
        le_at(d, off, w) < pow256(w),
{
    lemma_le_bound(d.subrange(off, off + w));
}

pub fn width_bytes(w: FieldWidth) -> (r: usize)
    ensures
        r == width_len(w),
{
    match w {
        FieldWidth::U8 => 1,
        FieldWidth::U16 => 2,
        FieldWidth::U32 => 4,
        FieldWidth::U64 => 8,
    }
}

/// Decodes `len` bytes of `data` from `off` as one unsigned integer.
pub fn decode_uint(data: &[u8], off: usize, len: usize, order: ByteOrder) -> (r: u64)
    requires
        1 <= len <= 8,
        off + len <= data@.len(),
    ensures
        r == field_at(data@, off as int, len as nat, order),
{
    let ghost s = data@.subrange(off as int, off + len);
    proof {
        lemma_pow256_values();
        assert(pow256(len as nat) <= pow256(8)) by {
            reveal_with_fuel(pow256, 9);
        }
    }
    let n: usize = data.len();
    let mut v: u64 = 0;
    match order {
        ByteOrder::Little => {
            let mut i: usize = len;
            while i > 0
                invariant
                    0 <= i <= len <= 8,
                    off + len <= data@.len(),
                    n == data@.len(),
                    s == data@.subrange(off as int, off + len),
                    v == le_value(s.subrange(i as int, len as int)),
                    pow256(8) == 0x1_0000_0000_0000_0000,
                decreases i,
            {
                let ghost tail = s.subrange(i as int, len as int);
                let ghost next = s.subrange(i - 1, len as int);
                proof {
                    assert(next.subrange(1, next.len() as int) =~= tail);
                    lemma_le_bound(next);
                    assert(le_value(next) == next[0] as nat + 256 * le_value(tail));
                    assert(pow256(next.len()) <= pow256(8)) by {
                        reveal_with_fuel(pow256, 9);
                    }
                }
                v = v * 256 + data[off + i - 1] as u64;
                i = i - 1;
            }
            assert(s.subrange(0, len as int) =~= s);
        },
        ByteOrder::Big => {
            let mut i: usize = 0;
            while i < len
                invariant
                    0 <= i <= len <= 8,
                    off + len <= data@.len(),
                    n == data@.len(),
                    s == data@.subrange(off as int, off + len),
                    v == be_value(s.subrange(0, i as int)),
                    pow256(8) == 0x1_0000_0000_0000_0000,
                decreases len - i,
            {
                let ghost head = s.subrange(0, i as int);
                let ghost next = s.subrange(0, i + 1);
                proof {
                    assert(next.drop_last() =~= head);
                    lemma_be_bound(next);
                    assert(pow256(next.len()) <= pow256(8)) by {
                        reveal_with_fuel(pow256, 9);
                    }
                }
                v = v * 256 + data[off + i] as u64;
                i = i + 1;
            }
            assert(s.subrange(0, len as int) =~= s);
        },
    }
    v
}

proof fn lemma_span_monotone(fields: Seq<FieldWidth>, a: int, b: int)
    requires
        0 <= a <= b,
    ensures
        span(fields, a) <= span(fields, b),
    decreases b - a,
{
    if a < b {
        lemma_span_monotone(fields, a, b - 1);
    }
}

/// Byte span of a descriptor.
pub fn structure_size(fields: &[FieldWidth]) -> (r: usize)
    requires
        descriptor_size(fields@) <= usize::MAX,
    ensures
        r == descriptor_size(fields@),
{
    let mut total: usize = 0;
    let mut i: usize = 0;
    while i < fields.len()
        invariant
            0 <= i <= fields@.len(),
            total == span(fields@, i as int),
            descriptor_size(fields@) <= usize::MAX,
        decreases fields@.len() - i,
    {
        proof {
            lemma_span_monotone(fields@, i + 1, fields@.len() as int);
        }
        total = total + width_bytes(fields[i]);
        i = i + 1;
    }
    total
}

/// Decodes every field of the descriptor, in order, from the start of
/// `data`; fails, with nothing decoded, when `data` is shorter than the
/// descriptor.
pub fn parse(data: &[u8], fields: &[FieldWidth], order: ByteOrder) -> (r: Result<
    Vec<u64>,
    StructureError,
>)
    ensures
        match r {
            Ok(v) => {
                &&& descriptor_size(fields@) <= data@.len()
                &&& v@.len() == fields@.len()
                &&& forall|i: int|
                    0 <= i < v@.len() ==> v@[i] == field_at(
                        data@,
                        span(fields@, i) as int,
                        width_len(#[trigger] fields@[i]),
                        order,
                    )
            },
            Err(_) => descriptor_size(fields@) > data@.len(),
        },
{
    let n: usize = data.len();
    let mut values: Vec<u64> = Vec::with_capacity(fields.len());
    let mut off: usize = 0;
    let mut i: usize = 0;
    while i < fields.len()
        invariant
            0 <= i <= fields@.len(),
            n == data@.len(),
            off == span(fields@, i as int),
            off <= n,
            values@.len() == i,
            forall|j: int|
                0 <= j < i ==> values@[j] == field_at(
                    data@,
                    span(fields@, j) as int,
                    width_len(#[trigger] fields@[j]),
                    order,
                ),
        decreases fields@.len() - i,
    {
        let w = width_bytes(fields[i]);
        if w > n - off {
            proof {
                lemma_span_monotone(fields@, i + 1, fields@.len() as int);
            }
            return Err(StructureError);
        }
        let x = decode_uint(data, off, w, order);
        values.push(x);
        off = off + w;
        i = i + 1;
    }
    Ok(values)
}

} // verus!
