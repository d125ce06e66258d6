//! Base-128 variable-length integers, least significant group first.
use vstd::prelude::*;

verus! {

/// `128` raised to the power `k`.
pub open spec fn pow128(k: nat) -> nat
    decreases k,
{
    if k == 0 {
        1
    } else {
        128 * pow128((k - 1) as nat)
    }
}

/// Value and end offset of a varint whose bytes `d[0..k]` have already been
/// read, every one with its continuation bit set, contributing `acc`.
/// The ninth byte, when reached, contributes all eight of its bits. A slice
/// that runs out before the varint ends yields what was gathered and the
/// length nine.
pub open spec fn varint_from(d: Seq<u8>, k: nat, acc: nat) -> (nat, nat)
    decreases 9 - k,
{
    if k >= 9 || k >= d.len() {
        (acc, 9)
    } else if k == 8 {
        (acc + d[8] as nat * pow128(8), 9)
    } else if d[k as int] < 128 {
        (acc + d[k as int] as nat * pow128(k), k + 1)
    } else {
        varint_from(d, k + 1, acc + (d[k as int] - 128) as nat * pow128(k))
    }
}

/// The varint at the start of `d`: its value and the number of bytes it takes.
pub open spec fn varint_decode(d: Seq<u8>) -> (nat, nat) {
    varint_from(d, 0, 0)
}

/// The bytes that encode `v` when `k` groups of seven bits have already been
/// written: one byte per group, the last one without its continuation bit,
/// and at most one full eight-bit byte in ninth position.
pub open spec fn varint_encode_from(v: nat, k: nat) -> Seq<u8>
    decreases 8 - k,
{
    if k >= 8 || v < 128 {
        seq![(v % 256) as u8]
    } else {
        seq![(v % 128 + 128) as u8] + varint_encode_from(v / 128, k + 1)
    }
}

/// The shortest encoding of `v`.
pub open spec fn varint_encoding(v: u64) -> Seq<u8> {
    varint_encode_from(v as nat, 0)
}

proof fn lemma_pow128_8()
    ensures
        pow128(8) == 0x100_0000_0000_0000,
{
    reveal_with_fuel(pow128, 9);
}

proof fn lemma_pow128_pos(k: nat)
    ensures
        pow128(k) >= 1,
    decreases k,
{
    if k > 0 {
        lemma_pow128_pos((k - 1) as nat);
    }
}

proof fn lemma_encode_len(v: nat, k: nat)
    requires
        k <= 8,
    ensures
        1 <= varint_encode_from(v, k).len() <= 9 - k,
    decreases 8 - k,
{
    if k < 8 && v >= 128 {
        lemma_encode_len(v / 128, k + 1);
    }
}

proof fn lemma_decode_encoded(d: Seq<u8>, k: nat, acc: nat, v: nat)
    requires
        k <= 8,
        v * pow128(k) < 0x1_0000_0000_0000_0000,
        k + varint_encode_from(v, k).len() <= d.len(),
        d.subrange(k as int, (k + varint_encode_from(v, k).len()) as int) == varint_encode_from(v, k),
    ensures
        varint_from(d, k, acc) == (acc + v * pow128(k), k + varint_encode_from(v, k).len()),
    decreases 8 - k,
{
    let e = varint_encode_from(v, k);
    assert(d[k as int] == e[0]) by {
        assert(d.subrange(k as int, (k + e.len()) as int)[0] == e[0]);
    }
    lemma_pow128_pos(k);
    if k == 8 {
        lemma_pow128_8();
        assert(v < 256) by (nonlinear_arith)
            requires
                v * 0x100_0000_0000_0000 < 0x1_0000_0000_0000_0000nat,
        ;
    } else if v < 128 {
    } else {
        let w = v / 128;
        let e2 = varint_encode_from(w, k + 1);
        assert(e == seq![(v % 128 + 128) as u8] + e2);
        assert(pow128(k + 1) == 128 * pow128(k));
        let p = pow128(k);
        assert(w * pow128(k + 1) <= v * p) by (nonlinear_arith)
            requires
                w == v / 128,
                pow128(k + 1) == 128 * p,
        ;
        let ki = k as int;
        assert(d.subrange(ki + 1, ki + 1 + e2.len()) == e2) by {
            assert forall|j: int| 0 <= j < e2.len() implies d.subrange(ki + 1, ki + 1 + e2.len())[j]
                == e2[j] by {
                assert(d.subrange(ki, ki + e.len())[j + 1] == e[j + 1]);
            }
            assert(d.subrange(ki + 1, ki + 1 + e2.len()) =~= e2);
        }
        lemma_decode_encoded(d, k + 1, acc + (v % 128) * p, w);
        assert((acc + (v % 128) * p) + w * (128 * p) == acc + v * p) by (nonlinear_arith)
            requires
                w == v / 128,
        ;
    }
}

/// Decoding the encoding of any `u64` gives back the value and the length of
/// the encoding, which is at most nine bytes.
pub proof fn lemma_varint_round_trip(v: u64)
    ensures
        varint_encoding(v).len() <= 9,
        varint_decode(varint_encoding(v)) == (v as nat, varint_encoding(v).len()),
{
    let e = varint_encoding(v);
    lemma_encode_len(v as nat, 0);
    assert(pow128(0) == 1);
    assert(e.subrange(0, e.len() as int) =~= e);
    lemma_decode_encoded(e, 0, 0, v as nat);
}

/// Reads the varint at the start of `data` and returns its value and the
/// number of bytes read.
pub fn read_varint(data: &[u8]) -> (r: (u64, usize))
    requires
        data@.len() > 0,
    ensures
        r.0 as nat == varint_decode(data@).0,
        r.1 as nat == varint_decode(data@).1,
        1 <= r.1 <= 9,
{
    let mut value: u64 = 0;
    let mut mult: u64 = 1;
    let mut j: usize = 0;
    proof {
        lemma_pow128_8();
    }
    while j < 9 && j < data.len()
        invariant
            j <= 8,
            mult as nat == pow128(j as nat),
            value < mult,
            mult <= 0x100_0000_0000_0000,
            varint_from(data@, j as nat, value as nat) == varint_decode(data@),
        decreases 9 - j,
    {
        let b = data[j];
        if j == 8 {
            assert(value + b as nat * mult <= u64::MAX) by (nonlinear_arith)
                requires
                    value < mult,
                    mult <= 0x100_0000_0000_0000,
                    b < 256,
            ;
            return (value + b as u64 * mult, 9);
        }
        if b < 128 {
            assert(value + b as nat * mult < 128 * mult) by (nonlinear_arith)
                requires
                    value < mult,
                    b < 128,
            ;
            return (value + b as u64 * mult, j + 1);
        }
        assert(value + (b - 128) as nat * mult < 128 * mult) by (nonlinear_arith)
            requires
                value < mult,
                b < 256,
                b >= 128,
        ;
        proof {
            lemma_pow128_mono((j + 1) as nat, 8);
            lemma_pow128_8();
            assert(pow128((j + 1) as nat) == 128 * pow128(j as nat));
        }
        value = value + (b - 128) as u64 * mult;
        mult = mult * 128;
        j += 1;
    }
    (value, 9)
}

proof fn lemma_pow128_mono(a: nat, b: nat)
    requires
        a <= b,
    ensures
        pow128(a) <= pow128(b),
    decreases b - a,
{
    if a < b {
        lemma_pow128_mono(a, (b - 1) as nat);
        lemma_pow128_pos((b - 1) as nat);
    }
}

/// Writes the shortest varint encoding of `v`.
pub fn write_varint(v: u64) -> (r: Vec<u8>)
    ensures
        r@ == varint_encoding(v),
{
    let mut out: Vec<u8> = Vec::new();
    let mut rest: u64 = v;
    let mut k: usize = 0;
    while k < 8 && rest >= 128
        invariant
            k <= 8,
            out@ + varint_encode_from(rest as nat, k as nat) == varint_encoding(v),
        decreases 8 - k,
    {
        let ghost before = out@;
        out.push((rest % 128 + 128) as u8);
        assert(varint_encode_from(rest as nat, k as nat) == seq![(rest % 128 + 128) as u8]
            + varint_encode_from((rest / 128) as nat, (k + 1) as nat));
        assert(out@ + varint_encode_from((rest / 128) as nat, (k + 1) as nat) =~= before
            + varint_encode_from(rest as nat, k as nat));
        rest = rest / 128;
        k += 1;
    }
    let ghost before = out@;
    out.push((rest % 256) as u8);
    assert(out@ =~= before + varint_encode_from(rest as nat, k as nat));
    out
}

} // verus!
