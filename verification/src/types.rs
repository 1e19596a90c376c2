//! Typed values decoded from raw little-endian bytes.
//!
//! Floating-point values are carried as their IEEE 754 bit patterns
//! (`F32` holds the binary32 bits, `F64` the binary64 bits).
use vstd::prelude::*;

verus! {

/// A2L data type of a value in ECU memory.
#[derive(Debug, Clone, Copy, PartialEq, Eq, Hash, Structural)]
pub enum DataType {
    Ubyte,
    Sbyte,
    Uword,
    Sword,
    Ulong,
    Slong,
    AUint64,
    AInt64,
    Float16Ieee,
    Float32Ieee,
    Float64Ieee,
}

/// Value of any A2L data type.
#[derive(Debug, PartialEq)]
pub enum A2lValue {
    U8(u8),
    I8(i8),
    U16(u16),
    I16(i16),
    U32(u32),
    I32(i32),
    U64(u64),
    I64(i64),
    /// IEEE 754 binary32 bits.
    F32(u32),
    /// IEEE 754 binary64 bits.
    F64(u64),
    String(String),
    /// 1D array of homogeneous values
    Array(Vec<A2lValue>),
    /// 2D array (row-major) for MAP types
    Array2D { rows: usize, cols: usize, data: Vec<A2lValue> },
}

/// Byte size of a data type.
pub open spec fn spec_datatype_size(dt: DataType) -> nat {
    match dt {
        DataType::Ubyte | DataType::Sbyte => 1,
        DataType::Uword | DataType::Sword | DataType::Float16Ieee => 2,
        DataType::Ulong | DataType::Slong | DataType::Float32Ieee => 4,
        DataType::AUint64 | DataType::AInt64 | DataType::Float64Ieee => 8,
    }
}

/// 256 to the power `k`.
pub open spec fn pow256(k: nat) -> nat
    decreases k,
{
    if k == 0 {
        1
    } else {
        256 * pow256((k - 1) as nat)
    }
}

/// Unsigned little-endian value of a byte sequence.
pub open spec fn le_nat(b: Seq<u8>) -> nat
    decreases b.len(),
{
    if b.len() == 0 {
        0
    } else {
        (b[0] + 256 * le_nat(b.drop_first())) as nat
    }
}

/// Two's complement reading of a `bits`-wide unsigned value.
pub open spec fn to_signed(v: nat, bits: nat) -> int {
    if v < pow256((bits / 8) as nat) / 2 {
        v as int
    } else {
        v - pow256((bits / 8) as nat)
    }
}

/// Number of doublings that bring a non-zero value below 0x400 into
/// `[0x400, 0x800)`.
pub open spec fn norm_shift(m: nat) -> nat
    decreases 0x800 - m,
{
    if m == 0 || m >= 0x400 {
        0
    } else {
        1 + norm_shift(m * 2)
    }
}

/// 2 to the power `k`.
pub open spec fn pow2(k: nat) -> nat
    decreases k,
{
    if k == 0 {
        1
    } else {
        2 * pow2((k - 1) as nat)
    }
}

/// The binary32 bit pattern of the value of a binary16 bit pattern: same
/// sign; zero stays zero; infinities and NaNs keep their payload; normal
/// numbers re-bias the exponent (15 to 127) and widen the fraction (10 to 23
/// bits); subnormal numbers are normalized.
pub open spec fn spec_f16_to_f32(half: u16) -> u32 {
    let sign = half / 0x8000;
    let exponent = (half / 0x400) % 32;
    let mantissa = half % 0x400;
    if exponent == 0 && mantissa == 0 {
        (sign * 0x8000_0000) as u32
    } else if exponent == 0 {
        let k = norm_shift(mantissa as nat);
        (sign * 0x8000_0000 + (113 - k) * 0x80_0000 + (mantissa * pow2(k) - 0x400) * 0x2000) as u32
    } else if exponent == 31 {
        (sign * 0x8000_0000 + 0xFF * 0x80_0000 + mantissa * 0x2000) as u32
    } else {
        (sign * 0x8000_0000 + (exponent + 112) * 0x80_0000 + mantissa * 0x2000) as u32
    }
}

/// The value a data type gives to the first bytes of `b`, or `None` when `b`
/// is shorter than the type.
pub open spec fn spec_from_bytes(dt: DataType, b: Seq<u8>) -> Option<A2lValue> {
    let n = spec_datatype_size(dt);
    let v = le_nat(b.take(n as int));
    if b.len() < n {
        None
    } else {
        Some(
            match dt {
                DataType::Ubyte => A2lValue::U8(v as u8),
                DataType::Sbyte => A2lValue::I8(to_signed(v, 8) as i8),
                DataType::Uword => A2lValue::U16(v as u16),
                DataType::Sword => A2lValue::I16(to_signed(v, 16) as i16),
                DataType::Ulong => A2lValue::U32(v as u32),
                DataType::Slong => A2lValue::I32(to_signed(v, 32) as i32),
                DataType::AUint64 => A2lValue::U64(v as u64),
                DataType::AInt64 => A2lValue::I64(to_signed(v, 64) as i64),
                DataType::Float16Ieee => A2lValue::F32(spec_f16_to_f32(v as u16)),
                DataType::Float32Ieee => A2lValue::F32(v as u32),
                DataType::Float64Ieee => A2lValue::F64(v as u64),
            },
        )
    }
}

/// Numeric values (as opposed to strings and arrays).
pub open spec fn spec_is_numeric(v: A2lValue) -> bool {
    !(v is String || v is Array || v is Array2D)
}

proof fn lemma_le_nat_bound(b: Seq<u8>)
    ensures
        le_nat(b) < pow256(b.len()),
    decreases b.len(),
{
    if b.len() > 0 {
        lemma_le_nat_bound(b.drop_first());
        let r = le_nat(b.drop_first());
        let p = pow256(b.drop_first().len());
        let x = b[0];
        assert(x + 256 * r < 256 * p) by (nonlinear_arith)
            requires
                r < p,
                x < 256,
        ;
    }
}

proof fn lemma_pow256_values()
    ensures
        pow256(1) == 0x100,
        pow256(2) == 0x10000,
        pow256(4) == 0x1_0000_0000,
        pow256(8) == 0x1_0000_0000_0000_0000,
{
    reveal_with_fuel(pow256, 9);
}

/// Unsigned little-endian value of the first `n` bytes of `b`.
fn le_value(b: &[u8], n: usize) -> (r: u64)
    requires
        n <= 8,
        n <= b@.len(),
    ensures
        r == le_nat(b@.take(n as int)),
        r < pow256(n as nat),
{
    let mut acc: u64 = 0;
    let mut k: usize = n;
    proof {
        lemma_pow256_values();
        assert(b@.subrange(n as int, n as int) =~= Seq::<u8>::empty());
    }
    while k > 0
        invariant
            k <= n <= 8,
            n <= b@.len(),
            acc == le_nat(b@.subrange(k as int, n as int)),
            acc < pow256((n - k) as nat),
            pow256(8) == 0x1_0000_0000_0000_0000,
        decreases k,
    {
        let x = b[k - 1];
        let ghost p = pow256((n - k) as nat);
        proof {
            assert(b@.subrange(k - 1, n as int).drop_first() =~= b@.subrange(k as int, n as int));
            assert(acc * 256 + x < 256 * p) by (nonlinear_arith)
                requires
                    acc < p,
                    x < 256,
            ;
            lemma_pow256_monotone((n - k + 1) as nat, 8);
        }
        acc = acc * 256 + x as u64;
        k = k - 1;
    }
    assert(b@.subrange(0, n as int) =~= b@.take(n as int));
    acc
}

proof fn lemma_pow256_monotone(i: nat, j: nat)
    requires
        i <= j,
    ensures
        pow256(i) <= pow256(j),
    decreases j,
{
    if i < j {
        lemma_pow256_monotone(i, (j - 1) as nat);
    }
}

proof fn lemma_bits_join(s: u32, e: u32, m: u32)
    requires
        s < 2,
        e < 256,
        m < 0x80_0000,
    ensures
        (s << 31) | (e << 23) | m == s * 0x8000_0000 + e * 0x80_0000 + m,
{
    assert((s << 31) | (e << 23) | m == s * 0x8000_0000 + e * 0x80_0000 + m) by (bit_vector)
        requires
            s < 2,
            e < 256,
            m < 0x80_0000,
    ;
}

/// IEEE 754 half-precision (binary16) to single-precision (binary32)
/// conversion, on bit patterns.
pub fn f16_to_f32(half: u16) -> (r: u32)
    ensures
        r == spec_f16_to_f32(half),
{
    let sign = ((half >> 15) & 1) as u32;
    let exponent = ((half >> 10) & 0x1F) as u32;
    let mantissa = (half & 0x3FF) as u32;
    assert(sign == half / 0x8000 && exponent == (half / 0x400) % 32 && mantissa == half % 0x400) by (bit_vector)
        requires
            sign == ((half >> 15) & 1) as u32,
            exponent == ((half >> 10) & 0x1F) as u32,
            mantissa == (half & 0x3FF) as u32,
    ;
    if exponent == 0 {
        if mantissa == 0 {
            assert(sign << 31 == sign * 0x8000_0000) by (bit_vector)
                requires
                    sign < 2,
            ;
            sign << 31
        } else {
            let mut m = mantissa;
            let mut e: i32 = -14;
            let ghost mut j: nat = 0;
            assert(pow2(0) == 1);
            assert(m == mantissa * pow2(j));
            while (m & 0x400) == 0
                invariant
                    0 < m < 0x800,
                    0 < mantissa < 0x400,
                    m == mantissa * pow2(j),
                    e == -14 - j,
                    j <= 10,
                    norm_shift(mantissa as nat) == j + norm_shift(m as nat),
                decreases 0x800 - m,
            {
                assert(m < 0x400) by (bit_vector)
                    requires
                        m < 0x800,
                        m & 0x400 == 0,
                ;
                assert(m << 1 == m * 2) by (bit_vector)
                    requires
                        m < 0x400,
                ;
                proof {
                    if j == 10 {
                        assert(pow2(10) == 1024) by {
                            reveal_with_fuel(pow2, 11);
                        }
                        assert(mantissa * pow2(j) >= 1024) by (nonlinear_arith)
                            requires
                                mantissa > 0,
                                pow2(j) == 1024,
                        ;
                    }
                    assert(mantissa * pow2(j + 1) == mantissa * pow2(j) * 2) by (nonlinear_arith)
                        requires
                            pow2(j + 1) == 2 * pow2(j),
                    ;
                }
                m = m << 1;
                e = e - 1;
                proof {
                    j = j + 1;
                }
            }
            assert(m >= 0x400) by (bit_vector)
                requires
                    m < 0x800,
                    m & 0x400 != 0,
            ;
            assert(m & 0x3FF == m - 0x400) by (bit_vector)
                requires
                    0x400 <= m < 0x800,
            ;
            m = m & 0x3FF;
            let f32_exp = (e + 127) as u32;
            assert(m << 13 == m * 0x2000) by (bit_vector)
                requires
                    m < 0x400,
            ;
            proof {
                lemma_bits_join(sign, f32_exp, m << 13);
            }
            (sign << 31) | (f32_exp << 23) | (m << 13)
        }
    } else if exponent == 31 {
        let f32_mantissa = mantissa << 13;
        assert(f32_mantissa == mantissa * 0x2000) by (bit_vector)
            requires
                mantissa < 0x400,
                f32_mantissa == mantissa << 13,
        ;
        proof {
            lemma_bits_join(sign, 0xFF, f32_mantissa);
        }
        (sign << 31) | (0xFF << 23) | f32_mantissa
    } else {
        let f32_exp = (exponent as i32 - 15 + 127) as u32;
        assert(mantissa << 13 == mantissa * 0x2000) by (bit_vector)
            requires
                mantissa < 0x400,
        ;
        proof {
            lemma_bits_join(sign, f32_exp, mantissa << 13);
        }
        (sign << 31) | (f32_exp << 23) | (mantissa << 13)
    }
}

impl A2lValue {
    /// Whether the value is numeric; `as_f64` gives `None` exactly for the
    /// non-numeric (string and array) values.
    pub fn is_numeric(&self) -> (r: bool)
        ensures
            r == spec_is_numeric(*self),
    {
        match self {
            A2lValue::String(_) | A2lValue::Array(_) | A2lValue::Array2D { .. } => false,
            _ => true,
        }
    }

    /// Creates a value of the given data type from the first bytes of a
    /// little-endian byte slice. Returns `None` if the slice is too short.
    pub fn from_bytes(datatype: &DataType, bytes: &[u8]) -> (r: Option<A2lValue>)
        ensures
            r == spec_from_bytes(*datatype, bytes@),
    {
        let n = Self::datatype_size(datatype);
        if bytes.len() < n {
            return None;
        }
        let v = le_value(bytes, n);
        proof {
            lemma_pow256_values();
        }
        let r = match datatype {
            DataType::Ubyte => A2lValue::U8(v as u8),
            DataType::Sbyte => {
                let u = v as u8;
                let s = u as i8;
                assert(s == (if u < 128 { u as int } else { u - 256 })) by (bit_vector)
                    requires
                        s == u as i8,
                ;
                A2lValue::I8(s)
            },
            DataType::Uword => A2lValue::U16(v as u16),
            DataType::Sword => {
                let u = v as u16;
                let s = u as i16;
                assert(s == (if u < 0x8000 { u as int } else { u - 0x10000 })) by (bit_vector)
                    requires
                        s == u as i16,
                ;
                A2lValue::I16(s)
            },
            DataType::Ulong => A2lValue::U32(v as u32),
            DataType::Slong => {
                let u = v as u32;
                let s = u as i32;
                assert(s == (if u < 0x8000_0000 { u as int } else { u - 0x1_0000_0000 })) by (bit_vector)
                    requires
                        s == u as i32,
                ;
                A2lValue::I32(s)
            },
            DataType::AUint64 => A2lValue::U64(v),
            DataType::AInt64 => {
                let s = v as i64;
                assert(s == (if v < 0x8000_0000_0000_0000 { v as int } else { v - 0x1_0000_0000_0000_0000 })) by (bit_vector)
                    requires
                        s == v as i64,
                ;
                A2lValue::I64(s)
            },
            DataType::Float16Ieee => A2lValue::F32(f16_to_f32(v as u16)),
            DataType::Float32Ieee => A2lValue::F32(v as u32),
            DataType::Float64Ieee => A2lValue::F64(v),
        };
        Some(r)
    }

    /// Returns the byte size of a data type.
    pub fn datatype_size(datatype: &DataType) -> (r: usize)
        ensures
            r == spec_datatype_size(*datatype),
    {
        match datatype {
            DataType::Ubyte | DataType::Sbyte => 1,
            DataType::Uword | DataType::Sword | DataType::Float16Ieee => 2,
            DataType::Ulong | DataType::Slong | DataType::Float32Ieee => 4,
            DataType::AUint64 | DataType::AInt64 | DataType::Float64Ieee => 8,
        }
    }
}

// ========================================================================
// Laws
// ========================================================================

/// The `n`-byte little-endian encoding of `v`.
pub open spec fn le_bytes(v: nat, n: nat) -> Seq<u8>
    decreases n,
{
    if n == 0 {
        Seq::empty()
    } else {
        seq![(v % 256) as u8] + le_bytes(v / 256, (n - 1) as nat)
    }
}

/// Decoding the `n`-byte little-endian encoding of a value below 256^n gives
/// the value back.
pub proof fn lemma_le_bytes(v: nat, n: nat)
    requires
        v < pow256(n),
    ensures
        le_bytes(v, n).len() == n,
        le_nat(le_bytes(v, n)) == v,
    decreases n,
{
    if n > 0 {
        let p = pow256((n - 1) as nat);
        assert(v / 256 < p) by (nonlinear_arith)
            requires
                v < 256 * p,
        ;
        lemma_le_bytes(v / 256, (n - 1) as nat);
        let b = le_bytes(v, n);
        assert(b.drop_first() =~= le_bytes(v / 256, (n - 1) as nat));
        assert(v % 256 + 256 * (v / 256) == v) by (nonlinear_arith);
    }
}

/// `from_bytes` reads only the leading bytes of its data type: with enough
/// bytes it gives a value, the same as from exactly those bytes.
pub proof fn lemma_from_bytes_prefix(dt: DataType, b: Seq<u8>)
    requires
        b.len() >= spec_datatype_size(dt),
    ensures
        spec_from_bytes(dt, b) is Some,
        spec_from_bytes(dt, b) == spec_from_bytes(dt, b.take(spec_datatype_size(dt) as int)),
{
    let n = spec_datatype_size(dt) as int;
    assert(b.take(n).take(n) =~= b.take(n));
}

/// Every integer value decodes from its little-endian encoding (two's
/// complement for the signed types).
pub proof fn lemma_from_bytes_round_trip()
    ensures
        forall|v: u8| #[trigger] spec_from_bytes(DataType::Ubyte, le_bytes(v as nat, 1)) == Some(A2lValue::U8(v)),
        forall|v: u16| #[trigger] spec_from_bytes(DataType::Uword, le_bytes(v as nat, 2)) == Some(A2lValue::U16(v)),
        forall|v: u32| #[trigger] spec_from_bytes(DataType::Ulong, le_bytes(v as nat, 4)) == Some(A2lValue::U32(v)),
        forall|v: u64| #[trigger] spec_from_bytes(DataType::AUint64, le_bytes(v as nat, 8)) == Some(A2lValue::U64(v)),
        forall|v: i8| #[trigger] spec_from_bytes(DataType::Sbyte, le_bytes((v as u8) as nat, 1)) == Some(A2lValue::I8(v)),
        forall|v: i16| #[trigger] spec_from_bytes(DataType::Sword, le_bytes((v as u16) as nat, 2)) == Some(A2lValue::I16(v)),
        forall|v: i32| #[trigger] spec_from_bytes(DataType::Slong, le_bytes((v as u32) as nat, 4)) == Some(A2lValue::I32(v)),
        forall|v: i64| #[trigger] spec_from_bytes(DataType::AInt64, le_bytes((v as u64) as nat, 8)) == Some(A2lValue::I64(v)),
{
    lemma_pow256_values();
    assert forall|v: u8| #[trigger] spec_from_bytes(DataType::Ubyte, le_bytes(v as nat, 1)) == Some(A2lValue::U8(v)) by {
        lemma_le_bytes(v as nat, 1);
        assert(le_bytes(v as nat, 1).take(1) =~= le_bytes(v as nat, 1));
    }
    assert forall|v: u16| #[trigger] spec_from_bytes(DataType::Uword, le_bytes(v as nat, 2)) == Some(A2lValue::U16(v)) by {
        lemma_le_bytes(v as nat, 2);
        assert(le_bytes(v as nat, 2).take(2) =~= le_bytes(v as nat, 2));
    }
    assert forall|v: u32| #[trigger] spec_from_bytes(DataType::Ulong, le_bytes(v as nat, 4)) == Some(A2lValue::U32(v)) by {
        lemma_le_bytes(v as nat, 4);
        assert(le_bytes(v as nat, 4).take(4) =~= le_bytes(v as nat, 4));
    }
    assert forall|v: u64| #[trigger] spec_from_bytes(DataType::AUint64, le_bytes(v as nat, 8)) == Some(A2lValue::U64(v)) by {
        lemma_le_bytes(v as nat, 8);
        assert(le_bytes(v as nat, 8).take(8) =~= le_bytes(v as nat, 8));
    }
    assert forall|v: i8| #[trigger] spec_from_bytes(DataType::Sbyte, le_bytes((v as u8) as nat, 1)) == Some(A2lValue::I8(v)) by {
        let u = v as u8;
        lemma_le_bytes(u as nat, 1);
        assert(le_bytes(u as nat, 1).take(1) =~= le_bytes(u as nat, 1));
        assert((if u < 128 { u as int } else { u - 256 }) == v) by (bit_vector)
            requires
                u == v as u8,
        ;
    }
    assert forall|v: i16| #[trigger] spec_from_bytes(DataType::Sword, le_bytes((v as u16) as nat, 2)) == Some(A2lValue::I16(v)) by {
        let u = v as u16;
        lemma_le_bytes(u as nat, 2);
        assert(le_bytes(u as nat, 2).take(2) =~= le_bytes(u as nat, 2));
        assert((if u < 0x8000 { u as int } else { u - 0x10000 }) == v) by (bit_vector)
            requires
                u == v as u16,
        ;
    }
    assert forall|v: i32| #[trigger] spec_from_bytes(DataType::Slong, le_bytes((v as u32) as nat, 4)) == Some(A2lValue::I32(v)) by {
        let u = v as u32;
        lemma_le_bytes(u as nat, 4);
        assert(le_bytes(u as nat, 4).take(4) =~= le_bytes(u as nat, 4));
        assert((if u < 0x8000_0000 { u as int } else { u - 0x1_0000_0000 }) == v) by (bit_vector)
            requires
                u == v as u32,
        ;
    }
    assert forall|v: i64| #[trigger] spec_from_bytes(DataType::AInt64, le_bytes((v as u64) as nat, 8)) == Some(A2lValue::I64(v)) by {
        let u = v as u64;
        lemma_le_bytes(u as nat, 8);
        assert(le_bytes(u as nat, 8).take(8) =~= le_bytes(u as nat, 8));
        assert((if u < 0x8000_0000_0000_0000 { u as int } else { u - 0x1_0000_0000_0000_0000 }) == v) by (bit_vector)
            requires
                u == v as u64,
        ;
    }
}

} // verus!
