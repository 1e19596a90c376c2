use a2ldeser::types::{f16_to_f32, A2lValue, DataType};

#[test]
fn value_u8_roundtrip() {
    let val = A2lValue::from_bytes(&DataType::Ubyte, &[0xFF]).unwrap();
    assert_eq!(val, A2lValue::U8(255));
    assert!(val.is_numeric());
}

#[test]
fn value_i8_negative() {
    let val = A2lValue::from_bytes(&DataType::Sbyte, &[0x80]).unwrap();
    assert_eq!(val, A2lValue::I8(-128));
    assert!(val.is_numeric());
}

#[test]
fn value_u16_le() {
    let val = A2lValue::from_bytes(&DataType::Uword, &[0x01, 0x00]).unwrap();
    assert_eq!(val, A2lValue::U16(1));
}

#[test]
fn value_i16_negative() {
    let bytes = (-1000i16).to_le_bytes();
    let val = A2lValue::from_bytes(&DataType::Sword, &bytes).unwrap();
    assert_eq!(val, A2lValue::I16(-1000));
}

#[test]
fn value_u32_le() {
    let bytes = 100_000u32.to_le_bytes();
    let val = A2lValue::from_bytes(&DataType::Ulong, &bytes).unwrap();
    assert_eq!(val, A2lValue::U32(100_000));
}

#[test]
fn value_i32_negative() {
    let bytes = (-50_000i32).to_le_bytes();
    let val = A2lValue::from_bytes(&DataType::Slong, &bytes).unwrap();
    assert_eq!(val, A2lValue::I32(-50_000));
}

#[test]
fn value_u64() {
    let bytes = u64::MAX.to_le_bytes();
    let val = A2lValue::from_bytes(&DataType::AUint64, &bytes).unwrap();
    assert_eq!(val, A2lValue::U64(u64::MAX));
}

#[test]
fn value_i64_negative() {
    let bytes = i64::MIN.to_le_bytes();
    let val = A2lValue::from_bytes(&DataType::AInt64, &bytes).unwrap();
    assert_eq!(val, A2lValue::I64(i64::MIN));
}

#[test]
fn value_f32() {
    let bytes = std::f32::consts::PI.to_le_bytes();
    let val = A2lValue::from_bytes(&DataType::Float32Ieee, &bytes).unwrap();
    assert_eq!(val, A2lValue::F32(std::f32::consts::PI.to_bits()));
    if let A2lValue::F32(bits) = val {
        assert!((f32::from_bits(bits) as f64 - std::f64::consts::PI).abs() < 1e-6);
    }
}

#[test]
fn value_f64() {
    let bytes = std::f64::consts::E.to_le_bytes();
    let val = A2lValue::from_bytes(&DataType::Float64Ieee, &bytes).unwrap();
    assert_eq!(val, A2lValue::F64(std::f64::consts::E.to_bits()));
}

#[test]
fn value_f16_one() {
    // IEEE 754 half-precision 1.0 = 0x3C00
    let val = A2lValue::from_bytes(&DataType::Float16Ieee, &[0x00, 0x3C]).unwrap();
    if let A2lValue::F32(bits) = val {
        let f = f32::from_bits(bits);
        assert!((f - 1.0).abs() < 1e-6, "expected 1.0, got {f}");
    } else {
        panic!("expected F32 variant");
    }
}

#[test]
fn value_f16_zero() {
    let val = A2lValue::from_bytes(&DataType::Float16Ieee, &[0x00, 0x00]).unwrap();
    assert_eq!(val, A2lValue::F32(0.0f32.to_bits()));
}

#[test]
fn value_from_bytes_too_short() {
    assert!(A2lValue::from_bytes(&DataType::Uword, &[0x01]).is_none());
    assert!(A2lValue::from_bytes(&DataType::Ulong, &[0x01, 0x02]).is_none());
    assert!(A2lValue::from_bytes(&DataType::Float64Ieee, &[0; 4]).is_none());
}

#[test]
fn value_string_no_f64() {
    let val = A2lValue::String("hello".to_string());
    assert!(!val.is_numeric());
}

#[test]
fn value_array_no_f64() {
    let val = A2lValue::Array(vec![A2lValue::U8(1), A2lValue::U8(2)]);
    assert!(!val.is_numeric());
}

#[test]
fn datatype_sizes() {
    assert_eq!(A2lValue::datatype_size(&DataType::Ubyte), 1);
    assert_eq!(A2lValue::datatype_size(&DataType::Sbyte), 1);
    assert_eq!(A2lValue::datatype_size(&DataType::Uword), 2);
    assert_eq!(A2lValue::datatype_size(&DataType::Sword), 2);
    assert_eq!(A2lValue::datatype_size(&DataType::Float16Ieee), 2);
    assert_eq!(A2lValue::datatype_size(&DataType::Ulong), 4);
    assert_eq!(A2lValue::datatype_size(&DataType::Slong), 4);
    assert_eq!(A2lValue::datatype_size(&DataType::Float32Ieee), 4);
    assert_eq!(A2lValue::datatype_size(&DataType::AUint64), 8);
    assert_eq!(A2lValue::datatype_size(&DataType::AInt64), 8);
    assert_eq!(A2lValue::datatype_size(&DataType::Float64Ieee), 8);
}

// ------------------------------------------------------------------------

#[test]
fn from_bytes_reads_only_the_leading_bytes() {
    let val = A2lValue::from_bytes(&DataType::Uword, &[0x34, 0x12, 0xFF, 0xFF]).unwrap();
    assert_eq!(val, A2lValue::U16(0x1234));
}

#[test]
fn f16_conversion_matches_float_semantics() {
    // normal, negative, subnormal, infinity, NaN payload
    for half in [0x3C00u16, 0xC000, 0x0001, 0x03FF, 0x7C00, 0xFC00, 0x7E00, 0x7BFF, 0x8000] {
        let bits = f16_to_f32(half);
        let sign = if half & 0x8000 != 0 { -1.0f32 } else { 1.0 };
        let exp = ((half >> 10) & 0x1F) as i32;
        let man = (half & 0x3FF) as f32;
        let expected = if exp == 0 {
            sign * man * 2f32.powi(-24)
        } else if exp == 31 {
            if man == 0.0 { sign * f32::INFINITY } else { f32::NAN }
        } else {
            sign * (1.0 + man / 1024.0) * 2f32.powi(exp - 15)
        };
        let got = f32::from_bits(bits);
        if expected.is_nan() {
            assert!(got.is_nan());
        } else {
            assert_eq!(got, expected, "half {half:#06x}");
        }
    }
}

#[test]
fn integer_values_round_trip_through_little_endian_bytes() {
    for v in [0u16, 1, 0x1234, u16::MAX] {
        assert_eq!(A2lValue::from_bytes(&DataType::Uword, &v.to_le_bytes()), Some(A2lValue::U16(v)));
    }
    for v in [i16::MIN, -1, 0, i16::MAX] {
        assert_eq!(A2lValue::from_bytes(&DataType::Sword, &v.to_le_bytes()), Some(A2lValue::I16(v)));
    }
    for v in [0u32, 0xDEAD_BEEF, u32::MAX] {
        assert_eq!(A2lValue::from_bytes(&DataType::Ulong, &v.to_le_bytes()), Some(A2lValue::U32(v)));
    }
    for v in [i32::MIN, -7, i32::MAX] {
        assert_eq!(A2lValue::from_bytes(&DataType::Slong, &v.to_le_bytes()), Some(A2lValue::I32(v)));
    }
    for v in [0u64, 0x0102_0304_0506_0708, u64::MAX] {
        assert_eq!(A2lValue::from_bytes(&DataType::AUint64, &v.to_le_bytes()), Some(A2lValue::U64(v)));
    }
    for v in [i64::MIN, -2, i64::MAX] {
        assert_eq!(A2lValue::from_bytes(&DataType::AInt64, &v.to_le_bytes()), Some(A2lValue::I64(v)));
    }
}
