use a2ldeser::a2l::{CharacteristicType, Characteristic, CompuMethod, ConversionType, FncValues, IndexMode, Measurement, Module, RecordLayout};
use a2ldeser::decode::{decode_bytes, decode_target, DecodeError, DecodeTarget};
use a2ldeser::resolver::Resolver;
use a2ldeser::types::{A2lValue, DataType};

fn decode_module() -> Module {
    let ch = |name: &str, t: CharacteristicType, deposit: &str| Characteristic {
        name: name.to_string(),
        long_identifier: String::new(),
        characteristic_type: t,
        address: 0,
        deposit: deposit.to_string(),
        conversion: "cm_speed".to_string(),
        axis_descr: vec![],
        number: Some(4),
    };
    Module {
        characteristic: vec![
            ch("limit", CharacteristicType::Value, "rl_s16"),
            ch("part", CharacteristicType::Ascii, "rl_s16"),
            ch("bare", CharacteristicType::Value, "rl_none"),
            ch("both", CharacteristicType::Value, "rl_s16"),
            ch("cube", CharacteristicType::Cuboid, "rl_s16"),
        ],
        axis_pts: vec![],
        record_layout: vec![
            RecordLayout {
                name: "rl_s16".to_string(),
                fnc_values: Some(FncValues { datatype: DataType::Sword, index_mode: IndexMode::RowDir }),
                axis_pts_x: None,
            },
            RecordLayout { name: "rl_none".to_string(), fnc_values: None, axis_pts_x: None },
        ],
        compu_method: vec![CompuMethod {
            name: "cm_speed".to_string(),
            conversion_type: ConversionType::Identical,
            unit: "rpm".to_string(),
            coeffs: None,
            coeffs_linear: None,
            compu_tab_ref: None,
        }],
        compu_tab: vec![],
        compu_vtab: vec![],
        compu_vtab_range: vec![],
        measurement: vec![
            Measurement {
                name: "engine_speed".to_string(),
                datatype: DataType::Uword,
                conversion: "cm_speed".to_string(),
                ecu_address: None,
            },
            Measurement { name: "both".to_string(), datatype: DataType::Ubyte, conversion: "x".to_string(), ecu_address: None },
        ],
    }
}

#[test]
fn measurement_is_decoded_first() {
    let m = decode_module();
    let r = Resolver::new(&m);
    match decode_target(&r, "engine_speed").unwrap() {
        DecodeTarget::Measurement(meas) => {
            assert_eq!(meas.unit, "rpm");
            assert_eq!(decode_bytes(meas.datatype, &[0x10, 0x27]), Ok(A2lValue::U16(10000)));
        }
        other => panic!("expected a measurement, got {other:?}"),
    }
    assert!(matches!(decode_target(&r, "both"), Ok(DecodeTarget::Measurement(_))));
}

#[test]
fn characteristic_targets() {
    let m = decode_module();
    let r = Resolver::new(&m);
    match decode_target(&r, "limit").unwrap() {
        DecodeTarget::Characteristic { datatype, conversion, unit } => {
            assert_eq!(datatype, DataType::Sword);
            assert_eq!(conversion, "cm_speed");
            assert_eq!(unit, "rpm");
            assert_eq!(decode_bytes(datatype, &[0xE6, 0xFF]), Ok(A2lValue::I16(-26)));
        }
        other => panic!("expected a characteristic, got {other:?}"),
    }
    assert!(matches!(decode_target(&r, "part"), Ok(DecodeTarget::Ascii)));
}

#[test]
fn decode_errors() {
    let m = decode_module();
    let r = Resolver::new(&m);
    assert_eq!(decode_target(&r, "bare").unwrap_err(), DecodeError::NoDataType { name: "bare".to_string() });
    assert_eq!(decode_target(&r, "cube").unwrap_err(), DecodeError::NotFound { name: "cube".to_string() });
    assert_eq!(decode_target(&r, "ghost").unwrap_err(), DecodeError::NotFound { name: "ghost".to_string() });
    assert_eq!(
        decode_bytes(DataType::Ulong, &[1, 2]),
        Err(DecodeError::NeedBytes { datatype: DataType::Ulong, need: 4, got: 2 })
    );
}
