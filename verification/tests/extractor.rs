use a2ldeser::a2l::{
    AxisDescr, AxisDescrAttribute, AxisPts, CharacteristicType, Characteristic, FixAxisParDist, FncValues, IndexMode, Measurement,
    Module, RecordLayout,
};
use a2ldeser::extractor::{
    ascii_text, column_dir_offset, row_dir_offset, ExtractError, Extractor, RawAxis,
};
use a2ldeser::hex_reader::{HexError, HexMemory};
use a2ldeser::resolver::ResolveError;
use a2ldeser::types::{A2lValue, DataType};

#[test]
fn extract_error_display() {
    let e = ExtractError::NoFncValues { layout: "rl_test".into() };
    assert!(e.to_display_string().contains("rl_test"));

    let e = ExtractError::NoAxisPtsX { layout: "rl_axis".into() };
    assert!(e.to_display_string().contains("rl_axis"));
}

#[test]
fn extract_error_from_resolve() {
    let re = ResolveError::NotFound { kind: "Characteristic", name: "foo".into() };
    let ee: ExtractError = re.into();
    assert!(ee.to_display_string().contains("foo"));
}

#[test]
fn extract_error_from_hex() {
    let he = HexError::AddressNotFound { address: 0x1000, length: 4 };
    let ee: ExtractError = he.into();
    assert!(ee.to_display_string().contains("1000"));
}

#[test]
fn unsupported_index_mode_error() {
    let e = ExtractError::UnsupportedIndexMode { layout: "rl_test".into(), mode: "AlternateCurves".into() };
    let msg = e.to_display_string();
    assert!(msg.contains("AlternateCurves"));
    assert!(msg.contains("rl_test"));
}

#[test]
fn row_dir_offset_calculation() {
    // 3x2 map (3 columns, 2 rows), 4 bytes each
    let x_count = 3;
    let elem_size = 4;
    let row_dir = |x: usize, y: usize| row_dir_offset(x, y, x_count, elem_size);

    // Row 0: [0, 4, 8]
    assert_eq!(row_dir(0, 0), 0);
    assert_eq!(row_dir(1, 0), 4);
    assert_eq!(row_dir(2, 0), 8);
    // Row 1: [12, 16, 20]
    assert_eq!(row_dir(0, 1), 12);
    assert_eq!(row_dir(1, 1), 16);
    assert_eq!(row_dir(2, 1), 20);
}

#[test]
fn column_dir_offset_calculation() {
    // 3x2 map (3 columns, 2 rows), 4 bytes each
    let y_count = 2;
    let elem_size = 4;
    let col_dir = |x: usize, y: usize| column_dir_offset(x, y, y_count, elem_size);

    // Col 0: y=0 at 0, y=1 at 4
    assert_eq!(col_dir(0, 0), 0);
    assert_eq!(col_dir(0, 1), 4);
    // Col 1: y=0 at 8, y=1 at 12
    assert_eq!(col_dir(1, 0), 8);
    assert_eq!(col_dir(1, 1), 12);
    // Col 2: y=0 at 16, y=1 at 20
    assert_eq!(col_dir(2, 0), 16);
    assert_eq!(col_dir(2, 1), 20);
}

// ------------------------------------------------------------------------
// A small module and flash image.

/// Intel HEX text holding `data` at `address` (below 0x10000), one record
/// per 16 bytes.
fn hex_text(blocks: &[(u16, &[u8])]) -> String {
    let mut out = String::new();
    for (address, data) in blocks {
        for (i, chunk) in data.chunks(16).enumerate() {
            let addr = address + (i * 16) as u16;
            let mut rec = vec![chunk.len() as u8, (addr >> 8) as u8, addr as u8, 0];
            rec.extend_from_slice(chunk);
            let sum: u8 = rec.iter().fold(0u8, |a, b| a.wrapping_add(*b));
            rec.push(0u8.wrapping_sub(sum));
            out.push(':');
            for b in rec {
                out.push_str(&format!("{b:02X}"));
            }
            out.push('\n');
        }
    }
    out.push_str(":00000001FF\n");
    out
}

fn layout(name: &str, datatype: DataType, mode: IndexMode) -> RecordLayout {
    RecordLayout { name: name.to_string(), fnc_values: Some(FncValues { datatype, index_mode: mode }), axis_pts_x: None }
}

fn ch(name: &str, t: CharacteristicType, address: u32, deposit: &str, axes: Vec<AxisDescr>, number: Option<u16>) -> Characteristic {
    Characteristic {
        name: name.to_string(),
        long_identifier: String::new(),
        characteristic_type: t,
        address,
        deposit: deposit.to_string(),
        conversion: "NO_COMPU_METHOD".to_string(),
        axis_descr: axes,
        number,
    }
}

fn axis(points: u16, axis_pts_ref: Option<&str>) -> AxisDescr {
    AxisDescr {
        attribute: if axis_pts_ref.is_some() { AxisDescrAttribute::ComAxis } else { AxisDescrAttribute::StdAxis },
        conversion: "NO_COMPU_METHOD".to_string(),
        max_axis_points: points,
        axis_pts_ref: axis_pts_ref.map(|s| s.to_string()),
        fix_axis_par: None,
        fix_axis_par_list: None,
        fix_axis_par_dist: None,
    }
}

fn sample_module() -> Module {
    Module {
        characteristic: vec![
            ch("val", CharacteristicType::Value, 0x100, "rl_u16", vec![], None),
            ch("curve", CharacteristicType::Curve, 0x200, "rl_u8_col", vec![axis(3, Some("ap"))], None),
            ch("map_row", CharacteristicType::Map2D, 0x300, "rl_u8_row", vec![axis(3, None), axis(2, None)], None),
            ch("map_col", CharacteristicType::Map2D, 0x300, "rl_u8_col", vec![axis(3, None), axis(2, None)], None),
            ch("map_alt", CharacteristicType::Map2D, 0x300, "rl_u8_alt", vec![axis(3, None), axis(2, None)], None),
            ch("blk", CharacteristicType::ValBlk, 0x400, "rl_u16", vec![], Some(3)),
            ch("text", CharacteristicType::Ascii, 0x500, "rl_u8_row", vec![], Some(8)),
            ch("far", CharacteristicType::Value, 0x9000, "rl_u16", vec![], None),
            ch("bare", CharacteristicType::Value, 0x100, "rl_bare", vec![], None),
        ],
        axis_pts: vec![AxisPts {
            name: "ap".to_string(),
            address: 0x600,
            deposit_record: "rl_axis".to_string(),
            conversion: "NO_COMPU_METHOD".to_string(),
            max_axis_points: 3,
        }],
        record_layout: vec![
            layout("rl_u16", DataType::Uword, IndexMode::RowDir),
            layout("rl_u8_row", DataType::Ubyte, IndexMode::RowDir),
            layout("rl_u8_col", DataType::Ubyte, IndexMode::ColumnDir),
            layout("rl_u8_alt", DataType::Ubyte, IndexMode::AlternateWithX),
            RecordLayout { name: "rl_axis".to_string(), fnc_values: None, axis_pts_x: Some(DataType::Uword) },
            RecordLayout { name: "rl_bare".to_string(), fnc_values: None, axis_pts_x: None },
        ],
        compu_method: vec![],
        compu_tab: vec![],
        compu_vtab: vec![],
        compu_vtab_range: vec![],
        measurement: vec![Measurement {
            name: "ram_var".to_string(),
            datatype: DataType::Ulong,
            conversion: "NO_COMPU_METHOD".to_string(),
            ecu_address: Some(0xD000_0000),
        }],
    }
}

fn sample_hex() -> HexMemory {
    let text = hex_text(&[
        (0x100, &[0x34, 0x12]),
        (0x200, &[7, 8, 9]),
        (0x300, &[1, 2, 3, 4, 5, 6]),
        (0x400, &[1, 0, 2, 0, 3, 0]),
        (0x500, b"P0425\0\0\0"),
        (0x600, &[10, 0, 20, 0, 30, 0]),
    ]);
    HexMemory::from_string(&text).unwrap()
}

#[test]
fn read_scalar_value() {
    let (m, hex) = (sample_module(), sample_hex());
    let ext = Extractor::new(&m, &hex);
    let (v, raw) = ext.read_value("val").unwrap();
    assert_eq!(v.name, "val");
    assert_eq!(raw, A2lValue::U16(0x1234));
}

#[test]
fn read_value_errors() {
    let (m, hex) = (sample_module(), sample_hex());
    let ext = Extractor::new(&m, &hex);
    assert!(matches!(ext.read_value("curve"), Err(ExtractError::Resolve(ResolveError::WrongType { .. }))));
    assert!(matches!(ext.read_value("nothing"), Err(ExtractError::Resolve(ResolveError::NotFound { .. }))));
    assert!(matches!(
        ext.read_value("far"),
        Err(ExtractError::Hex(HexError::AddressNotFound { address: 0x9000, length: 2 }))
    ));
    match ext.read_value("bare") {
        Err(e @ ExtractError::NoFncValues { .. }) => {
            assert_eq!(e.to_display_string(), "record layout 'rl_bare' has no fnc_values")
        }
        other => panic!("expected NoFncValues, got {other:?}"),
    }
}

#[test]
fn curve_with_com_axis() {
    let (m, hex) = (sample_module(), sample_hex());
    let ext = Extractor::new(&m, &hex);
    let (c, dt) = ext.resolve_curve("curve").unwrap();
    assert_eq!(dt, DataType::Ubyte);
    assert_eq!(ext.axis_point_count(&c.x_axis), 3);
    match ext.read_axis_values(&c.x_axis).unwrap() {
        RawAxis::Read(points) => assert_eq!(points, vec![A2lValue::U16(10), A2lValue::U16(20), A2lValue::U16(30)]),
        other => panic!("expected axis points read from memory, got {other:?}"),
    }
    let values = ext.read_curve_values(&c, dt).unwrap();
    assert_eq!(values, vec![A2lValue::U8(7), A2lValue::U8(8), A2lValue::U8(9)]);
}

#[test]
fn map_row_and_column_order() {
    let (m, hex) = (sample_module(), sample_hex());
    let ext = Extractor::new(&m, &hex);
    let (row_map, dt) = ext.resolve_map("map_row").unwrap();
    let rows = ext.read_map_values(&row_map, dt).unwrap();
    let u8s = |v: &[u8]| v.iter().map(|b| A2lValue::U8(*b)).collect::<Vec<_>>();
    assert_eq!(rows, vec![u8s(&[1, 2, 3]), u8s(&[4, 5, 6])]);
    let (col_map, dt) = ext.resolve_map("map_col").unwrap();
    let cols = ext.read_map_values(&col_map, dt).unwrap();
    assert_eq!(cols, vec![u8s(&[1, 3, 5]), u8s(&[2, 4, 6])]);
    let (alt_map, dt) = ext.resolve_map("map_alt").unwrap();
    match ext.read_map_values(&alt_map, dt) {
        Err(e @ ExtractError::UnsupportedIndexMode { .. }) => {
            assert_eq!(e.to_display_string(), "unsupported index mode 'AlternateWithX' in layout 'rl_u8_alt'")
        }
        other => panic!("expected UnsupportedIndexMode, got {other:?}"),
    }
}

#[test]
fn val_blk_values() {
    let (m, hex) = (sample_module(), sample_hex());
    let ext = Extractor::new(&m, &hex);
    let (vb, values) = ext.read_val_blk("blk").unwrap();
    assert_eq!(vb.count, 3);
    assert_eq!(values, vec![A2lValue::U16(1), A2lValue::U16(2), A2lValue::U16(3)]);
    assert!(matches!(ext.read_val_blk("val"), Err(ExtractError::Resolve(ResolveError::WrongType { .. }))));
}

#[test]
fn ascii_strips_trailing_nuls() {
    let (m, hex) = (sample_module(), sample_hex());
    let ext = Extractor::new(&m, &hex);
    let a = ext.extract_ascii("text").unwrap();
    assert_eq!(a.name, "text");
    assert_eq!(a.text, "P0425");
    assert!(matches!(ext.extract_ascii("val"), Err(ExtractError::Resolve(ResolveError::WrongType { .. }))));
}

#[test]
fn ascii_text_of_bytes() {
    assert_eq!(ascii_text(b"AB\0C\0\0"), "AB\0C");
    assert_eq!(ascii_text(&[0, 0]), "");
    assert_eq!(ascii_text(&[0x41, 0xFF, 0x00]), "A\u{FFFD}");
    assert_eq!(ascii_text("é".as_bytes()), "é");
}

#[test]
fn measurement_cannot_be_extracted() {
    let (m, hex) = (sample_module(), sample_hex());
    let ext = Extractor::new(&m, &hex);
    assert!(matches!(
        ext.extract_measurement("ram_var"),
        Err(ExtractError::Resolve(ResolveError::MeasurementIsRam { .. }))
    ));
    assert!(matches!(
        ext.extract_measurement("val"),
        Err(ExtractError::Resolve(ResolveError::NotFound { kind: "Measurement", .. }))
    ));
}

#[test]
fn curve_with_unsupported_index_mode_and_missing_axis_layout() {
    let mut m = sample_module();
    m.characteristic.push(ch("alt_curve", CharacteristicType::Curve, 0x200, "rl_u8_alt", vec![axis(3, None)], None));
    m.axis_pts[0].deposit_record = "rl_bare".to_string();
    let hex = sample_hex();
    let ext = Extractor::new(&m, &hex);
    assert!(matches!(ext.resolve_curve("alt_curve"), Err(ExtractError::UnsupportedIndexMode { .. })));
    let (c, _) = ext.resolve_curve("curve").unwrap();
    match ext.read_axis_values(&c.x_axis) {
        Err(ExtractError::NoAxisPtsX { layout }) => assert_eq!(layout, "rl_bare"),
        other => panic!("expected NoAxisPtsX, got {other:?}"),
    }
}

#[test]
fn curve_with_fix_axis_par_dist() {
    let mut m = sample_module();
    let mut x = axis(3, None);
    x.fix_axis_par_dist = Some(FixAxisParDist { offset: 2f64.to_bits(), distance: 4f64.to_bits(), number_apo: 2 });
    m.characteristic.push(ch("dist_curve", CharacteristicType::Curve, 0x200, "rl_u8_col", vec![x], None));
    let hex = sample_hex();
    let ext = Extractor::new(&m, &hex);
    let (c, _) = ext.resolve_curve("dist_curve").unwrap();
    assert_eq!(ext.axis_point_count(&c.x_axis), 2);
    match ext.read_axis_values(&c.x_axis).unwrap() {
        RawAxis::FixAxisParDist { offset, distance, count } => {
            assert_eq!((offset, distance, count), (2f64.to_bits(), 4f64.to_bits(), 2))
        }
        other => panic!("expected FIX_AXIS_PAR_DIST breakpoints, got {other:?}"),
    }
}
