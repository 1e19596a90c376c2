use a2ldeser::a2l::{
    AxisDescr, AxisDescrAttribute, AxisPts, CharacteristicType, Characteristic, Coeffs, CompuMethod, ConversionType,
    FixAxisPar, FixAxisParDist, FncValues, IndexMode, Measurement, Module, RecordLayout,
};
use a2ldeser::resolver::{AxisSource, ResolveError, ResolvedCharacteristic, Resolver};
use a2ldeser::types::DataType;

fn layout(name: &str) -> RecordLayout {
    RecordLayout {
        name: name.to_string(),
        fnc_values: Some(FncValues { datatype: DataType::Float32Ieee, index_mode: IndexMode::ColumnDir }),
        axis_pts_x: None,
    }
}

/// The module of the original unit tests: two conversion methods and three
/// record layouts.
fn minimal_module() -> Module {
    Module {
        characteristic: vec![],
        axis_pts: vec![],
        record_layout: vec![layout("rl_scalar"), layout("rl_curve"), layout("rl_map")],
        compu_method: vec![
            CompuMethod {
                name: "cm_identity".to_string(),
                conversion_type: ConversionType::Identical,
                unit: String::new(),
                coeffs: None,
                coeffs_linear: None,
                compu_tab_ref: None,
            },
            CompuMethod {
                name: "cm_ratio".to_string(),
                conversion_type: ConversionType::RatFunc,
                unit: "rpm".to_string(),
                coeffs: Some(Coeffs {
                    a: 0f64.to_bits(),
                    b: 1f64.to_bits(),
                    c: 0f64.to_bits(),
                    d: 0f64.to_bits(),
                    e: 0f64.to_bits(),
                    f: 1f64.to_bits(),
                }),
                coeffs_linear: None,
                compu_tab_ref: None,
            },
        ],
        compu_tab: vec![],
        compu_vtab: vec![],
        compu_vtab_range: vec![],
        measurement: vec![],
    }
}

fn characteristic(name: &str, t: CharacteristicType, deposit: &str, axes: Vec<AxisDescr>) -> Characteristic {
    Characteristic {
        name: name.to_string(),
        long_identifier: format!("{name} description"),
        characteristic_type: t,
        address: 0x1000,
        deposit: deposit.to_string(),
        conversion: "cm_ratio".to_string(),
        axis_descr: axes,
        number: None,
    }
}

fn std_axis(points: u16) -> AxisDescr {
    AxisDescr {
        attribute: AxisDescrAttribute::StdAxis,
        conversion: "NO_COMPU_METHOD".to_string(),
        max_axis_points: points,
        axis_pts_ref: None,
        fix_axis_par: None,
        fix_axis_par_list: None,
        fix_axis_par_dist: None,
    }
}

#[test]
fn resolve_nonexistent_characteristic() {
    let m = minimal_module();
    let r = Resolver::new(&m);
    let result = r.resolve_characteristic("no_such_thing");
    assert!(matches!(result, Err(ResolveError::NotFound { kind: "Characteristic", .. })));
}

#[test]
fn resolve_nonexistent_record_layout() {
    let m = minimal_module();
    let r = Resolver::new(&m);
    let result = r.resolve_layout("no_such_layout");
    assert!(matches!(result, Err(ResolveError::NotFound { kind: "RecordLayout", .. })));
}

#[test]
fn lookup_unit_no_compu_method() {
    let m = minimal_module();
    let r = Resolver::new(&m);
    assert_eq!(r.lookup_unit("NO_COMPU_METHOD"), "");
}

#[test]
fn lookup_unit_existing_method() {
    let m = minimal_module();
    let r = Resolver::new(&m);
    assert_eq!(r.lookup_unit("cm_ratio"), "rpm");
}

#[test]
fn lookup_unit_missing_method() {
    let m = minimal_module();
    let r = Resolver::new(&m);
    assert_eq!(r.lookup_unit("nonexistent"), "");
}

#[test]
fn resolve_layout_from_module() {
    let m = minimal_module();
    let r = Resolver::new(&m);
    let layout = r.resolve_layout("rl_scalar").unwrap();
    assert_eq!(layout.name, "rl_scalar");
    assert_eq!(layout.fnc_values_datatype, Some(DataType::Float32Ieee));
}

#[test]
fn resolve_error_display() {
    let e = ResolveError::NotFound { kind: "Characteristic", name: "foo".into() };
    assert_eq!(e.to_display_string(), "Characteristic 'foo' not found");

    let e = ResolveError::WrongType { name: "bar".into(), expected: "Curve", actual: "Value".into() };
    assert_eq!(e.to_display_string(), "'bar' is Value, expected Curve");
}

// ------------------------------------------------------------------------

#[test]
fn resolve_value_with_unit_and_layout() {
    let mut m = minimal_module();
    m.characteristic.push(characteristic("speed", CharacteristicType::Value, "rl_scalar", vec![]));
    let r = Resolver::new(&m);
    match r.resolve_characteristic("speed").unwrap() {
        ResolvedCharacteristic::Value(v) => {
            assert_eq!(v.name, "speed");
            assert_eq!(v.long_identifier, "speed description");
            assert_eq!(v.address, 0x1000);
            assert_eq!(v.unit, "rpm");
            assert_eq!(v.layout.name, "rl_scalar");
            assert_eq!(v.layout.index_mode, Some(IndexMode::ColumnDir));
        }
        other => panic!("expected Value, got {other:?}"),
    }
}

#[test]
fn resolve_curve_with_std_axis() {
    let mut m = minimal_module();
    m.characteristic.push(characteristic("c", CharacteristicType::Curve, "rl_curve", vec![std_axis(8)]));
    let r = Resolver::new(&m);
    match r.resolve_characteristic("c").unwrap() {
        ResolvedCharacteristic::Curve(c) => {
            assert_eq!(c.x_axis.source, AxisSource::StdAxis { max_axis_points: 8 });
            assert_eq!(c.x_axis.unit, "");
        }
        other => panic!("expected Curve, got {other:?}"),
    }
}

#[test]
fn resolve_map_missing_y_axis() {
    let mut m = minimal_module();
    m.characteristic.push(characteristic("m", CharacteristicType::Map2D, "rl_map", vec![std_axis(4)]));
    let r = Resolver::new(&m);
    match r.resolve_characteristic("m") {
        Err(e @ ResolveError::IncompleteAxis { .. }) => {
            assert_eq!(e.to_display_string(), "incomplete axis on 'm': missing axis descriptor at index 1");
        }
        other => panic!("expected IncompleteAxis, got {other:?}"),
    }
}

#[test]
fn axis_source_priority_and_com_axis() {
    let mut m = minimal_module();
    m.axis_pts.push(AxisPts {
        name: "ap".to_string(),
        address: 0x2000,
        deposit_record: "rl_axis".to_string(),
        conversion: "NO_COMPU_METHOD".to_string(),
        max_axis_points: 5,
    });
    let mut fix = std_axis(3);
    fix.fix_axis_par = Some(FixAxisPar { offset: 0f64.to_bits(), shift: 10f64.to_bits(), number_apo: 3 });
    fix.axis_pts_ref = Some("ap".to_string());
    let mut com = std_axis(5);
    com.axis_pts_ref = Some("ap".to_string());
    m.characteristic.push(characteristic("m", CharacteristicType::Map2D, "rl_map", vec![fix, com]));
    let r = Resolver::new(&m);
    match r.resolve_characteristic("m").unwrap() {
        ResolvedCharacteristic::Map2D(map) => {
            assert_eq!(
                map.x_axis.source,
                AxisSource::FixAxisPar { offset: 0f64.to_bits(), shift: 10f64.to_bits(), count: 3 }
            );
            assert_eq!(
                map.y_axis.source,
                AxisSource::ComAxis {
                    axis_pts_name: "ap".to_string(),
                    axis_pts_address: 0x2000,
                    max_axis_points: 5,
                    deposit_name: "rl_axis".to_string(),
                }
            );
        }
        other => panic!("expected Map2D, got {other:?}"),
    }
}

#[test]
fn missing_axis_pts_is_not_found() {
    let mut m = minimal_module();
    let mut com = std_axis(5);
    com.axis_pts_ref = Some("nope".to_string());
    m.characteristic.push(characteristic("c", CharacteristicType::Curve, "rl_curve", vec![com]));
    let r = Resolver::new(&m);
    let e = r.resolve_characteristic("c").unwrap_err();
    assert_eq!(e, ResolveError::NotFound { kind: "AxisPts", name: "nope".to_string() });
}

#[test]
fn val_blk_and_ascii_counts_default() {
    let mut m = minimal_module();
    m.characteristic.push(characteristic("blk", CharacteristicType::ValBlk, "rl_scalar", vec![]));
    m.characteristic.push(characteristic("txt", CharacteristicType::Ascii, "rl_scalar", vec![]));
    let mut blk3 = characteristic("blk3", CharacteristicType::ValBlk, "rl_scalar", vec![]);
    blk3.number = Some(3);
    m.characteristic.push(blk3);
    let r = Resolver::new(&m);
    assert!(matches!(r.resolve_characteristic("blk"), Ok(ResolvedCharacteristic::ValBlk(b)) if b.count == 1));
    assert!(matches!(r.resolve_characteristic("blk3"), Ok(ResolvedCharacteristic::ValBlk(b)) if b.count == 3));
    assert!(matches!(r.resolve_characteristic("txt"), Ok(ResolvedCharacteristic::Ascii(a)) if a.length == 0));
}

#[test]
fn cuboid_is_wrong_type() {
    let mut m = minimal_module();
    m.characteristic.push(characteristic("cub", CharacteristicType::Cuboid, "rl_map", vec![]));
    let r = Resolver::new(&m);
    let e = r.resolve_characteristic("cub").unwrap_err();
    assert_eq!(e.to_display_string(), "'cub' is Cuboid, expected Value, Curve, Map, or Ascii");
}

#[test]
fn missing_deposit_is_reported_before_type() {
    let mut m = minimal_module();
    m.characteristic.push(characteristic("cub", CharacteristicType::Cuboid, "no_layout", vec![]));
    let r = Resolver::new(&m);
    let e = r.resolve_characteristic("cub").unwrap_err();
    assert_eq!(e, ResolveError::NotFound { kind: "RecordLayout", name: "no_layout".to_string() });
}

#[test]
fn list_and_resolve_all_by_type() {
    let mut m = minimal_module();
    m.characteristic.push(characteristic("c1", CharacteristicType::Curve, "rl_curve", vec![std_axis(2)]));
    m.characteristic.push(characteristic("v", CharacteristicType::Value, "rl_scalar", vec![]));
    m.characteristic.push(characteristic("c2", CharacteristicType::Curve, "rl_curve", vec![]));
    m.characteristic.push(characteristic("m1", CharacteristicType::Map2D, "rl_map", vec![std_axis(2), std_axis(3)]));
    let r = Resolver::new(&m);
    let curves = r.list_characteristics(CharacteristicType::Curve);
    assert_eq!(curves.iter().map(|c| c.name.as_str()).collect::<Vec<_>>(), vec!["c1", "c2"]);
    assert!(r.names_resolve_as(CharacteristicType::Curve));
    let all = r.resolve_all_curves();
    assert_eq!(all.len(), 2);
    assert!(all[0].is_ok());
    assert!(matches!(all[1], Err(ResolveError::IncompleteAxis { .. })));
    let maps = r.resolve_all_maps();
    assert_eq!(maps.len(), 1);
    assert_eq!(maps[0].as_ref().unwrap().y_axis.max_axis_points, 3);
}

#[test]
fn duplicate_name_of_other_type_is_detected() {
    let mut m = minimal_module();
    m.characteristic.push(characteristic("dup", CharacteristicType::Value, "rl_scalar", vec![]));
    m.characteristic.push(characteristic("dup", CharacteristicType::Curve, "rl_curve", vec![std_axis(2)]));
    let r = Resolver::new(&m);
    assert!(!r.names_resolve_as(CharacteristicType::Curve));
    assert!(r.names_resolve_as(CharacteristicType::Value));
}

#[test]
fn duplicate_name_that_fails_to_resolve_gives_its_error() {
    let mut m = minimal_module();
    m.characteristic.push(characteristic("dup", CharacteristicType::Value, "no_layout", vec![]));
    m.characteristic.push(characteristic("dup", CharacteristicType::Curve, "rl_curve", vec![std_axis(2)]));
    let r = Resolver::new(&m);
    assert!(r.names_resolve_as(CharacteristicType::Curve));
    let all = r.resolve_all_curves();
    assert_eq!(all.len(), 1);
    assert_eq!(
        all[0].as_ref().unwrap_err(),
        &ResolveError::NotFound { kind: "RecordLayout", name: "no_layout".to_string() }
    );
}

#[test]
fn measurements_resolve_and_are_ram() {
    let mut m = minimal_module();
    m.measurement.push(Measurement {
        name: "engine_speed".to_string(),
        datatype: DataType::Uword,
        conversion: "cm_ratio".to_string(),
        ecu_address: Some(0xD000_0000),
    });
    let r = Resolver::new(&m);
    let meas = r.resolve_measurement("engine_speed").unwrap();
    assert_eq!(meas.unit, "rpm");
    assert_eq!(meas.ecu_address, Some(0xD000_0000));
    assert!(meas.is_ram());
    let all = r.resolve_all_measurements();
    assert_eq!(all.len(), 1);
    assert!(matches!(r.resolve_measurement("x"), Err(ResolveError::NotFound { kind: "Measurement", .. })));

    let hex = a2ldeser::hex_reader::HexMemory::from_string(":00000001FF\n").unwrap();
    let e = r.read_measurement_from_hex("engine_speed", &hex).unwrap_err();
    assert!(matches!(e, ResolveError::MeasurementIsRam { .. }));
    assert!(e.to_display_string().contains("RAM"));
    let e = r.read_measurement_from_hex("nope", &hex).unwrap_err();
    assert!(matches!(e, ResolveError::NotFound { kind: "Measurement", .. }));
}

#[test]
fn fix_axis_par_dist_follows_list_and_precedes_axis_pts_ref() {
    let mut m = minimal_module();
    m.axis_pts.push(AxisPts {
        name: "ap".to_string(),
        address: 0x2000,
        deposit_record: "rl_axis".to_string(),
        conversion: "NO_COMPU_METHOD".to_string(),
        max_axis_points: 5,
    });
    let dist = FixAxisParDist { offset: 1f64.to_bits(), distance: 0.5f64.to_bits(), number_apo: 4 };
    let mut with_dist = std_axis(4);
    with_dist.fix_axis_par_dist = Some(dist);
    with_dist.axis_pts_ref = Some("ap".to_string());
    let mut with_list = std_axis(2);
    with_list.fix_axis_par_dist = Some(dist);
    with_list.fix_axis_par_list = Some(vec![3f64.to_bits(), 7f64.to_bits()]);
    m.characteristic.push(characteristic("m", CharacteristicType::Map2D, "rl_map", vec![with_dist, with_list]));
    let r = Resolver::new(&m);
    match r.resolve_characteristic("m").unwrap() {
        ResolvedCharacteristic::Map2D(map) => {
            assert_eq!(
                map.x_axis.source,
                AxisSource::FixAxisParDist { offset: 1f64.to_bits(), distance: 0.5f64.to_bits(), count: 4 }
            );
            assert_eq!(map.y_axis.source, AxisSource::FixAxisParList { values: vec![3f64.to_bits(), 7f64.to_bits()] });
        }
        other => panic!("expected Map2D, got {other:?}"),
    }
}
