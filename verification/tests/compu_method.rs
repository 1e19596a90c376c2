use a2ldeser::a2l::{CoeffsLinear, CompuMethod, CompuTab, CompuVtab, CompuVtabRange, ConversionType, Module};
use a2ldeser::compu_method::{plan_raw_to_physical, plan_raw_to_string, ConversionError, PhysicalPlan, VerbalTable};
use a2ldeser::types::A2lValue;

fn method(name: &str, t: ConversionType, tab: Option<&str>) -> CompuMethod {
    CompuMethod {
        name: name.to_string(),
        conversion_type: t,
        unit: String::new(),
        coeffs: None,
        coeffs_linear: None,
        compu_tab_ref: tab.map(|s| s.to_string()),
    }
}

fn conversion_module() -> Module {
    let mut lin = method("cm_lin", ConversionType::Linear, None);
    lin.coeffs_linear = Some(CoeffsLinear { a: 2f64.to_bits(), b: 10f64.to_bits() });
    Module {
        characteristic: vec![],
        axis_pts: vec![],
        record_layout: vec![],
        compu_method: vec![
            method("cm_id", ConversionType::Identical, None),
            lin,
            method("cm_lin_bare", ConversionType::Linear, None),
            method("cm_rat_bare", ConversionType::RatFunc, None),
            method("cm_verb", ConversionType::TabVerb, Some("vt")),
            method("cm_range", ConversionType::TabVerb, Some("vr")),
            method("cm_verb_missing", ConversionType::TabVerb, Some("nowhere")),
            method("cm_verb_noref", ConversionType::TabVerb, None),
            method("cm_intp", ConversionType::TabIntp, Some("tab")),
            method("cm_form", ConversionType::Form, None),
            method("cm_nointp", ConversionType::TabNointp, Some("tab2")),
            method("cm_intp_missing", ConversionType::TabIntp, Some("nowhere")),
            method("cm_nointp_noref", ConversionType::TabNointp, None),
            method("cm_nointp_unknown_table", ConversionType::TabNointp, Some("nowhere")),
        ],
        compu_tab: vec![
            CompuTab {
                name: "tab".to_string(),
                value_pairs: vec![(0f64.to_bits(), 0f64.to_bits()), (10f64.to_bits(), 100f64.to_bits())],
            },
            CompuTab { name: "tab2".to_string(), value_pairs: vec![(1f64.to_bits(), 5f64.to_bits())] },
        ],
        compu_vtab: vec![CompuVtab {
            name: "vt".to_string(),
            value_pairs: vec![(0f64.to_bits(), "OFF".to_string()), (1f64.to_bits(), "ON".to_string())],
            default_value: None,
        }],
        compu_vtab_range: vec![CompuVtabRange {
            name: "vr".to_string(),
            value_triples: vec![(0f64.to_bits(), 9f64.to_bits(), "LOW".to_string())],
            default_value: None,
        }],
        measurement: vec![],
    }
}

#[test]
fn no_compu_method_plan_is_identity() {
    let m = conversion_module();
    let raw = A2lValue::U16(1234);
    assert_eq!(plan_raw_to_physical(&raw, "NO_COMPU_METHOD", &m), Ok(PhysicalPlan::Raw));
    assert_eq!(plan_raw_to_string(&raw, "NO_COMPU_METHOD", &m), Ok(None));
}

#[test]
fn method_not_found_error() {
    let m = conversion_module();
    let raw = A2lValue::U8(0);
    assert_eq!(
        plan_raw_to_physical(&raw, "NonExistent", &m),
        Err(ConversionError::MethodNotFound("NonExistent".to_string()))
    );
    assert_eq!(
        ConversionError::MethodNotFound("NonExistent".to_string()).to_display_string(),
        "COMPU_METHOD 'NonExistent' not found"
    );
}

#[test]
fn string_value_returns_invalid_input() {
    let m = conversion_module();
    let raw = A2lValue::String("not a number".to_string());
    assert_eq!(plan_raw_to_physical(&raw, "NO_COMPU_METHOD", &m), Err(ConversionError::InvalidInput));
    assert_eq!(plan_raw_to_string(&raw, "cm_id", &m), Err(ConversionError::InvalidInput));
}

#[test]
fn plans_by_conversion_type() {
    let m = conversion_module();
    let raw = A2lValue::U8(1);
    assert_eq!(plan_raw_to_physical(&raw, "cm_id", &m), Ok(PhysicalPlan::Raw));
    assert_eq!(
        plan_raw_to_physical(&raw, "cm_lin", &m),
        Ok(PhysicalPlan::Linear(CoeffsLinear { a: 2f64.to_bits(), b: 10f64.to_bits() }))
    );
    assert_eq!(plan_raw_to_physical(&raw, "cm_lin_bare", &m), Err(ConversionError::InvalidInput));
    assert_eq!(plan_raw_to_physical(&raw, "cm_rat_bare", &m), Err(ConversionError::InvalidInput));
    assert_eq!(plan_raw_to_physical(&raw, "cm_verb", &m), Ok(PhysicalPlan::CheckedRaw(VerbalTable::Vtab(0))));
    assert_eq!(plan_raw_to_physical(&raw, "cm_range", &m), Ok(PhysicalPlan::CheckedRaw(VerbalTable::VtabRange(0))));
    assert_eq!(
        plan_raw_to_physical(&raw, "cm_verb_missing", &m),
        Err(ConversionError::TableNotFound("nowhere".to_string()))
    );
    assert_eq!(plan_raw_to_physical(&raw, "cm_verb_noref", &m), Err(ConversionError::InvalidInput));
    assert_eq!(plan_raw_to_physical(&raw, "cm_intp", &m), Ok(PhysicalPlan::Interpolate(0)));
    assert_eq!(plan_raw_to_physical(&raw, "cm_nointp", &m), Ok(PhysicalPlan::Raw));
    assert_eq!(plan_raw_to_physical(&raw, "cm_nointp_unknown_table", &m), Ok(PhysicalPlan::Raw));
    assert_eq!(
        plan_raw_to_physical(&raw, "cm_intp_missing", &m),
        Err(ConversionError::TableNotFound("nowhere".to_string()))
    );
    assert_eq!(plan_raw_to_physical(&raw, "cm_nointp_noref", &m), Err(ConversionError::InvalidInput));
    assert_eq!(plan_raw_to_physical(&raw, "cm_form", &m), Err(ConversionError::FormulaNotSupported));
}

#[test]
fn verbal_plans_select_tables() {
    let m = conversion_module();
    let raw = A2lValue::I32(-3);
    assert_eq!(plan_raw_to_string(&raw, "cm_verb", &m), Ok(Some(VerbalTable::Vtab(0))));
    assert_eq!(plan_raw_to_string(&raw, "cm_range", &m), Ok(Some(VerbalTable::VtabRange(0))));
    assert_eq!(plan_raw_to_string(&raw, "cm_lin", &m), Ok(None));
    assert_eq!(plan_raw_to_string(&raw, "cm_form", &m), Ok(None));
    assert_eq!(plan_raw_to_string(&raw, "cm_intp", &m), Ok(None));
    assert_eq!(
        plan_raw_to_string(&raw, "cm_verb_missing", &m),
        Err(ConversionError::TableNotFound("nowhere".to_string()))
    );
}

#[test]
fn conversion_error_texts() {
    assert_eq!(ConversionError::TableNotFound("t".to_string()).to_display_string(), "conversion table 't' not found");
    assert_eq!(ConversionError::InvalidInput.to_display_string(), "invalid input for conversion");
    assert_eq!(ConversionError::FormulaNotSupported.to_display_string(), "FORMULA conversion type not supported");
    assert_eq!(ConversionError::DivisionByZero.to_display_string(), "division by zero in RAT_FUNC");
}
