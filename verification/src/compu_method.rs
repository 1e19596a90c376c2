//! COMPU_METHOD conversions: which conversion a method name selects in a
//! module, and the errors conversions report.
//!
//! The arithmetic of the conversions works on binary64 values and is done by
//! the caller; this module decides, from the module's objects alone, which
//! conversion applies and which error is due.
use vstd::prelude::*;
use crate::a2l::{find_named, first_named, lemma_first_named, Named, Coeffs, CoeffsLinear, ConversionType, Module};
use crate::text::{owned, push_str, str_eq};
use crate::types::{spec_is_numeric, A2lValue};

verus! {

/// Error type for COMPU_METHOD conversion failures.
#[derive(Debug, Clone, PartialEq)]
pub enum ConversionError {
    /// The COMPU_METHOD name was not found in the module.
    MethodNotFound(String),
    /// The referenced COMPU_TAB/COMPU_VTAB was not found.
    TableNotFound(String),
    /// The input value cannot be converted (e.g., non-numeric).
    InvalidInput,
    /// The FORMULA conversion type is not yet supported.
    FormulaNotSupported,
    /// Division by zero in RAT_FUNC computation.
    DivisionByZero,
    /// No matching entry in a TAB_VERB lookup (binary64 bits of the value).
    NoMatchingEntry(u64),
}

/// The model of a [`ConversionError`].
pub enum ConversionErrorView {
    MethodNotFound(Seq<char>),
    TableNotFound(Seq<char>),
    InvalidInput,
    FormulaNotSupported,
    DivisionByZero,
    NoMatchingEntry(u64),
}

impl View for ConversionError {
    type V = ConversionErrorView;

    open spec fn view(&self) -> ConversionErrorView {
        match self {
            ConversionError::MethodNotFound(n) => ConversionErrorView::MethodNotFound(n@),
            ConversionError::TableNotFound(n) => ConversionErrorView::TableNotFound(n@),
            ConversionError::InvalidInput => ConversionErrorView::InvalidInput,
            ConversionError::FormulaNotSupported => ConversionErrorView::FormulaNotSupported,
            ConversionError::DivisionByZero => ConversionErrorView::DivisionByZero,
            ConversionError::NoMatchingEntry(v) => ConversionErrorView::NoMatchingEntry(*v),
        }
    }
}

impl ConversionErrorView {
    /// Whether the message is plain text: every error but `NoMatchingEntry`,
    /// whose message renders a binary64 value.
    pub open spec fn has_text(self) -> bool {
        !(self is NoMatchingEntry)
    }

    /// The message of the error (for `NoMatchingEntry`, the text before the
    /// rendered value).
    pub open spec fn message(self) -> Seq<char> {
        match self {
            ConversionErrorView::MethodNotFound(n) => "COMPU_METHOD '"@ + n + "' not found"@,
            ConversionErrorView::TableNotFound(n) => "conversion table '"@ + n + "' not found"@,
            ConversionErrorView::InvalidInput => "invalid input for conversion"@,
            ConversionErrorView::FormulaNotSupported => "FORMULA conversion type not supported"@,
            ConversionErrorView::DivisionByZero => "division by zero in RAT_FUNC"@,
            ConversionErrorView::NoMatchingEntry(_) => "no matching entry for value "@,
        }
    }
}

impl ConversionError {
    /// Renders the error as text.
    pub fn to_display_string(&self) -> (r: String)
        requires
            self@.has_text(),
        ensures
            r@ == self@.message(),
    {
        let mut s = String::new();
        match self {
            ConversionError::MethodNotFound(n) => {
                push_str(&mut s, "COMPU_METHOD '");
                push_str(&mut s, n.as_str());
                push_str(&mut s, "' not found");
            },
            ConversionError::TableNotFound(n) => {
                push_str(&mut s, "conversion table '");
                push_str(&mut s, n.as_str());
                push_str(&mut s, "' not found");
            },
            ConversionError::InvalidInput => push_str(&mut s, "invalid input for conversion"),
            ConversionError::FormulaNotSupported => push_str(&mut s, "FORMULA conversion type not supported"),
            ConversionError::DivisionByZero => push_str(&mut s, "division by zero in RAT_FUNC"),
            ConversionError::NoMatchingEntry(_) => push_str(&mut s, "no matching entry for value "),
        }
        s
    }
}

// ========================================================================
// Selecting a conversion
// ========================================================================

/// A verbal table of the module, by its position in its list.
#[derive(Debug, Clone, Copy, PartialEq, Eq)]
pub enum VerbalTable {
    /// Position in `compu_vtab`.
    Vtab(usize),
    /// Position in `compu_vtab_range`.
    VtabRange(usize),
}

/// The numeric conversion that a COMPU_METHOD name selects.
#[derive(Debug, Clone, Copy, PartialEq, Eq)]
pub enum PhysicalPlan {
    /// The physical value is the raw value: NO_COMPU_METHOD, IDENTICAL, and
    /// TAB_NOINTP once its COMPU_TAB_REF is present (its table is not read).
    Raw,
    /// LINEAR: physical = a * raw + b.
    Linear(CoeffsLinear),
    /// RAT_FUNC with its coefficients.
    RatFunc(Coeffs),
    /// TAB_VERB: the raw value, provided the verbal table has an entry (or a
    /// default) for it.
    CheckedRaw(VerbalTable),
    /// TAB_INTP: linear interpolation in the COMPU_TAB at this position of
    /// `compu_tab`.
    Interpolate(usize),
}

/// The verbal table a COMPU_TAB_REF names: COMPU_VTAB first, then
/// COMPU_VTAB_RANGE.
pub open spec fn spec_verbal_table(m: Module, tab: Seq<char>) -> Option<VerbalTable> {
    let i = first_named(m.compu_vtab@, tab);
    let j = first_named(m.compu_vtab_range@, tab);
    if i >= 0 {
        Some(VerbalTable::Vtab(i as usize))
    } else if j >= 0 {
        Some(VerbalTable::VtabRange(j as usize))
    } else {
        None
    }
}

/// The conversion of a raw value to its numeric physical value.
pub open spec fn spec_physical_plan(raw: A2lValue, m: Module, name: Seq<char>) -> Result<PhysicalPlan, ConversionErrorView> {
    let ci = first_named(m.compu_method@, name);
    if !spec_is_numeric(raw) {
        Err(ConversionErrorView::InvalidInput)
    } else if name == "NO_COMPU_METHOD"@ {
        Ok(PhysicalPlan::Raw)
    } else if ci < 0 {
        Err(ConversionErrorView::MethodNotFound(name))
    } else {
        let cm = m.compu_method@[ci];
        match cm.conversion_type {
            ConversionType::Identical => Ok(PhysicalPlan::Raw),
            ConversionType::Linear => match cm.coeffs_linear {
                Some(c) => Ok(PhysicalPlan::Linear(c)),
                None => Err(ConversionErrorView::InvalidInput),
            },
            ConversionType::RatFunc => match cm.coeffs {
                Some(c) => Ok(PhysicalPlan::RatFunc(c)),
                None => Err(ConversionErrorView::InvalidInput),
            },
            ConversionType::TabVerb => match cm.compu_tab_ref {
                None => Err(ConversionErrorView::InvalidInput),
                Some(t) => match spec_verbal_table(m, t@) {
                    Some(v) => Ok(PhysicalPlan::CheckedRaw(v)),
                    None => Err(ConversionErrorView::TableNotFound(t@)),
                },
            },
            ConversionType::TabIntp => match cm.compu_tab_ref {
                None => Err(ConversionErrorView::InvalidInput),
                Some(t) => {
                    let j = first_named(m.compu_tab@, t@);
                    if j < 0 {
                        Err(ConversionErrorView::TableNotFound(t@))
                    } else {
                        Ok(PhysicalPlan::Interpolate(j as usize))
                    }
                },
            },
            ConversionType::TabNointp => match cm.compu_tab_ref {
                None => Err(ConversionErrorView::InvalidInput),
                Some(_) => Ok(PhysicalPlan::Raw),
            },
            ConversionType::Form => Err(ConversionErrorView::FormulaNotSupported),
        }
    }
}

/// The verbal table in which the label of a raw value is looked up, or
/// `None` for numeric conversions.
pub open spec fn spec_verbal_plan(raw: A2lValue, m: Module, name: Seq<char>) -> Result<Option<VerbalTable>, ConversionErrorView> {
    let ci = first_named(m.compu_method@, name);
    if !spec_is_numeric(raw) {
        Err(ConversionErrorView::InvalidInput)
    } else if name == "NO_COMPU_METHOD"@ {
        Ok(None)
    } else if ci < 0 {
        Err(ConversionErrorView::MethodNotFound(name))
    } else {
        let cm = m.compu_method@[ci];
        match cm.conversion_type {
            ConversionType::TabVerb => match cm.compu_tab_ref {
                None => Err(ConversionErrorView::InvalidInput),
                Some(t) => match spec_verbal_table(m, t@) {
                    Some(v) => Ok(Some(v)),
                    None => Err(ConversionErrorView::TableNotFound(t@)),
                },
            },
            _ => Ok(None),
        }
    }
}

/// The model of a plan result.
pub open spec fn plan_view<T>(r: Result<T, ConversionError>) -> Result<T, ConversionErrorView> {
    match r {
        Ok(p) => Ok(p),
        Err(e) => Err(e@),
    }
}

/// Finds the verbal table a COMPU_TAB_REF names.
fn find_verbal_table(module: &Module, tab: &String) -> (r: Option<VerbalTable>)
    ensures
        r == spec_verbal_table(*module, tab@),
{
    match find_named(&module.compu_vtab, tab) {
        Some(i) => Some(VerbalTable::Vtab(i)),
        None => match find_named(&module.compu_vtab_range, tab) {
            Some(j) => Some(VerbalTable::VtabRange(j)),
            None => None,
        },
    }
}

/// Selects the numeric conversion of a raw value by the named COMPU_METHOD
/// of the module ("NO_COMPU_METHOD" is the identity).
pub fn plan_raw_to_physical(raw: &A2lValue, compu_method_name: &str, module: &Module) -> (r: Result<
    PhysicalPlan,
    ConversionError,
>)
    ensures
        plan_view(r) == spec_physical_plan(*raw, *module, compu_method_name@),
{
    if !raw.is_numeric() {
        return Err(ConversionError::InvalidInput);
    }
    if str_eq(compu_method_name, "NO_COMPU_METHOD") {
        return Ok(PhysicalPlan::Raw);
    }
    let key = owned(compu_method_name);
    let ci = match find_named(&module.compu_method, &key) {
        None => return Err(ConversionError::MethodNotFound(key)),
        Some(i) => i,
    };
    let cm = &module.compu_method[ci];
    match cm.conversion_type {
        ConversionType::Identical => Ok(PhysicalPlan::Raw),
        ConversionType::Linear => match cm.coeffs_linear {
            Some(c) => Ok(PhysicalPlan::Linear(c)),
            None => Err(ConversionError::InvalidInput),
        },
        ConversionType::RatFunc => match cm.coeffs {
            Some(c) => Ok(PhysicalPlan::RatFunc(c)),
            None => Err(ConversionError::InvalidInput),
        },
        ConversionType::TabVerb => match &cm.compu_tab_ref {
            None => Err(ConversionError::InvalidInput),
            Some(t) => match find_verbal_table(module, t) {
                Some(v) => Ok(PhysicalPlan::CheckedRaw(v)),
                None => Err(ConversionError::TableNotFound(t.clone())),
            },
        },
        ConversionType::TabIntp => match &cm.compu_tab_ref {
            None => Err(ConversionError::InvalidInput),
            Some(t) => match find_named(&module.compu_tab, t) {
                None => Err(ConversionError::TableNotFound(t.clone())),
                Some(j) => Ok(PhysicalPlan::Interpolate(j)),
            },
        },
        ConversionType::TabNointp => match &cm.compu_tab_ref {
            None => Err(ConversionError::InvalidInput),
            Some(_) => Ok(PhysicalPlan::Raw),
        },
        ConversionType::Form => Err(ConversionError::FormulaNotSupported),
    }
}

/// Selects the verbal table in which the label of a raw value is looked up:
/// `Some` for TAB_VERB conversions, `None` for numeric conversions.
pub fn plan_raw_to_string(raw: &A2lValue, compu_method_name: &str, module: &Module) -> (r: Result<
    Option<VerbalTable>,
    ConversionError,
>)
    ensures
        plan_view(r) == spec_verbal_plan(*raw, *module, compu_method_name@),
{
    if !raw.is_numeric() {
        return Err(ConversionError::InvalidInput);
    }
    if str_eq(compu_method_name, "NO_COMPU_METHOD") {
        return Ok(None);
    }
    let key = owned(compu_method_name);
    let ci = match find_named(&module.compu_method, &key) {
        None => return Err(ConversionError::MethodNotFound(key)),
        Some(i) => i,
    };
    let cm = &module.compu_method[ci];
    match cm.conversion_type {
        ConversionType::TabVerb => match &cm.compu_tab_ref {
            None => Err(ConversionError::InvalidInput),
            Some(t) => match find_verbal_table(module, t) {
                Some(v) => Ok(Some(v)),
                None => Err(ConversionError::TableNotFound(t.clone())),
            },
        },
        _ => Ok(None),
    }
}

// ========================================================================
// Laws
// ========================================================================

/// The verbal and the numeric selection agree: a label is looked up exactly
/// when the numeric conversion checks the same table, and an error of the
/// verbal selection is the error of the numeric one.
pub proof fn lemma_verbal_and_numeric_agree(raw: A2lValue, m: Module, name: Seq<char>)
    ensures
        forall|v: VerbalTable|
            spec_verbal_plan(raw, m, name) == Ok::<Option<VerbalTable>, ConversionErrorView>(Some(v)) <==> spec_physical_plan(
                raw,
                m,
                name,
            ) == Ok::<PhysicalPlan, ConversionErrorView>(PhysicalPlan::CheckedRaw(v)),
        spec_verbal_plan(raw, m, name) matches Err(e) ==> spec_physical_plan(raw, m, name) == Err::<
            PhysicalPlan,
            ConversionErrorView,
        >(e),
{
}

/// "NO_COMPU_METHOD" is the identity, whatever the module holds: a numeric
/// raw value converts to itself and has no label.
pub proof fn lemma_no_compu_method_is_identity(raw: A2lValue, m: Module)
    requires
        spec_is_numeric(raw),
    ensures
        spec_physical_plan(raw, m, "NO_COMPU_METHOD"@) == Ok::<PhysicalPlan, ConversionErrorView>(PhysicalPlan::Raw),
        spec_verbal_plan(raw, m, "NO_COMPU_METHOD"@) == Ok::<Option<VerbalTable>, ConversionErrorView>(None),
{
}

/// Non-numeric values (strings, arrays) cannot be converted.
pub proof fn lemma_non_numeric_is_invalid(raw: A2lValue, m: Module, name: Seq<char>)
    requires
        !spec_is_numeric(raw),
    ensures
        spec_physical_plan(raw, m, name) == Err::<PhysicalPlan, ConversionErrorView>(ConversionErrorView::InvalidInput),
        spec_verbal_plan(raw, m, name) == Err::<Option<VerbalTable>, ConversionErrorView>(ConversionErrorView::InvalidInput),
{
}


/// A method found under the requested name (the first one of that name)
/// selects its own conversion with its own parameters: RAT_FUNC hands on
/// exactly its six COEFFS, LINEAR exactly its COEFFS_LINEAR, IDENTICAL the
/// raw value, and TAB_INTP the first COMPU_TAB its COMPU_TAB_REF names.
pub proof fn lemma_method_parameters_are_handed_on(raw: A2lValue, m: Module, name: Seq<char>, i: int)
    requires
        spec_is_numeric(raw),
        name != "NO_COMPU_METHOD"@,
        0 <= i < m.compu_method@.len(),
        m.compu_method@[i].name@ == name,
        forall|k: int| 0 <= k < i ==> #[trigger] m.compu_method@[k].name@ != name,
    ensures
        m.compu_method@[i].conversion_type == ConversionType::RatFunc ==> forall|c: Coeffs|
            m.compu_method@[i].coeffs == Some(c) ==> spec_physical_plan(raw, m, name) == Ok::<
                PhysicalPlan,
                ConversionErrorView,
            >(PhysicalPlan::RatFunc(c)),
        m.compu_method@[i].conversion_type == ConversionType::Linear ==> forall|c: CoeffsLinear|
            m.compu_method@[i].coeffs_linear == Some(c) ==> spec_physical_plan(raw, m, name) == Ok::<
                PhysicalPlan,
                ConversionErrorView,
            >(PhysicalPlan::Linear(c)),
        m.compu_method@[i].conversion_type == ConversionType::Identical ==> spec_physical_plan(raw, m, name) == Ok::<
            PhysicalPlan,
            ConversionErrorView,
        >(PhysicalPlan::Raw),
        m.compu_method@[i].conversion_type == ConversionType::TabIntp ==> forall|j: int|
            m.compu_method@[i].compu_tab_ref is Some && 0 <= j < m.compu_tab@.len()
                && m.compu_tab@[j].name@ == m.compu_method@[i].compu_tab_ref->0@
                && (forall|k: int| 0 <= k < j ==> #[trigger] m.compu_tab@[k].name@ != m.compu_method@[i].compu_tab_ref->0@)
                ==> spec_physical_plan(raw, m, name) == Ok::<PhysicalPlan, ConversionErrorView>(
                PhysicalPlan::Interpolate(j as usize),
            ),
{
    lemma_first_named(m.compu_method@, name);
    assert(first_named(m.compu_method@, name) == i) by {
        let f = first_named(m.compu_method@, name);
        if f < 0 || f > i {
            assert(m.compu_method@[i].spec_name() != name);
        } else if f < i {
            assert(m.compu_method@[f].name@ != name);
        }
    }
    if m.compu_method@[i].compu_tab_ref is Some {
        let t = m.compu_method@[i].compu_tab_ref->0@;
        lemma_first_named(m.compu_tab@, t);
        assert forall|j: int|
            0 <= j < m.compu_tab@.len() && m.compu_tab@[j].name@ == t
                && (forall|k: int| 0 <= k < j ==> #[trigger] m.compu_tab@[k].name@ != t)
            implies first_named(m.compu_tab@, t) == j by {
            let f = first_named(m.compu_tab@, t);
            if f < 0 || f > j {
                assert(m.compu_tab@[j].spec_name() != t);
            } else if f < j {
                assert(m.compu_tab@[f].name@ != t);
            }
        }
    }
}

} // verus!
