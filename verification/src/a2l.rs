//! The parts of an ASAP2 (A2L) module that value extraction reads.
//!
//! Each object keeps its name and the fields that cross-reference resolution,
//! data decoding and conversion look at. Floating-point fields (axis
//! parameters, conversion coefficients, table keys) are kept as their IEEE 754
//! binary64 bit patterns.
use vstd::prelude::*;
use crate::types::DataType;

verus! {

/// Type of a CHARACTERISTIC.
#[derive(Debug, Clone, Copy, PartialEq, Eq, Hash, Structural)]
pub enum CharacteristicType {
    Ascii,
    Curve,
    /// MAP (the name `Map` is taken by the prelude's map type).
    Map2D,
    Cuboid,
    Cube4,
    Cube5,
    ValBlk,
    Value,
}

/// Attribute of an AXIS_DESCR.
#[derive(Debug, Clone, Copy, PartialEq, Eq, Hash, Structural)]
pub enum AxisDescrAttribute {
    CurveAxis,
    ComAxis,
    FixAxis,
    ResAxis,
    StdAxis,
}

/// Storage order of function values in a record layout.
#[derive(Debug, Clone, Copy, PartialEq, Eq, Hash, Structural)]
pub enum IndexMode {
    AlternateCurves,
    AlternateWithX,
    AlternateWithY,
    ColumnDir,
    RowDir,
}

/// Type of a COMPU_METHOD.
#[derive(Debug, Clone, Copy, PartialEq, Eq, Hash, Structural)]
pub enum ConversionType {
    Identical,
    Form,
    Linear,
    RatFunc,
    TabIntp,
    TabNointp,
    TabVerb,
}

/// FIX_AXIS_PAR: offset and shift (binary64 bits) and number of points.
#[derive(Debug, Clone, Copy, PartialEq, Eq)]
pub struct FixAxisPar {
    pub offset: u64,
    pub shift: u64,
    pub number_apo: u16,
}

/// FIX_AXIS_PAR_DIST: offset and distance (binary64 bits) and number of
/// points.
#[derive(Debug, Clone, Copy, PartialEq, Eq)]
pub struct FixAxisParDist {
    pub offset: u64,
    pub distance: u64,
    pub number_apo: u16,
}

/// AXIS_DESCR of a CURVE or MAP.
#[derive(Debug)]
pub struct AxisDescr {
    pub attribute: AxisDescrAttribute,
    pub conversion: String,
    pub max_axis_points: u16,
    /// Name of the referenced AXIS_PTS (AXIS_PTS_REF).
    pub axis_pts_ref: Option<String>,
    pub fix_axis_par: Option<FixAxisPar>,
    pub fix_axis_par_dist: Option<FixAxisParDist>,
    /// FIX_AXIS_PAR_LIST breakpoints (binary64 bits).
    pub fix_axis_par_list: Option<Vec<u64>>,
}

/// CHARACTERISTIC.
#[derive(Debug)]
pub struct Characteristic {
    pub name: String,
    pub long_identifier: String,
    pub characteristic_type: CharacteristicType,
    pub address: u32,
    /// Name of the record layout.
    pub deposit: String,
    pub conversion: String,
    pub axis_descr: Vec<AxisDescr>,
    /// NUMBER (element count of VAL_BLK, length of ASCII).
    pub number: Option<u16>,
}

/// AXIS_PTS.
#[derive(Debug)]
pub struct AxisPts {
    pub name: String,
    pub address: u32,
    pub deposit_record: String,
    pub conversion: String,
    pub max_axis_points: u16,
}

/// FNC_VALUES of a record layout.
#[derive(Debug, Clone, Copy, PartialEq, Eq)]
pub struct FncValues {
    pub datatype: DataType,
    pub index_mode: IndexMode,
}

/// RECORD_LAYOUT.
#[derive(Debug)]
pub struct RecordLayout {
    pub name: String,
    pub fnc_values: Option<FncValues>,
    /// Data type of AXIS_PTS_X.
    pub axis_pts_x: Option<DataType>,
}

/// COEFFS of a RAT_FUNC conversion (binary64 bits).
#[derive(Debug, Clone, Copy, PartialEq, Eq)]
pub struct Coeffs {
    pub a: u64,
    pub b: u64,
    pub c: u64,
    pub d: u64,
    pub e: u64,
    pub f: u64,
}

/// COEFFS_LINEAR of a LINEAR conversion (binary64 bits).
#[derive(Debug, Clone, Copy, PartialEq, Eq)]
pub struct CoeffsLinear {
    pub a: u64,
    pub b: u64,
}

/// COMPU_METHOD.
#[derive(Debug)]
pub struct CompuMethod {
    pub name: String,
    pub conversion_type: ConversionType,
    pub unit: String,
    pub coeffs: Option<Coeffs>,
    pub coeffs_linear: Option<CoeffsLinear>,
    /// Name of the referenced conversion table (COMPU_TAB_REF).
    pub compu_tab_ref: Option<String>,
}

/// COMPU_TAB: pairs of input and output values (binary64 bits), in file
/// order.
#[derive(Debug)]
pub struct CompuTab {
    pub name: String,
    pub value_pairs: Vec<(u64, u64)>,
}

/// COMPU_VTAB: pairs of input value (binary64 bits) and label.
#[derive(Debug)]
pub struct CompuVtab {
    pub name: String,
    pub value_pairs: Vec<(u64, String)>,
    pub default_value: Option<String>,
}

/// COMPU_VTAB_RANGE: triples of input range (binary64 bits) and label.
#[derive(Debug)]
pub struct CompuVtabRange {
    pub name: String,
    pub value_triples: Vec<(u64, u64, String)>,
    pub default_value: Option<String>,
}

/// MEASUREMENT.
#[derive(Debug)]
pub struct Measurement {
    pub name: String,
    pub datatype: DataType,
    pub conversion: String,
    pub ecu_address: Option<u32>,
}

/// MODULE: the object lists, in file order.
#[derive(Debug)]
pub struct Module {
    pub characteristic: Vec<Characteristic>,
    pub axis_pts: Vec<AxisPts>,
    pub record_layout: Vec<RecordLayout>,
    pub compu_method: Vec<CompuMethod>,
    pub compu_tab: Vec<CompuTab>,
    pub compu_vtab: Vec<CompuVtab>,
    pub compu_vtab_range: Vec<CompuVtabRange>,
    pub measurement: Vec<Measurement>,
}

/// Objects that carry a name.
pub trait Named {
    spec fn spec_name(&self) -> Seq<char>;

    fn name(&self) -> (r: &String)
        ensures
            r@ == self.spec_name(),
    ;
}

impl Named for Characteristic {
    open spec fn spec_name(&self) -> Seq<char> {
        self.name@
    }

    fn name(&self) -> (r: &String) {
        &self.name
    }
}

impl Named for AxisPts {
    open spec fn spec_name(&self) -> Seq<char> {
        self.name@
    }

    fn name(&self) -> (r: &String) {
        &self.name
    }
}

impl Named for RecordLayout {
    open spec fn spec_name(&self) -> Seq<char> {
        self.name@
    }

    fn name(&self) -> (r: &String) {
        &self.name
    }
}

impl Named for CompuMethod {
    open spec fn spec_name(&self) -> Seq<char> {
        self.name@
    }

    fn name(&self) -> (r: &String) {
        &self.name
    }
}

impl Named for CompuVtab {
    open spec fn spec_name(&self) -> Seq<char> {
        self.name@
    }

    fn name(&self) -> (r: &String) {
        &self.name
    }
}

impl Named for CompuTab {
    open spec fn spec_name(&self) -> Seq<char> {
        self.name@
    }

    fn name(&self) -> (r: &String) {
        &self.name
    }
}

impl Named for CompuVtabRange {
    open spec fn spec_name(&self) -> Seq<char> {
        self.name@
    }

    fn name(&self) -> (r: &String) {
        &self.name
    }
}

impl Named for Measurement {
    open spec fn spec_name(&self) -> Seq<char> {
        self.name@
    }

    fn name(&self) -> (r: &String) {
        &self.name
    }
}

/// Index of the first object of the list with the given name, or -1.
pub open spec fn first_named<T: Named>(s: Seq<T>, name: Seq<char>) -> int
    decreases s.len(),
{
    if s.len() == 0 {
        -1
    } else if s[0].spec_name() == name {
        0
    } else if first_named(s.drop_first(), name) < 0 {
        -1
    } else {
        1 + first_named(s.drop_first(), name)
    }
}

/// Characterization of [`first_named`].
pub proof fn lemma_first_named<T: Named>(s: Seq<T>, name: Seq<char>)
    ensures
        -1 <= first_named(s, name) < s.len(),
        first_named(s, name) >= 0 ==> s[first_named(s, name)].spec_name() == name,
        forall|k: int| 0 <= k < s.len() && (first_named(s, name) < 0 || k < first_named(s, name)) ==> #[trigger] s[k].spec_name() != name,
    decreases s.len(),
{
    if s.len() > 0 && s[0].spec_name() != name {
        let t = s.drop_first();
        lemma_first_named(t, name);
        assert forall|k: int| 0 <= k < s.len() && (first_named(s, name) < 0 || k < first_named(s, name)) implies #[trigger] s[k].spec_name() != name by {
            if k > 0 {
                assert(t[k - 1] == s[k]);
            }
        }
    }
}

/// Finds the first object of the list with the given name.
pub fn find_named<T: Named>(v: &Vec<T>, name: &String) -> (r: Option<usize>)
    ensures
        match r {
            Some(i) => i == first_named(v@, name@) && i < v@.len() && v@[i as int].spec_name() == name@,
            None => first_named(v@, name@) == -1,
        },
{
    let mut k: usize = 0;
    proof {
        lemma_first_named(v@, name@);
    }
    while k < v.len()
        invariant
            k <= v@.len(),
            forall|j: int| 0 <= j < k ==> #[trigger] v@[j].spec_name() != name@,
            -1 <= first_named(v@, name@) < v@.len(),
            first_named(v@, name@) >= 0 ==> v@[first_named(v@, name@)].spec_name() == name@,
            forall|j: int| 0 <= j < v@.len() && (first_named(v@, name@) < 0 || j < first_named(v@, name@)) ==> #[trigger] v@[j].spec_name() != name@,
        decreases v@.len() - k,
    {
        let nm = v[k].name();
        if nm.eq(name) {
            return Some(k);
        }
        k = k + 1;
    }
    None
}

} // verus!
