//! A2L object resolver: resolves cross-references in an A2L module to produce
//! fully-resolved descriptions of VALUE, CURVE, MAP, VAL_BLK and ASCII
//! characteristics and of measurements.
//!
//! This module walks the reference graph:
//!   Characteristic -> AxisDescr -> AxisPts
//!                  -> RecordLayout
//!                  -> CompuMethod (for the unit)
//!
//! It does not read binary data from HEX files. It resolves the metadata so
//! that a binary reader knows exactly what to extract.
use vstd::prelude::*;
use crate::a2l::{
    find_named, first_named, lemma_first_named, AxisDescr, AxisDescrAttribute, Characteristic,
    CharacteristicType, IndexMode, Measurement, Module, Named, RecordLayout,
};
use crate::compu_method::{ConversionError, ConversionErrorView};
use crate::hex_reader::HexMemory;
use crate::text::{decimal, owned, push_decimal, push_str, str_eq};
use crate::types::{A2lValue, DataType};

verus! {

/// The model of a result, each side by its view.
pub open spec fn rview<T: View, E: View>(r: Result<T, E>) -> Result<T::V, E::V> {
    match r {
        Ok(v) => Ok(v@),
        Err(e) => Err(e@),
    }
}

// ========================================================================
// Error types
// ========================================================================

/// Errors that can occur during A2L reference resolution.
#[derive(Debug, Clone, PartialEq)]
pub enum ResolveError {
    /// A named object was not found in the module.
    NotFound { kind: &'static str, name: String },
    /// A characteristic has an unexpected type for the requested operation.
    /// `actual` names what was found: the characteristic type when
    /// resolution refuses it, or the kind of the resolved characteristic
    /// ("Value", "Curve", "Map", "ValBlk", "Ascii") when an extraction asked
    /// for another kind. The kind stands in place of a debug dump of the
    /// whole resolved value, whose text depends on derived formatting that
    /// the contracts cannot state.
    WrongType { name: String, expected: &'static str, actual: String },
    /// An axis descriptor is missing required information.
    IncompleteAxis { characteristic: String, detail: String },
    /// A conversion error occurred during resolution.
    Conversion(ConversionError),
    /// A measurement lives in RAM and has no value in a flash image.
    MeasurementIsRam { name: String },
}

/// The model of a [`ResolveError`].
pub enum ResolveErrorView {
    NotFound { kind: Seq<char>, name: Seq<char> },
    WrongType { name: Seq<char>, expected: Seq<char>, actual: Seq<char> },
    IncompleteAxis { characteristic: Seq<char>, detail: Seq<char> },
    Conversion(ConversionErrorView),
    MeasurementIsRam { name: Seq<char> },
}

impl View for ResolveError {
    type V = ResolveErrorView;

    open spec fn view(&self) -> ResolveErrorView {
        match self {
            ResolveError::NotFound { kind, name } => ResolveErrorView::NotFound { kind: kind@, name: name@ },
            ResolveError::WrongType { name, expected, actual } => ResolveErrorView::WrongType {
                name: name@,
                expected: expected@,
                actual: actual@,
            },
            ResolveError::IncompleteAxis { characteristic, detail } => ResolveErrorView::IncompleteAxis {
                characteristic: characteristic@,
                detail: detail@,
            },
            ResolveError::Conversion(e) => ResolveErrorView::Conversion(e@),
            ResolveError::MeasurementIsRam { name } => ResolveErrorView::MeasurementIsRam { name: name@ },
        }
    }
}

impl ResolveErrorView {
    /// Whether the message is plain text (see [`ConversionErrorView::has_text`]).
    pub open spec fn has_text(self) -> bool {
        match self {
            ResolveErrorView::Conversion(e) => e.has_text(),
            _ => true,
        }
    }

    /// The message of the error.
    pub open spec fn message(self) -> Seq<char> {
        match self {
            ResolveErrorView::NotFound { kind, name } => kind + " '"@ + name + "' not found"@,
            ResolveErrorView::WrongType { name, expected, actual } => "'"@ + name + "' is "@ + actual
                + ", expected "@ + expected,
            ResolveErrorView::IncompleteAxis { characteristic, detail } => "incomplete axis on '"@
                + characteristic + "': "@ + detail,
            ResolveErrorView::Conversion(e) => "conversion error: "@ + e.message(),
            ResolveErrorView::MeasurementIsRam { name } => "measurement '"@ + name
                + "' is a RAM variable and cannot be read from HEX data"@,
        }
    }
}

impl ResolveError {
    /// Renders the error as text.
    pub fn to_display_string(&self) -> (r: String)
        requires
            self@.has_text(),
        ensures
            r@ == self@.message(),
    {
        let mut s = String::new();
        match self {
            ResolveError::NotFound { kind, name } => {
                push_str(&mut s, kind);
                push_str(&mut s, " '");
                push_str(&mut s, name.as_str());
                push_str(&mut s, "' not found");
            },
            ResolveError::WrongType { name, expected, actual } => {
                push_str(&mut s, "'");
                push_str(&mut s, name.as_str());
                push_str(&mut s, "' is ");
                push_str(&mut s, actual.as_str());
                push_str(&mut s, ", expected ");
                push_str(&mut s, expected);
            },
            ResolveError::IncompleteAxis { characteristic, detail } => {
                push_str(&mut s, "incomplete axis on '");
                push_str(&mut s, characteristic.as_str());
                push_str(&mut s, "': ");
                push_str(&mut s, detail.as_str());
            },
            ResolveError::Conversion(e) => {
                push_str(&mut s, "conversion error: ");
                let t = e.to_display_string();
                push_str(&mut s, t.as_str());
            },
            ResolveError::MeasurementIsRam { name } => {
                push_str(&mut s, "measurement '");
                push_str(&mut s, name.as_str());
                push_str(&mut s, "' is a RAM variable and cannot be read from HEX data");
            },
        }
        s
    }
}

impl From<ConversionError> for ResolveError {
    fn from(e: ConversionError) -> (r: ResolveError) {
        ResolveError::Conversion(e)
    }
}

impl vstd::std_specs::convert::FromSpecImpl<ConversionError> for ResolveError {
    open spec fn obeys_from_spec() -> bool {
        true
    }

    open spec fn from_spec(e: ConversionError) -> ResolveError {
        ResolveError::Conversion(e)
    }
}

// ========================================================================
// Resolved data structures
// ========================================================================

/// Describes how an axis's breakpoints are defined.
#[derive(Debug, Clone, PartialEq)]
pub enum AxisSource {
    /// FIX_AXIS_PAR: computed from offset + shift * index (binary64 bits).
    FixAxisPar { offset: u64, shift: u64, count: u16 },
    /// FIX_AXIS_PAR_LIST: explicit list of breakpoints (binary64 bits).
    FixAxisParList { values: Vec<u64> },
    /// FIX_AXIS_PAR_DIST: computed from offset + distance * index (binary64
    /// bits).
    FixAxisParDist { offset: u64, distance: u64, count: u16 },
    /// COM_AXIS: axis breakpoints come from a separate AXIS_PTS object.
    ComAxis { axis_pts_name: String, axis_pts_address: u32, max_axis_points: u16, deposit_name: String },
    /// STD_AXIS: axis breakpoints are embedded in the characteristic's record.
    StdAxis { max_axis_points: u16 },
}

/// The model of an [`AxisSource`].
pub enum AxisSourceView {
    FixAxisPar { offset: u64, shift: u64, count: u16 },
    FixAxisParList { values: Seq<u64> },
    FixAxisParDist { offset: u64, distance: u64, count: u16 },
    ComAxis { axis_pts_name: Seq<char>, axis_pts_address: u32, max_axis_points: u16, deposit_name: Seq<char> },
    StdAxis { max_axis_points: u16 },
}

impl View for AxisSource {
    type V = AxisSourceView;

    open spec fn view(&self) -> AxisSourceView {
        match self {
            AxisSource::FixAxisPar { offset, shift, count } => AxisSourceView::FixAxisPar {
                offset: *offset,
                shift: *shift,
                count: *count,
            },
            AxisSource::FixAxisParList { values } => AxisSourceView::FixAxisParList { values: values@ },
            AxisSource::FixAxisParDist { offset, distance, count } => AxisSourceView::FixAxisParDist {
                offset: *offset,
                distance: *distance,
                count: *count,
            },
            AxisSource::ComAxis { axis_pts_name, axis_pts_address, max_axis_points, deposit_name } =>
                AxisSourceView::ComAxis {
                axis_pts_name: axis_pts_name@,
                axis_pts_address: *axis_pts_address,
                max_axis_points: *max_axis_points,
                deposit_name: deposit_name@,
            },
            AxisSource::StdAxis { max_axis_points } => AxisSourceView::StdAxis { max_axis_points: *max_axis_points },
        }
    }
}

/// Fully resolved axis information for a CURVE or MAP characteristic.
#[derive(Debug, Clone, PartialEq)]
pub struct ResolvedAxis {
    /// Axis attribute (X, Y, etc.)
    pub attribute: AxisDescrAttribute,
    /// Conversion method name (or "NO_COMPU_METHOD").
    pub conversion: String,
    /// Physical unit string.
    pub unit: String,
    /// Maximum number of axis points.
    pub max_axis_points: u16,
    /// How the axis breakpoints are sourced.
    pub source: AxisSource,
}

/// The model of a [`ResolvedAxis`].
pub struct ResolvedAxisView {
    pub attribute: AxisDescrAttribute,
    pub conversion: Seq<char>,
    pub unit: Seq<char>,
    pub max_axis_points: u16,
    pub source: AxisSourceView,
}

impl View for ResolvedAxis {
    type V = ResolvedAxisView;

    open spec fn view(&self) -> ResolvedAxisView {
        ResolvedAxisView {
            attribute: self.attribute,
            conversion: self.conversion@,
            unit: self.unit@,
            max_axis_points: self.max_axis_points,
            source: self.source@,
        }
    }
}

/// Record layout summary relevant to data extraction.
#[derive(Debug, Clone, PartialEq)]
pub struct ResolvedLayout {
    pub name: String,
    pub fnc_values_datatype: Option<DataType>,
    pub index_mode: Option<IndexMode>,
}

/// The model of a [`ResolvedLayout`].
pub struct ResolvedLayoutView {
    pub name: Seq<char>,
    pub fnc_values_datatype: Option<DataType>,
    pub index_mode: Option<IndexMode>,
}

impl View for ResolvedLayout {
    type V = ResolvedLayoutView;

    open spec fn view(&self) -> ResolvedLayoutView {
        ResolvedLayoutView {
            name: self.name@,
            fnc_values_datatype: self.fnc_values_datatype,
            index_mode: self.index_mode,
        }
    }
}

/// Fully resolved VALUE (scalar calibration) metadata.
#[derive(Debug, Clone, PartialEq)]
pub struct ResolvedValue {
    pub name: String,
    pub long_identifier: String,
    pub address: u32,
    pub conversion: String,
    pub unit: String,
    pub layout: ResolvedLayout,
}

/// Fully resolved CURVE (1D lookup table) metadata.
#[derive(Debug, Clone, PartialEq)]
pub struct ResolvedCurve {
    pub name: String,
    pub long_identifier: String,
    pub address: u32,
    pub conversion: String,
    pub unit: String,
    pub layout: ResolvedLayout,
    pub x_axis: ResolvedAxis,
}

/// Fully resolved MAP (2D lookup table) metadata.
#[derive(Debug, Clone, PartialEq)]
pub struct ResolvedMap {
    pub name: String,
    pub long_identifier: String,
    pub address: u32,
    pub conversion: String,
    pub unit: String,
    pub layout: ResolvedLayout,
    pub x_axis: ResolvedAxis,
    pub y_axis: ResolvedAxis,
}

/// Fully resolved VAL_BLK (array of calibration values) metadata.
#[derive(Debug, Clone, PartialEq)]
pub struct ResolvedValBlk {
    pub name: String,
    pub long_identifier: String,
    pub address: u32,
    pub conversion: String,
    pub unit: String,
    pub layout: ResolvedLayout,
    /// Number of elements (NUMBER, 1 when absent).
    pub count: u16,
}

/// Fully resolved ASCII (string) metadata.
#[derive(Debug, Clone, PartialEq)]
pub struct ResolvedAscii {
    pub name: String,
    pub long_identifier: String,
    pub address: u32,
    /// String length in bytes (NUMBER, 0 when absent).
    pub length: u16,
}

/// The model of the fields that resolved characteristics share; also the
/// model of a [`ResolvedValue`].
pub struct ResolvedHeaderView {
    pub name: Seq<char>,
    pub long_identifier: Seq<char>,
    pub address: u32,
    pub conversion: Seq<char>,
    pub unit: Seq<char>,
    pub layout: ResolvedLayoutView,
}

impl View for ResolvedValue {
    type V = ResolvedHeaderView;

    open spec fn view(&self) -> ResolvedHeaderView {
        ResolvedHeaderView {
            name: self.name@,
            long_identifier: self.long_identifier@,
            address: self.address,
            conversion: self.conversion@,
            unit: self.unit@,
            layout: self.layout@,
        }
    }
}

/// The model of a [`ResolvedCurve`].
pub struct ResolvedCurveView {
    pub header: ResolvedHeaderView,
    pub x_axis: ResolvedAxisView,
}

impl View for ResolvedCurve {
    type V = ResolvedCurveView;

    open spec fn view(&self) -> ResolvedCurveView {
        ResolvedCurveView {
            header: ResolvedHeaderView {
                name: self.name@,
                long_identifier: self.long_identifier@,
                address: self.address,
                conversion: self.conversion@,
                unit: self.unit@,
                layout: self.layout@,
            },
            x_axis: self.x_axis@,
        }
    }
}

/// The model of a [`ResolvedMap`].
pub struct ResolvedMapView {
    pub header: ResolvedHeaderView,
    pub x_axis: ResolvedAxisView,
    pub y_axis: ResolvedAxisView,
}

impl View for ResolvedMap {
    type V = ResolvedMapView;

    open spec fn view(&self) -> ResolvedMapView {
        ResolvedMapView {
            header: ResolvedHeaderView {
                name: self.name@,
                long_identifier: self.long_identifier@,
                address: self.address,
                conversion: self.conversion@,
                unit: self.unit@,
                layout: self.layout@,
            },
            x_axis: self.x_axis@,
            y_axis: self.y_axis@,
        }
    }
}

/// The model of a [`ResolvedValBlk`].
pub struct ResolvedValBlkView {
    pub header: ResolvedHeaderView,
    pub count: u16,
}

impl View for ResolvedValBlk {
    type V = ResolvedValBlkView;

    open spec fn view(&self) -> ResolvedValBlkView {
        ResolvedValBlkView {
            header: ResolvedHeaderView {
                name: self.name@,
                long_identifier: self.long_identifier@,
                address: self.address,
                conversion: self.conversion@,
                unit: self.unit@,
                layout: self.layout@,
            },
            count: self.count,
        }
    }
}

/// The model of a [`ResolvedAscii`].
pub struct ResolvedAsciiView {
    pub name: Seq<char>,
    pub long_identifier: Seq<char>,
    pub address: u32,
    pub length: u16,
}

impl View for ResolvedAscii {
    type V = ResolvedAsciiView;

    open spec fn view(&self) -> ResolvedAsciiView {
        ResolvedAsciiView {
            name: self.name@,
            long_identifier: self.long_identifier@,
            address: self.address,
            length: self.length,
        }
    }
}

/// Unified resolved characteristic.
#[derive(Debug, Clone, PartialEq)]
pub enum ResolvedCharacteristic {
    Value(ResolvedValue),
    Curve(ResolvedCurve),
    /// A MAP characteristic.
    Map2D(ResolvedMap),
    ValBlk(ResolvedValBlk),
    Ascii(ResolvedAscii),
}

/// The model of a [`ResolvedCharacteristic`].
pub enum ResolvedCharacteristicView {
    Value(ResolvedHeaderView),
    Curve(ResolvedCurveView),
    Map2D(ResolvedMapView),
    ValBlk(ResolvedValBlkView),
    Ascii(ResolvedAsciiView),
}

impl View for ResolvedCharacteristic {
    type V = ResolvedCharacteristicView;

    open spec fn view(&self) -> ResolvedCharacteristicView {
        match self {
            ResolvedCharacteristic::Value(v) => ResolvedCharacteristicView::Value(v@),
            ResolvedCharacteristic::Curve(c) => ResolvedCharacteristicView::Curve(c@),
            ResolvedCharacteristic::Map2D(m) => ResolvedCharacteristicView::Map2D(m@),
            ResolvedCharacteristic::ValBlk(b) => ResolvedCharacteristicView::ValBlk(b@),
            ResolvedCharacteristic::Ascii(a) => ResolvedCharacteristicView::Ascii(a@),
        }
    }
}

/// Fully resolved MEASUREMENT metadata.
#[derive(Debug, Clone, PartialEq)]
pub struct ResolvedMeasurement {
    pub name: String,
    pub datatype: DataType,
    pub conversion: String,
    pub unit: String,
    pub ecu_address: Option<u32>,
}

/// The model of a [`ResolvedMeasurement`].
pub struct ResolvedMeasurementView {
    pub name: Seq<char>,
    pub datatype: DataType,
    pub conversion: Seq<char>,
    pub unit: Seq<char>,
    pub ecu_address: Option<u32>,
}

impl View for ResolvedMeasurement {
    type V = ResolvedMeasurementView;

    open spec fn view(&self) -> ResolvedMeasurementView {
        ResolvedMeasurementView {
            name: self.name@,
            datatype: self.datatype,
            conversion: self.conversion@,
            unit: self.unit@,
            ecu_address: self.ecu_address,
        }
    }
}

impl ResolvedMeasurement {
    /// Measurements are RAM variables: their values are never part of a flash
    /// image.
    pub fn is_ram(&self) -> (r: bool)
        ensures
            r,
    {
        true
    }
}

// ========================================================================
// What resolution gives, in terms of the module
// ========================================================================

/// The resolved summary of a record layout.
pub open spec fn layout_view(rl: RecordLayout) -> ResolvedLayoutView {
    ResolvedLayoutView {
        name: rl.name@,
        fnc_values_datatype: match rl.fnc_values {
            Some(f) => Some(f.datatype),
            None => None,
        },
        index_mode: match rl.fnc_values {
            Some(f) => Some(f.index_mode),
            None => None,
        },
    }
}

/// Resolution of a record layout by name.
pub open spec fn spec_resolve_layout(m: Module, name: Seq<char>) -> Result<ResolvedLayoutView, ResolveErrorView> {
    let i = first_named(m.record_layout@, name);
    if i < 0 {
        Err(ResolveErrorView::NotFound { kind: "RecordLayout"@, name })
    } else {
        Ok(layout_view(m.record_layout@[i]))
    }
}

/// The physical unit of a conversion method name: empty for
/// "NO_COMPU_METHOD" and for names the module does not hold.
pub open spec fn spec_lookup_unit(m: Module, cm: Seq<char>) -> Seq<char> {
    let i = first_named(m.compu_method@, cm);
    if cm == "NO_COMPU_METHOD"@ || i < 0 {
        Seq::empty()
    } else {
        m.compu_method@[i].unit@
    }
}

/// The source of an axis: FIX_AXIS_PAR first, then FIX_AXIS_PAR_LIST, then
/// FIX_AXIS_PAR_DIST, then the referenced AXIS_PTS (COM_AXIS), else the axis
/// is in the record (STD_AXIS).
pub open spec fn spec_axis_source(m: Module, ad: AxisDescr) -> Result<AxisSourceView, ResolveErrorView> {
    if let Some(p) = ad.fix_axis_par {
        Ok(AxisSourceView::FixAxisPar { offset: p.offset, shift: p.shift, count: p.number_apo })
    } else if let Some(l) = ad.fix_axis_par_list {
        Ok(AxisSourceView::FixAxisParList { values: l@ })
    } else if let Some(p) = ad.fix_axis_par_dist {
        Ok(AxisSourceView::FixAxisParDist { offset: p.offset, distance: p.distance, count: p.number_apo })
    } else if let Some(r) = ad.axis_pts_ref {
        let i = first_named(m.axis_pts@, r@);
        if i < 0 {
            Err(ResolveErrorView::NotFound { kind: "AxisPts"@, name: r@ })
        } else {
            let ap = m.axis_pts@[i];
            Ok(
                AxisSourceView::ComAxis {
                    axis_pts_name: ap.name@,
                    axis_pts_address: ap.address,
                    max_axis_points: ap.max_axis_points,
                    deposit_name: ap.deposit_record@,
                },
            )
        }
    } else {
        Ok(AxisSourceView::StdAxis { max_axis_points: ad.max_axis_points })
    }
}

/// Detail of the error for a missing axis descriptor.
pub open spec fn missing_axis_detail(index: nat) -> Seq<char> {
    "missing axis descriptor at index "@ + decimal(index)
}

/// Resolution of the axis descriptor at `index` (0 = X, 1 = Y).
pub open spec fn spec_resolve_axis(m: Module, char_name: Seq<char>, descrs: Seq<AxisDescr>, index: nat) -> Result<
    ResolvedAxisView,
    ResolveErrorView,
> {
    if index >= descrs.len() {
        Err(ResolveErrorView::IncompleteAxis { characteristic: char_name, detail: missing_axis_detail(index) })
    } else {
        let ad = descrs[index as int];
        match spec_axis_source(m, ad) {
            Err(e) => Err(e),
            Ok(source) => Ok(
                ResolvedAxisView {
                    attribute: ad.attribute,
                    conversion: ad.conversion@,
                    unit: spec_lookup_unit(m, ad.conversion@),
                    max_axis_points: ad.max_axis_points,
                    source,
                },
            ),
        }
    }
}

/// The name under which a characteristic type is reported.
pub open spec fn char_type_label(t: CharacteristicType) -> Seq<char> {
    match t {
        CharacteristicType::Ascii => "Ascii"@,
        CharacteristicType::Curve => "Curve"@,
        CharacteristicType::Map2D => "Map"@,
        CharacteristicType::Cuboid => "Cuboid"@,
        CharacteristicType::Cube4 => "Cube4"@,
        CharacteristicType::Cube5 => "Cube5"@,
        CharacteristicType::ValBlk => "ValBlk"@,
        CharacteristicType::Value => "Value"@,
    }
}

/// Resolution of a characteristic by name: the first characteristic of that
/// name, its record layout and unit, and the axes its type needs.
pub open spec fn spec_resolve_characteristic(m: Module, name: Seq<char>) -> Result<
    ResolvedCharacteristicView,
    ResolveErrorView,
> {
    let ci = first_named(m.characteristic@, name);
    if ci < 0 {
        Err(ResolveErrorView::NotFound { kind: "Characteristic"@, name })
    } else {
        let ch = m.characteristic@[ci];
        match spec_resolve_layout(m, ch.deposit@) {
            Err(e) => Err(e),
            Ok(layout) => {
                let header = ResolvedHeaderView {
                    name: ch.name@,
                    long_identifier: ch.long_identifier@,
                    address: ch.address,
                    conversion: ch.conversion@,
                    unit: spec_lookup_unit(m, ch.conversion@),
                    layout,
                };
                match ch.characteristic_type {
                    CharacteristicType::Value => Ok(ResolvedCharacteristicView::Value(header)),
                    CharacteristicType::ValBlk => Ok(
                        ResolvedCharacteristicView::ValBlk(
                            ResolvedValBlkView {
                                header,
                                count: match ch.number {
                                    Some(n) => n,
                                    None => 1,
                                },
                            },
                        ),
                    ),
                    CharacteristicType::Ascii => Ok(
                        ResolvedCharacteristicView::Ascii(
                            ResolvedAsciiView {
                                name: ch.name@,
                                long_identifier: ch.long_identifier@,
                                address: ch.address,
                                length: match ch.number {
                                    Some(n) => n,
                                    None => 0,
                                },
                            },
                        ),
                    ),
                    CharacteristicType::Curve => match spec_resolve_axis(m, ch.name@, ch.axis_descr@, 0) {
                        Err(e) => Err(e),
                        Ok(x_axis) => Ok(ResolvedCharacteristicView::Curve(ResolvedCurveView { header, x_axis })),
                    },
                    CharacteristicType::Map2D => match spec_resolve_axis(m, ch.name@, ch.axis_descr@, 0) {
                        Err(e) => Err(e),
                        Ok(x_axis) => match spec_resolve_axis(m, ch.name@, ch.axis_descr@, 1) {
                            Err(e) => Err(e),
                            Ok(y_axis) => Ok(ResolvedCharacteristicView::Map2D(ResolvedMapView { header, x_axis, y_axis })),
                        },
                    },
                    _ => Err(
                        ResolveErrorView::WrongType {
                            name,
                            expected: "Value, Curve, Map, or Ascii"@,
                            actual: char_type_label(ch.characteristic_type),
                        },
                    ),
                }
            },
        }
    }
}

/// Resolution of a measurement by name.
pub open spec fn spec_resolve_measurement(m: Module, name: Seq<char>) -> Result<
    ResolvedMeasurementView,
    ResolveErrorView,
> {
    let i = first_named(m.measurement@, name);
    if i < 0 {
        Err(ResolveErrorView::NotFound { kind: "Measurement"@, name })
    } else {
        let me = m.measurement@[i];
        Ok(
            ResolvedMeasurementView {
                name: me.name@,
                datatype: me.datatype,
                conversion: me.conversion@,
                unit: spec_lookup_unit(m, me.conversion@),
                ecu_address: me.ecu_address,
            },
        )
    }
}

/// The positions, in order, of the characteristics of type `t` among the
/// first `n` characteristics.
pub open spec fn positions_of_type(s: Seq<Characteristic>, t: CharacteristicType, n: nat) -> Seq<int>
    decreases n,
{
    if n == 0 || n > s.len() {
        Seq::empty()
    } else if s[n - 1].characteristic_type == t {
        positions_of_type(s, t, (n - 1) as nat).push(n - 1)
    } else {
        positions_of_type(s, t, (n - 1) as nat)
    }
}

/// The curve side of a resolution result.
pub open spec fn curve_of(r: Result<ResolvedCharacteristicView, ResolveErrorView>) -> Result<
    ResolvedCurveView,
    ResolveErrorView,
> {
    match r {
        Ok(ResolvedCharacteristicView::Curve(c)) => Ok(c),
        Err(e) => Err(e),
        Ok(_) => Err(ResolveErrorView::WrongType { name: Seq::empty(), expected: "Curve"@, actual: Seq::empty() }),
    }
}

/// The map side of a resolution result.
pub open spec fn map_of(r: Result<ResolvedCharacteristicView, ResolveErrorView>) -> Result<
    ResolvedMapView,
    ResolveErrorView,
> {
    match r {
        Ok(ResolvedCharacteristicView::Map2D(m)) => Ok(m),
        Err(e) => Err(e),
        Ok(_) => Err(ResolveErrorView::WrongType { name: Seq::empty(), expected: "Map"@, actual: Seq::empty() }),
    }
}

/// The characteristic at `k`, when of type `t`, either fails to resolve by
/// its name or resolves to the kind of `t`.
pub open spec fn name_resolves_as(m: Module, k: int, t: CharacteristicType) -> bool {
    let s = m.characteristic@;
    s[k].characteristic_type == t ==> match spec_resolve_characteristic(m, s[k].name@) {
        Ok(r) => kind_matches(r, t),
        Err(_) => true,
    }
}

/// Every characteristic of type `t` either fails to resolve by its name or
/// resolves to the kind of `t` (no earlier characteristic of another type
/// with the same name resolves in its place).
pub open spec fn names_resolve_as(m: Module, t: CharacteristicType) -> bool {
    forall|k: int| 0 <= k < m.characteristic@.len() ==> #[trigger] name_resolves_as(m, k, t)
}

/// A copy of a list of binary64 bit patterns.
pub(crate) fn copy_bits(v: &Vec<u64>) -> (r: Vec<u64>)
    ensures
        r@ == v@,
{
    let mut r: Vec<u64> = Vec::new();
    let mut i: usize = 0;
    while i < v.len()
        invariant
            i <= v@.len(),
            r@ == v@.take(i as int),
        decreases v@.len() - i,
    {
        assert(v@.take(i + 1) == v@.take(i as int).push(v@[i as int]));
        r.push(v[i]);
        i = i + 1;
    }
    assert(v@.take(v@.len() as int) =~= v@);
    r
}

/// The reported name of a characteristic type.
fn char_type_text(t: CharacteristicType) -> (r: String)
    ensures
        r@ == char_type_label(t),
{
    match t {
        CharacteristicType::Ascii => owned("Ascii"),
        CharacteristicType::Curve => owned("Curve"),
        CharacteristicType::Map2D => owned("Map"),
        CharacteristicType::Cuboid => owned("Cuboid"),
        CharacteristicType::Cube4 => owned("Cube4"),
        CharacteristicType::Cube5 => owned("Cube5"),
        CharacteristicType::ValBlk => owned("ValBlk"),
        CharacteristicType::Value => owned("Value"),
    }
}

// ========================================================================
// Resolver
// ========================================================================

/// Resolves A2L cross-references within a Module.
pub struct Resolver<'a> {
    module: &'a Module,
}

impl<'a> Resolver<'a> {
    /// The module the resolver reads.
    pub closed spec fn model(&self) -> Module {
        *self.module
    }

    pub fn new(module: &'a Module) -> (r: Self)
        ensures
            r.model() == *module,
    {
        Resolver { module }
    }

    /// Resolve a characteristic by name into its fully-resolved form.
    pub fn resolve_characteristic(&self, name: &str) -> (r: Result<ResolvedCharacteristic, ResolveError>)
        ensures
            rview(r) == spec_resolve_characteristic(self.model(), name@),
    {
        let key = owned(name);
        let ci = match find_named(&self.module.characteristic, &key) {
            None => return Err(ResolveError::NotFound { kind: "Characteristic", name: key }),
            Some(i) => i,
        };
        let ch = &self.module.characteristic[ci];
        let layout = match self.resolve_layout(ch.deposit.as_str()) {
            Err(e) => return Err(e),
            Ok(l) => l,
        };
        let unit = self.lookup_unit(ch.conversion.as_str());
        match ch.characteristic_type {
            CharacteristicType::Value => Ok(
                ResolvedCharacteristic::Value(
                    ResolvedValue {
                        name: ch.name.clone(),
                        long_identifier: ch.long_identifier.clone(),
                        address: ch.address,
                        conversion: ch.conversion.clone(),
                        unit,
                        layout,
                    },
                ),
            ),
            CharacteristicType::ValBlk => {
                let count: u16 = match ch.number {
                    Some(n) => n,
                    None => 1,
                };
                Ok(
                    ResolvedCharacteristic::ValBlk(
                        ResolvedValBlk {
                            name: ch.name.clone(),
                            long_identifier: ch.long_identifier.clone(),
                            address: ch.address,
                            conversion: ch.conversion.clone(),
                            unit,
                            layout,
                            count,
                        },
                    ),
                )
            },
            CharacteristicType::Ascii => {
                let length: u16 = match ch.number {
                    Some(n) => n,
                    None => 0,
                };
                Ok(
                    ResolvedCharacteristic::Ascii(
                        ResolvedAscii {
                            name: ch.name.clone(),
                            long_identifier: ch.long_identifier.clone(),
                            address: ch.address,
                            length,
                        },
                    ),
                )
            },
            CharacteristicType::Curve => {
                let x_axis = match self.resolve_axis(ch.name.as_str(), &ch.axis_descr, 0) {
                    Err(e) => return Err(e),
                    Ok(a) => a,
                };
                Ok(
                    ResolvedCharacteristic::Curve(
                        ResolvedCurve {
                            name: ch.name.clone(),
                            long_identifier: ch.long_identifier.clone(),
                            address: ch.address,
                            conversion: ch.conversion.clone(),
                            unit,
                            layout,
                            x_axis,
                        },
                    ),
                )
            },
            CharacteristicType::Map2D => {
                let x_axis = match self.resolve_axis(ch.name.as_str(), &ch.axis_descr, 0) {
                    Err(e) => return Err(e),
                    Ok(a) => a,
                };
                let y_axis = match self.resolve_axis(ch.name.as_str(), &ch.axis_descr, 1) {
                    Err(e) => return Err(e),
                    Ok(a) => a,
                };
                Ok(
                    ResolvedCharacteristic::Map2D(
                        ResolvedMap {
                            name: ch.name.clone(),
                            long_identifier: ch.long_identifier.clone(),
                            address: ch.address,
                            conversion: ch.conversion.clone(),
                            unit,
                            layout,
                            x_axis,
                            y_axis,
                        },
                    ),
                )
            },
            _ => Err(
                ResolveError::WrongType {
                    name: key,
                    expected: "Value, Curve, Map, or Ascii",
                    actual: char_type_text(ch.characteristic_type),
                },
            ),
        }
    }

    /// Resolve a record layout by name.
    pub fn resolve_layout(&self, name: &str) -> (r: Result<ResolvedLayout, ResolveError>)
        ensures
            rview(r) == spec_resolve_layout(self.model(), name@),
    {
        let key = owned(name);
        match find_named(&self.module.record_layout, &key) {
            None => Err(ResolveError::NotFound { kind: "RecordLayout", name: key }),
            Some(i) => {
                let rl = &self.module.record_layout[i];
                let fnc_values_datatype = match &rl.fnc_values {
                    Some(f) => Some(f.datatype),
                    None => None,
                };
                let index_mode = match &rl.fnc_values {
                    Some(f) => Some(f.index_mode),
                    None => None,
                };
                Ok(ResolvedLayout { name: rl.name.clone(), fnc_values_datatype, index_mode })
            },
        }
    }

    /// Resolve the axis descriptor at the given index (0 = X, 1 = Y).
    fn resolve_axis(&self, char_name: &str, axis_descrs: &Vec<AxisDescr>, index: usize) -> (r: Result<
        ResolvedAxis,
        ResolveError,
    >)
        ensures
            rview(r) == spec_resolve_axis(self.model(), char_name@, axis_descrs@, index as nat),
    {
        if index >= axis_descrs.len() {
            let mut detail = String::new();
            push_str(&mut detail, "missing axis descriptor at index ");
            push_decimal(&mut detail, index as u64);
            assert(detail@ =~= missing_axis_detail(index as nat));
            return Err(ResolveError::IncompleteAxis { characteristic: owned(char_name), detail });
        }
        let ad = &axis_descrs[index];
        let unit = self.lookup_unit(ad.conversion.as_str());
        let source = match self.resolve_axis_source(ad) {
            Err(e) => return Err(e),
            Ok(s) => s,
        };
        Ok(
            ResolvedAxis {
                attribute: ad.attribute,
                conversion: ad.conversion.clone(),
                unit,
                max_axis_points: ad.max_axis_points,
                source,
            },
        )
    }

    /// Determine the axis source (FixAxisPar, FixAxisParList, FixAxisParDist,
    /// ComAxis, StdAxis).
    fn resolve_axis_source(&self, ad: &AxisDescr) -> (r: Result<AxisSource, ResolveError>)
        ensures
            rview(r) == spec_axis_source(self.model(), *ad),
    {
        if let Some(p) = &ad.fix_axis_par {
            return Ok(AxisSource::FixAxisPar { offset: p.offset, shift: p.shift, count: p.number_apo });
        }
        if let Some(l) = &ad.fix_axis_par_list {
            return Ok(AxisSource::FixAxisParList { values: copy_bits(l) });
        }
        if let Some(p) = &ad.fix_axis_par_dist {
            return Ok(AxisSource::FixAxisParDist { offset: p.offset, distance: p.distance, count: p.number_apo });
        }
        match &ad.axis_pts_ref {
            Some(apr) => match find_named(&self.module.axis_pts, apr) {
                None => Err(ResolveError::NotFound { kind: "AxisPts", name: apr.clone() }),
                Some(i) => {
                    let ap = &self.module.axis_pts[i];
                    Ok(
                        AxisSource::ComAxis {
                            axis_pts_name: ap.name.clone(),
                            axis_pts_address: ap.address,
                            max_axis_points: ap.max_axis_points,
                            deposit_name: ap.deposit_record.clone(),
                        },
                    )
                },
            },
            None => Ok(AxisSource::StdAxis { max_axis_points: ad.max_axis_points }),
        }
    }

    /// Look up the physical unit for a conversion method name.
    pub fn lookup_unit(&self, compu_method_name: &str) -> (r: String)
        ensures
            r@ == spec_lookup_unit(self.model(), compu_method_name@),
    {
        if str_eq(compu_method_name, "NO_COMPU_METHOD") {
            return String::new();
        }
        let key = owned(compu_method_name);
        match find_named(&self.module.compu_method, &key) {
            Some(i) => self.module.compu_method[i].unit.clone(),
            None => String::new(),
        }
    }

    /// List all characteristics of a given type, in module order.
    pub fn list_characteristics(&self, char_type: CharacteristicType) -> (r: Vec<&'a Characteristic>)
        ensures
            r@.len() == positions_of_type(self.model().characteristic@, char_type, self.model().characteristic@.len()).len(),
            forall|j: int|
                0 <= j < r@.len() ==> *#[trigger] r@[j] == self.model().characteristic@[positions_of_type(
                    self.model().characteristic@,
                    char_type,
                    self.model().characteristic@.len(),
                )[j]],
    {
        let chars: &'a Vec<Characteristic> = &self.module.characteristic;
        let ghost s = chars@;
        let mut out: Vec<&'a Characteristic> = Vec::new();
        let mut k: usize = 0;
        while k < chars.len()
            invariant
                k <= s.len(),
                s == chars@,
                s == self.model().characteristic@,
                out@.len() == positions_of_type(s, char_type, k as nat).len(),
                forall|j: int| 0 <= j < out@.len() ==> *#[trigger] out@[j] == s[positions_of_type(s, char_type, k as nat)[j]],
            decreases s.len() - k,
        {
            if chars[k].characteristic_type == char_type {
                out.push(&chars[k]);
            }
            k = k + 1;
        }
        out
    }

    /// Whether every characteristic of the given type either fails to
    /// resolve by its name or resolves to the kind of that type.
    pub fn names_resolve_as(&self, char_type: CharacteristicType) -> (r: bool)
        ensures
            r == names_resolve_as(self.model(), char_type),
    {
        let chars = &self.module.characteristic;
        let ghost m = self.model();
        let mut k: usize = 0;
        while k < chars.len()
            invariant
                k <= m.characteristic@.len(),
                chars@ == m.characteristic@,
                m == self.model(),
                forall|j: int| 0 <= j < k ==> #[trigger] name_resolves_as(m, j, char_type),
            decreases m.characteristic@.len() - k,
        {
            if chars[k].characteristic_type == char_type {
                let res = self.resolve_characteristic(chars[k].name.as_str());
                let fits = match res {
                    Err(_) => true,
                    Ok(ResolvedCharacteristic::Value(_)) => char_type == CharacteristicType::Value,
                    Ok(ResolvedCharacteristic::Curve(_)) => char_type == CharacteristicType::Curve,
                    Ok(ResolvedCharacteristic::Map2D(_)) => char_type == CharacteristicType::Map2D,
                    Ok(ResolvedCharacteristic::ValBlk(_)) => char_type == CharacteristicType::ValBlk,
                    Ok(ResolvedCharacteristic::Ascii(_)) => char_type == CharacteristicType::Ascii,
                };
                if !fits {
                    assert(!name_resolves_as(m, k as int, char_type));
                    return false;
                }
            }
            assert(name_resolves_as(m, k as int, char_type));
            k = k + 1;
        }
        true
    }

    /// Resolve all curves in the module, in module order.
    pub fn resolve_all_curves(&self) -> (r: Vec<Result<ResolvedCurve, ResolveError>>)
        requires
            names_resolve_as(self.model(), CharacteristicType::Curve),
        ensures
            ({
                let s = self.model().characteristic@;
                let pos = positions_of_type(s, CharacteristicType::Curve, s.len());
                &&& r@.len() == pos.len()
                &&& forall|j: int|
                    0 <= j < r@.len() ==> rview(#[trigger] r@[j]) == curve_of(
                        spec_resolve_characteristic(self.model(), s[pos[j]].name@),
                    )
            }),
    {
        let list = self.list_characteristics(CharacteristicType::Curve);
        let ghost s = self.model().characteristic@;
        let ghost pos = positions_of_type(s, CharacteristicType::Curve, s.len());
        proof {
            lemma_positions_of_type(s, CharacteristicType::Curve, s.len());
        }
        let mut out: Vec<Result<ResolvedCurve, ResolveError>> = Vec::new();
        let mut j: usize = 0;
        while j < list.len()
            invariant
                j <= list@.len(),
                list@.len() == pos.len(),
                forall|i: int| 0 <= i < list@.len() ==> *#[trigger] list@[i] == s[pos[i]],
                forall|i: int| 0 <= i < pos.len() ==> 0 <= #[trigger] pos[i] < s.len() && s[pos[i]].characteristic_type == CharacteristicType::Curve,
                names_resolve_as(self.model(), CharacteristicType::Curve),
                s == self.model().characteristic@,
                out@.len() == j,
                forall|i: int|
                    0 <= i < j ==> rview(#[trigger] out@[i]) == curve_of(spec_resolve_characteristic(self.model(), s[pos[i]].name@)),
            decreases list@.len() - j,
        {
            let c = list[j];
            proof {
                assert(s[pos[j as int]].characteristic_type == CharacteristicType::Curve);
                assert(name_resolves_as(self.model(), pos[j as int], CharacteristicType::Curve));
            }
            let res = self.resolve_characteristic(c.name.as_str());
            let item = match res {
                Ok(ResolvedCharacteristic::Curve(curve)) => Ok(curve),
                Err(e) => Err(e),
                Ok(_) => {
                    proof {
                        assert(false);
                    }
                    Err(ResolveError::NotFound { kind: "Characteristic", name: c.name.clone() })
                },
            };
            out.push(item);
            j = j + 1;
        }
        out
    }

    /// Resolve all maps in the module, in module order.
    pub fn resolve_all_maps(&self) -> (r: Vec<Result<ResolvedMap, ResolveError>>)
        requires
            names_resolve_as(self.model(), CharacteristicType::Map2D),
        ensures
            ({
                let s = self.model().characteristic@;
                let pos = positions_of_type(s, CharacteristicType::Map2D, s.len());
                &&& r@.len() == pos.len()
                &&& forall|j: int|
                    0 <= j < r@.len() ==> rview(#[trigger] r@[j]) == map_of(
                        spec_resolve_characteristic(self.model(), s[pos[j]].name@),
                    )
            }),
    {
        let list = self.list_characteristics(CharacteristicType::Map2D);
        let ghost s = self.model().characteristic@;
        let ghost pos = positions_of_type(s, CharacteristicType::Map2D, s.len());
        proof {
            lemma_positions_of_type(s, CharacteristicType::Map2D, s.len());
        }
        let mut out: Vec<Result<ResolvedMap, ResolveError>> = Vec::new();
        let mut j: usize = 0;
        while j < list.len()
            invariant
                j <= list@.len(),
                list@.len() == pos.len(),
                forall|i: int| 0 <= i < list@.len() ==> *#[trigger] list@[i] == s[pos[i]],
                forall|i: int| 0 <= i < pos.len() ==> 0 <= #[trigger] pos[i] < s.len() && s[pos[i]].characteristic_type == CharacteristicType::Map2D,
                names_resolve_as(self.model(), CharacteristicType::Map2D),
                s == self.model().characteristic@,
                out@.len() == j,
                forall|i: int|
                    0 <= i < j ==> rview(#[trigger] out@[i]) == map_of(spec_resolve_characteristic(self.model(), s[pos[i]].name@)),
            decreases list@.len() - j,
        {
            let c = list[j];
            proof {
                assert(s[pos[j as int]].characteristic_type == CharacteristicType::Map2D);
                assert(name_resolves_as(self.model(), pos[j as int], CharacteristicType::Map2D));
            }
            let res = self.resolve_characteristic(c.name.as_str());
            let item = match res {
                Ok(ResolvedCharacteristic::Map2D(m)) => Ok(m),
                Err(e) => Err(e),
                Ok(_) => {
                    proof {
                        assert(false);
                    }
                    Err(ResolveError::NotFound { kind: "Characteristic", name: c.name.clone() })
                },
            };
            out.push(item);
            j = j + 1;
        }
        out
    }

    /// Resolve a measurement by name.
    pub fn resolve_measurement(&self, name: &str) -> (r: Result<ResolvedMeasurement, ResolveError>)
        ensures
            rview(r) == spec_resolve_measurement(self.model(), name@),
    {
        let key = owned(name);
        match find_named(&self.module.measurement, &key) {
            None => Err(ResolveError::NotFound { kind: "Measurement", name: key }),
            Some(i) => {
                let me = &self.module.measurement[i];
                let unit = self.lookup_unit(me.conversion.as_str());
                Ok(
                    ResolvedMeasurement {
                        name: me.name.clone(),
                        datatype: me.datatype,
                        conversion: me.conversion.clone(),
                        unit,
                        ecu_address: me.ecu_address,
                    },
                )
            },
        }
    }

    /// Resolve all measurements in the module, in module order.
    pub fn resolve_all_measurements(&self) -> (r: Vec<Result<ResolvedMeasurement, ResolveError>>)
        ensures
            r@.len() == self.model().measurement@.len(),
            forall|j: int|
                0 <= j < r@.len() ==> rview(#[trigger] r@[j]) == spec_resolve_measurement(
                    self.model(),
                    self.model().measurement@[j].name@,
                ),
    {
        let ms = &self.module.measurement;
        let mut out: Vec<Result<ResolvedMeasurement, ResolveError>> = Vec::new();
        let mut j: usize = 0;
        while j < ms.len()
            invariant
                j <= ms@.len(),
                ms@ == self.model().measurement@,
                out@.len() == j,
                forall|i: int|
                    0 <= i < j ==> rview(#[trigger] out@[i]) == spec_resolve_measurement(self.model(), ms@[i].name@),
            decreases ms@.len() - j,
        {
            let res = self.resolve_measurement(ms[j].name.as_str());
            out.push(res);
            j = j + 1;
        }
        out
    }

    /// Reading a measurement from a flash image always fails: a missing
    /// measurement gives `NotFound`, any other `MeasurementIsRam`.
    pub fn read_measurement_from_hex(&self, name: &str, hex: &HexMemory) -> (r: Result<A2lValue, ResolveError>)
        ensures
            r matches Err(e) && e@ == match spec_resolve_measurement(self.model(), name@) {
                Err(nf) => nf,
                Ok(me) => ResolveErrorView::MeasurementIsRam { name: me.name },
            },
    {
        match self.resolve_measurement(name) {
            Err(e) => Err(e),
            Ok(me) => Err(ResolveError::MeasurementIsRam { name: me.name }),
        }
    }
}

/// The positions of a type are increasing valid indices of characteristics of
/// that type.
pub proof fn lemma_positions_of_type(s: Seq<Characteristic>, t: CharacteristicType, n: nat)
    requires
        n <= s.len(),
    ensures
        forall|i: int|
            0 <= i < positions_of_type(s, t, n).len() ==> 0 <= #[trigger] positions_of_type(s, t, n)[i] < n
                && s[positions_of_type(s, t, n)[i]].characteristic_type == t,
    decreases n,
{
    if n > 0 {
        lemma_positions_of_type(s, t, (n - 1) as nat);
    }
}

// ========================================================================
// Laws
// ========================================================================

/// The name of a resolved characteristic.
pub open spec fn resolved_name(r: ResolvedCharacteristicView) -> Seq<char> {
    match r {
        ResolvedCharacteristicView::Value(h) => h.name,
        ResolvedCharacteristicView::Curve(c) => c.header.name,
        ResolvedCharacteristicView::Map2D(m) => m.header.name,
        ResolvedCharacteristicView::ValBlk(b) => b.header.name,
        ResolvedCharacteristicView::Ascii(a) => a.name,
    }
}

/// Whether a resolved characteristic is of the kind that a characteristic
/// type resolves to.
pub open spec fn kind_matches(r: ResolvedCharacteristicView, t: CharacteristicType) -> bool {
    match r {
        ResolvedCharacteristicView::Value(_) => t == CharacteristicType::Value,
        ResolvedCharacteristicView::Curve(_) => t == CharacteristicType::Curve,
        ResolvedCharacteristicView::Map2D(_) => t == CharacteristicType::Map2D,
        ResolvedCharacteristicView::ValBlk(_) => t == CharacteristicType::ValBlk,
        ResolvedCharacteristicView::Ascii(_) => t == CharacteristicType::Ascii,
    }
}

/// A characteristic resolves under the requested name, to the kind of its
/// type; the types without a resolved kind (CUBOID, CUBE_4, CUBE_5) are
/// refused as of the wrong type; a missing name is reported as not found.
pub proof fn lemma_resolution_follows_type(m: Module, name: Seq<char>)
    ensures
        first_named(m.characteristic@, name) < 0 ==> spec_resolve_characteristic(m, name) == Err::<
            ResolvedCharacteristicView,
            ResolveErrorView,
        >(ResolveErrorView::NotFound { kind: "Characteristic"@, name }),
        spec_resolve_characteristic(m, name) matches Ok(r) ==> {
            &&& resolved_name(r) == name
            &&& kind_matches(r, m.characteristic@[first_named(m.characteristic@, name)].characteristic_type)
        },
        spec_resolve_characteristic(m, name) matches Err(ResolveErrorView::WrongType { .. }) ==> {
            let t = m.characteristic@[first_named(m.characteristic@, name)].characteristic_type;
            t == CharacteristicType::Cuboid || t == CharacteristicType::Cube4 || t == CharacteristicType::Cube5
        },
{
    lemma_first_named(m.characteristic@, name);
}

/// A measurement resolves under the requested name; a measurement present in
/// the module always resolves.
pub proof fn lemma_measurement_resolution(m: Module, name: Seq<char>)
    ensures
        spec_resolve_measurement(m, name) matches Ok(r) ==> r.name == name,
        (spec_resolve_measurement(m, name) is Err) <==> first_named(m.measurement@, name) < 0,
{
    lemma_first_named(m.measurement@, name);
}

} // verus!
