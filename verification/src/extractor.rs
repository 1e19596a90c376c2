//! Extraction of characteristic data from ECU flash images: A2L metadata
//! resolution combined with HEX reads and typed decoding.
//!
//! The `Extractor` combines:
//! - `Resolver`, which resolves cross-references to get addresses, data
//!   types and layouts,
//! - `HexMemory`, which reads raw bytes from flash,
//! - `A2lValue`, which interprets raw bytes as typed values.
//!
//! It yields raw typed values; the COMPU_METHOD arithmetic that turns them
//! into physical values works on binary64 numbers and is applied by the
//! caller, between the steps, in the order the steps are listed for each
//! characteristic kind.
//!
//! Measurements are RAM variables and cannot be read from HEX files.
use vstd::prelude::*;
use crate::a2l::{first_named, find_named, IndexMode, Module};
use crate::compu_method::{ConversionError, ConversionErrorView};
use crate::hex_reader::{byte_at, lemma_read_is_bytes, segs_wf, spec_read, stored_bytes, HexError, HexMemory, SegmentView};
use crate::resolver::{
    rview, spec_resolve_characteristic, spec_resolve_measurement, AxisSource, AxisSourceView, ResolveError,
    ResolveErrorView, ResolvedAsciiView, ResolvedAxis, ResolvedAxisView, ResolvedCharacteristic, ResolvedCharacteristicView,
    ResolvedCurve, ResolvedCurveView, ResolvedHeaderView, ResolvedMap, ResolvedMapView, ResolvedValBlk,
    ResolvedValBlkView, ResolvedValue, Resolver, copy_bits,
};
use crate::text::{owned, push_str};
use crate::types::{spec_datatype_size, spec_from_bytes, A2lValue, DataType};

verus! {

// ========================================================================
// Error types
// ========================================================================

/// Errors from end-to-end value extraction.
#[derive(Debug)]
pub enum ExtractError {
    /// A2L reference resolution failed.
    Resolve(ResolveError),
    /// HEX memory read failed.
    Hex(HexError),
    /// Value conversion failed.
    Conversion(ConversionError),
    /// Record layout is missing fnc_values (no data type info).
    NoFncValues { layout: String },
    /// AXIS_PTS record layout is missing axis_pts_x.
    NoAxisPtsX { layout: String },
    /// Unsupported index mode (e.g., AlternateCurves).
    UnsupportedIndexMode { layout: String, mode: String },
}

/// The model of an [`ExtractError`].
pub enum ExtractErrorView {
    Resolve(ResolveErrorView),
    Hex(HexError),
    Conversion(ConversionErrorView),
    NoFncValues { layout: Seq<char> },
    NoAxisPtsX { layout: Seq<char> },
    UnsupportedIndexMode { layout: Seq<char>, mode: Seq<char> },
}

impl View for ExtractError {
    type V = ExtractErrorView;

    open spec fn view(&self) -> ExtractErrorView {
        match self {
            ExtractError::Resolve(e) => ExtractErrorView::Resolve(e@),
            ExtractError::Hex(e) => ExtractErrorView::Hex(*e),
            ExtractError::Conversion(e) => ExtractErrorView::Conversion(e@),
            ExtractError::NoFncValues { layout } => ExtractErrorView::NoFncValues { layout: layout@ },
            ExtractError::NoAxisPtsX { layout } => ExtractErrorView::NoAxisPtsX { layout: layout@ },
            ExtractError::UnsupportedIndexMode { layout, mode } => ExtractErrorView::UnsupportedIndexMode {
                layout: layout@,
                mode: mode@,
            },
        }
    }
}

impl ExtractErrorView {
    /// Whether the message is plain text (see [`ConversionErrorView::has_text`]).
    pub open spec fn has_text(self) -> bool {
        match self {
            ExtractErrorView::Resolve(e) => e.has_text(),
            ExtractErrorView::Conversion(e) => e.has_text(),
            _ => true,
        }
    }

    /// The message of the error.
    pub open spec fn message(self) -> Seq<char> {
        match self {
            ExtractErrorView::Resolve(e) => "resolve: "@ + e.message(),
            ExtractErrorView::Hex(e) => "hex read: "@ + e.message(),
            ExtractErrorView::Conversion(e) => "conversion: "@ + e.message(),
            ExtractErrorView::NoFncValues { layout } => "record layout '"@ + layout + "' has no fnc_values"@,
            ExtractErrorView::NoAxisPtsX { layout } => "axis_pts layout '"@ + layout + "' has no axis_pts_x"@,
            ExtractErrorView::UnsupportedIndexMode { layout, mode } => "unsupported index mode '"@ + mode
                + "' in layout '"@ + layout + "'"@,
        }
    }
}

impl ExtractError {
    /// Renders the error as text.
    pub fn to_display_string(&self) -> (r: String)
        requires
            self@.has_text(),
        ensures
            r@ == self@.message(),
    {
        let mut s = String::new();
        match self {
            ExtractError::Resolve(e) => {
                push_str(&mut s, "resolve: ");
                let t = e.to_display_string();
                push_str(&mut s, t.as_str());
            },
            ExtractError::Hex(e) => {
                push_str(&mut s, "hex read: ");
                let t = e.to_display_string();
                push_str(&mut s, t.as_str());
            },
            ExtractError::Conversion(e) => {
                push_str(&mut s, "conversion: ");
                let t = e.to_display_string();
                push_str(&mut s, t.as_str());
            },
            ExtractError::NoFncValues { layout } => {
                push_str(&mut s, "record layout '");
                push_str(&mut s, layout.as_str());
                push_str(&mut s, "' has no fnc_values");
            },
            ExtractError::NoAxisPtsX { layout } => {
                push_str(&mut s, "axis_pts layout '");
                push_str(&mut s, layout.as_str());
                push_str(&mut s, "' has no axis_pts_x");
            },
            ExtractError::UnsupportedIndexMode { layout, mode } => {
                push_str(&mut s, "unsupported index mode '");
                push_str(&mut s, mode.as_str());
                push_str(&mut s, "' in layout '");
                push_str(&mut s, layout.as_str());
                push_str(&mut s, "'");
            },
        }
        s
    }
}

impl From<ResolveError> for ExtractError {
    fn from(e: ResolveError) -> (r: ExtractError) {
        ExtractError::Resolve(e)
    }
}

impl vstd::std_specs::convert::FromSpecImpl<ResolveError> for ExtractError {
    open spec fn obeys_from_spec() -> bool {
        true
    }

    open spec fn from_spec(e: ResolveError) -> ExtractError {
        ExtractError::Resolve(e)
    }
}

impl From<HexError> for ExtractError {
    fn from(e: HexError) -> (r: ExtractError) {
        ExtractError::Hex(e)
    }
}

impl vstd::std_specs::convert::FromSpecImpl<HexError> for ExtractError {
    open spec fn obeys_from_spec() -> bool {
        true
    }

    open spec fn from_spec(e: HexError) -> ExtractError {
        ExtractError::Hex(e)
    }
}

impl From<ConversionError> for ExtractError {
    fn from(e: ConversionError) -> (r: ExtractError) {
        ExtractError::Conversion(e)
    }
}

impl vstd::std_specs::convert::FromSpecImpl<ConversionError> for ExtractError {
    open spec fn obeys_from_spec() -> bool {
        true
    }

    open spec fn from_spec(e: ConversionError) -> ExtractError {
        ExtractError::Conversion(e)
    }
}

// ========================================================================
// Extracted data structures
// ========================================================================

/// Raw axis breakpoints, before COMPU_METHOD conversion.
#[derive(Debug)]
pub enum RawAxis {
    /// FIX_AXIS_PAR: breakpoint `i` is offset + shift * i for i < count
    /// (binary64 bits of offset and shift).
    FixAxisPar { offset: u64, shift: u64, count: u16 },
    /// FIX_AXIS_PAR_LIST: explicit breakpoints (binary64 bits).
    List(Vec<u64>),
    /// FIX_AXIS_PAR_DIST: breakpoint `i` is offset + distance * i for
    /// i < count (binary64 bits of offset and distance).
    FixAxisParDist { offset: u64, distance: u64, count: u16 },
    /// COM_AXIS: breakpoints read from the AXIS_PTS record.
    Read(Vec<A2lValue>),
    /// STD_AXIS: the breakpoint values are not decoded; breakpoint `i` is
    /// the index `i` for i < count.
    Indices(usize),
}

/// The model of a [`RawAxis`].
pub enum RawAxisView {
    FixAxisPar { offset: u64, shift: u64, count: u16 },
    List(Seq<u64>),
    FixAxisParDist { offset: u64, distance: u64, count: u16 },
    Read(Seq<A2lValue>),
    Indices(nat),
}

impl View for RawAxis {
    type V = RawAxisView;

    open spec fn view(&self) -> RawAxisView {
        match self {
            RawAxis::FixAxisPar { offset, shift, count } => RawAxisView::FixAxisPar {
                offset: *offset,
                shift: *shift,
                count: *count,
            },
            RawAxis::List(v) => RawAxisView::List(v@),
            RawAxis::FixAxisParDist { offset, distance, count } => RawAxisView::FixAxisParDist {
                offset: *offset,
                distance: *distance,
                count: *count,
            },
            RawAxis::Read(v) => RawAxisView::Read(v@),
            RawAxis::Indices(n) => RawAxisView::Indices(*n as nat),
        }
    }
}

/// Extracted ASCII (string) characteristic.
#[derive(Debug, Clone)]
pub struct ExtractedAscii {
    pub name: String,
    /// Decoded string (UTF-8, trailing NULs stripped).
    pub text: String,
}

// ========================================================================
// What extraction gives, in terms of the module and the memory image
// ========================================================================

/// The label of the kind of a resolved characteristic, reported as the
/// `actual` of a wrong-kind error (in place of a debug dump of the resolved
/// value, whose text derived formatting decides and no contract states).
pub open spec fn kind_label(r: ResolvedCharacteristicView) -> Seq<char> {
    match r {
        ResolvedCharacteristicView::Value(_) => "Value"@,
        ResolvedCharacteristicView::Curve(_) => "Curve"@,
        ResolvedCharacteristicView::Map2D(_) => "Map"@,
        ResolvedCharacteristicView::ValBlk(_) => "ValBlk"@,
        ResolvedCharacteristicView::Ascii(_) => "Ascii"@,
    }
}

/// The error for a characteristic of another kind than the one requested.
pub open spec fn wrong_kind(name: Seq<char>, expected: Seq<char>, r: ResolvedCharacteristicView) -> ExtractErrorView {
    ExtractErrorView::Resolve(ResolveErrorView::WrongType { name, expected, actual: kind_label(r) })
}

/// The name under which an index mode is reported.
pub open spec fn index_mode_label(m: IndexMode) -> Seq<char> {
    match m {
        IndexMode::AlternateCurves => "AlternateCurves"@,
        IndexMode::AlternateWithX => "AlternateWithX"@,
        IndexMode::AlternateWithY => "AlternateWithY"@,
        IndexMode::ColumnDir => "ColumnDir"@,
        IndexMode::RowDir => "RowDir"@,
    }
}

/// The error of a read that the memory image does not cover.
pub open spec fn not_found(address: u32, length: nat) -> ExtractErrorView {
    ExtractErrorView::Hex(HexError::AddressNotFound { address, length: length as usize })
}

/// The value of data type `dt` stored at offset `off` of `b`.
pub open spec fn decode_at(dt: DataType, b: Seq<u8>, off: int) -> A2lValue {
    spec_from_bytes(dt, b.subrange(off, b.len() as int)).unwrap()
}

/// The `n` consecutive values of data type `dt` stored in `b`.
pub open spec fn decode_seq(dt: DataType, b: Seq<u8>, n: nat) -> Seq<A2lValue> {
    Seq::new(n, |i: int| decode_at(dt, b, i * spec_datatype_size(dt)))
}

/// Byte offset of element (x, y) of a map stored row by row (ROW_DIR).
pub open spec fn spec_row_dir_offset(x: int, y: int, x_count: int, elem_size: int) -> int {
    (y * x_count + x) * elem_size
}

/// Byte offset of element (x, y) of a map stored column by column
/// (COLUMN_DIR).
pub open spec fn spec_column_dir_offset(x: int, y: int, y_count: int, elem_size: int) -> int {
    (x * y_count + y) * elem_size
}

/// The `y_count` rows of `x_count` values of a map stored in `b`, row `y`
/// holding the elements (0, y) to (x_count - 1, y).
pub open spec fn decode_grid(dt: DataType, b: Seq<u8>, x_count: nat, y_count: nat, column_dir: bool) -> Seq<Seq<A2lValue>> {
    let es = spec_datatype_size(dt) as int;
    Seq::new(
        y_count,
        |y: int|
            Seq::new(
                x_count,
                |x: int|
                    decode_at(
                        dt,
                        b,
                        if column_dir {
                            spec_column_dir_offset(x, y, y_count as int, es)
                        } else {
                            spec_row_dir_offset(x, y, x_count as int, es)
                        },
                    ),
            ),
    )
}

/// The model of a grid of values.
pub open spec fn grid_view(g: Seq<Vec<A2lValue>>) -> Seq<Seq<A2lValue>> {
    g.map_values(|row: Vec<A2lValue>| row@)
}

/// Length of `b` without its trailing zero bytes.
pub open spec fn trimmed_len(b: Seq<u8>) -> nat
    decreases b.len(),
{
    if b.len() == 0 {
        0
    } else if b.last() != 0 {
        b.len()
    } else {
        trimmed_len(b.drop_last())
    }
}

/// Reading a VALUE: its resolution and its raw value.
pub open spec fn spec_read_value(m: Module, hex: Seq<SegmentView>, name: Seq<char>) -> Result<
    (ResolvedHeaderView, A2lValue),
    ExtractErrorView,
> {
    match spec_resolve_characteristic(m, name) {
        Err(e) => Err(ExtractErrorView::Resolve(e)),
        Ok(ResolvedCharacteristicView::Value(v)) => match v.layout.fnc_values_datatype {
            None => Err(ExtractErrorView::NoFncValues { layout: v.layout.name }),
            Some(dt) => match spec_read(hex, v.address, spec_datatype_size(dt)) {
                None => Err(not_found(v.address, spec_datatype_size(dt))),
                Some(b) => Ok((v, decode_at(dt, b, 0))),
            },
        },
        Ok(other) => Err(wrong_kind(name, "Value"@, other)),
    }
}

/// Resolving a CURVE for extraction: its resolution and function value data
/// type; the index mode, when given, must be ROW_DIR or COLUMN_DIR.
pub open spec fn spec_resolve_curve(m: Module, name: Seq<char>) -> Result<(ResolvedCurveView, DataType), ExtractErrorView> {
    match spec_resolve_characteristic(m, name) {
        Err(e) => Err(ExtractErrorView::Resolve(e)),
        Ok(ResolvedCharacteristicView::Curve(c)) => match c.header.layout.fnc_values_datatype {
            None => Err(ExtractErrorView::NoFncValues { layout: c.header.layout.name }),
            Some(dt) => match c.header.layout.index_mode {
                Some(mode) => if mode is RowDir || mode is ColumnDir {
                    Ok((c, dt))
                } else {
                    Err(
                        ExtractErrorView::UnsupportedIndexMode {
                            layout: c.header.layout.name,
                            mode: index_mode_label(mode),
                        },
                    )
                },
                None => Ok((c, dt)),
            },
        },
        Ok(other) => Err(wrong_kind(name, "Curve"@, other)),
    }
}

/// Resolving a MAP for extraction: its resolution and function value data
/// type.
pub open spec fn spec_resolve_map(m: Module, name: Seq<char>) -> Result<(ResolvedMapView, DataType), ExtractErrorView> {
    match spec_resolve_characteristic(m, name) {
        Err(e) => Err(ExtractErrorView::Resolve(e)),
        Ok(ResolvedCharacteristicView::Map2D(c)) => match c.header.layout.fnc_values_datatype {
            None => Err(ExtractErrorView::NoFncValues { layout: c.header.layout.name }),
            Some(dt) => Ok((c, dt)),
        },
        Ok(other) => Err(wrong_kind(name, "Map"@, other)),
    }
}

/// The number of breakpoints of an axis.
pub open spec fn spec_axis_point_count(axis: ResolvedAxisView) -> nat {
    match axis.source {
        AxisSourceView::FixAxisPar { count, .. } => count as nat,
        AxisSourceView::FixAxisParDist { count, .. } => count as nat,
        AxisSourceView::FixAxisParList { values } => values.len(),
        AxisSourceView::ComAxis { max_axis_points, .. } => max_axis_points as nat,
        AxisSourceView::StdAxis { max_axis_points } => max_axis_points as nat,
    }
}

/// Reading `count` breakpoints of an AXIS_PTS record stored at `address`
/// with the record layout named `deposit`.
pub open spec fn spec_read_axis_pts(m: Module, hex: Seq<SegmentView>, address: u32, deposit: Seq<char>, count: nat) -> Result<
    RawAxisView,
    ExtractErrorView,
> {
    let i = first_named(m.record_layout@, deposit);
    if i < 0 {
        Err(ExtractErrorView::Resolve(ResolveErrorView::NotFound { kind: "RecordLayout"@, name: deposit }))
    } else {
        match m.record_layout@[i].axis_pts_x {
            None => Err(ExtractErrorView::NoAxisPtsX { layout: deposit }),
            Some(dt) => match spec_read(hex, address, count * spec_datatype_size(dt)) {
                None => Err(not_found(address, count * spec_datatype_size(dt))),
                Some(b) => Ok(RawAxisView::Read(decode_seq(dt, b, count))),
            },
        }
    }
}

/// Reading the raw breakpoints of an axis.
pub open spec fn spec_read_axis(m: Module, hex: Seq<SegmentView>, axis: ResolvedAxisView) -> Result<
    RawAxisView,
    ExtractErrorView,
> {
    match axis.source {
        AxisSourceView::FixAxisPar { offset, shift, count } => Ok(RawAxisView::FixAxisPar { offset, shift, count }),
        AxisSourceView::FixAxisParList { values } => Ok(RawAxisView::List(values)),
        AxisSourceView::FixAxisParDist { offset, distance, count } => Ok(
            RawAxisView::FixAxisParDist { offset, distance, count },
        ),
        AxisSourceView::ComAxis { axis_pts_address, deposit_name, .. } => spec_read_axis_pts(
            m,
            hex,
            axis_pts_address,
            deposit_name,
            spec_axis_point_count(axis),
        ),
        AxisSourceView::StdAxis { .. } => Ok(RawAxisView::Indices(spec_axis_point_count(axis))),
    }
}

/// Reading the function values of a CURVE.
pub open spec fn spec_read_curve_values(hex: Seq<SegmentView>, c: ResolvedCurveView, dt: DataType) -> Result<
    Seq<A2lValue>,
    ExtractErrorView,
> {
    let n = spec_axis_point_count(c.x_axis);
    let len = n * spec_datatype_size(dt);
    match spec_read(hex, c.header.address, len) {
        None => Err(not_found(c.header.address, len)),
        Some(b) => Ok(decode_seq(dt, b, n)),
    }
}

/// Reading the function values of a MAP: the bytes of all elements, then
/// the index mode (ROW_DIR when absent) that orders them.
pub open spec fn spec_read_map_values(hex: Seq<SegmentView>, c: ResolvedMapView, dt: DataType) -> Result<
    Seq<Seq<A2lValue>>,
    ExtractErrorView,
> {
    let xn = spec_axis_point_count(c.x_axis);
    let yn = spec_axis_point_count(c.y_axis);
    let len = xn * yn * spec_datatype_size(dt);
    match spec_read(hex, c.header.address, len) {
        None => Err(not_found(c.header.address, len)),
        Some(b) => match c.header.layout.index_mode {
            None => Ok(decode_grid(dt, b, xn, yn, false)),
            Some(IndexMode::RowDir) => Ok(decode_grid(dt, b, xn, yn, false)),
            Some(IndexMode::ColumnDir) => Ok(decode_grid(dt, b, xn, yn, true)),
            Some(other) => Err(
                ExtractErrorView::UnsupportedIndexMode { layout: c.header.layout.name, mode: index_mode_label(other) },
            ),
        },
    }
}

/// Reading a VAL_BLK: its resolution and its raw values.
pub open spec fn spec_read_val_blk(m: Module, hex: Seq<SegmentView>, name: Seq<char>) -> Result<
    (ResolvedValBlkView, Seq<A2lValue>),
    ExtractErrorView,
> {
    match spec_resolve_characteristic(m, name) {
        Err(e) => Err(ExtractErrorView::Resolve(e)),
        Ok(ResolvedCharacteristicView::ValBlk(v)) => match v.header.layout.fnc_values_datatype {
            None => Err(ExtractErrorView::NoFncValues { layout: v.header.layout.name }),
            Some(dt) => {
                let len = spec_datatype_size(dt) * (v.count as nat);
                match spec_read(hex, v.header.address, len) {
                    None => Err(not_found(v.header.address, len)),
                    Some(b) => Ok((v, decode_seq(dt, b, v.count as nat))),
                }
            },
        },
        Ok(other) => Err(wrong_kind(name, "ValBlk"@, other)),
    }
}

/// The text that `String::from_utf8_lossy` makes of a byte sequence.
pub uninterp spec fn utf8_lossy_text(bytes: Seq<u8>) -> Seq<char>;

/// Decodes bytes as UTF-8 with `String::from_utf8_lossy`, each invalid
/// sequence becoming U+FFFD.
///
/// Trusted: the result is `utf8_lossy_text` of the bytes; as std's
/// documentation states, ASCII bytes (valid UTF-8) decode to the same
/// characters.
#[verifier::external_body]
fn utf8_lossy(bytes: &[u8]) -> (s: String)
    ensures
        s@ == utf8_lossy_text(bytes@),
        (forall|i: int| 0 <= i < bytes@.len() ==> bytes@[i] < 128) ==> s@ == ascii_chars(bytes@),
{
    String::from_utf8_lossy(bytes).into_owned()
}

/// The characters of an ASCII byte sequence.
pub open spec fn ascii_chars(bytes: Seq<u8>) -> Seq<char> {
    bytes.map_values(|b: u8| b as char)
}

/// Reading an ASCII characteristic: the name and the text of its bytes
/// without trailing NULs; or the error.
pub open spec fn spec_extract_ascii(m: Module, hex: Seq<SegmentView>, name: Seq<char>) -> Result<
    (Seq<char>, Seq<char>),
    ExtractErrorView,
> {
    match spec_resolve_characteristic(m, name) {
        Err(e) => Err(ExtractErrorView::Resolve(e)),
        Ok(ResolvedCharacteristicView::Ascii(a)) => match spec_read(hex, a.address, a.length as nat) {
            None => Err(not_found(a.address, a.length as nat)),
            Some(b) => Ok((a.name, utf8_lossy_text(b.take(trimmed_len(b) as int)))),
        },
        Ok(other) => Err(wrong_kind(name, "Ascii"@, other)),
    }
}

/// The model of the result of reading a VALUE.
pub open spec fn value_read_view(r: Result<(ResolvedValue, A2lValue), ExtractError>) -> Result<
    (ResolvedHeaderView, A2lValue),
    ExtractErrorView,
> {
    match r {
        Ok((v, a)) => Ok((v@, a)),
        Err(e) => Err(e@),
    }
}

/// The model of the result of resolving a CURVE for extraction.
pub open spec fn curve_resolve_view(r: Result<(ResolvedCurve, DataType), ExtractError>) -> Result<
    (ResolvedCurveView, DataType),
    ExtractErrorView,
> {
    match r {
        Ok((c, dt)) => Ok((c@, dt)),
        Err(e) => Err(e@),
    }
}

/// The model of the result of resolving a MAP for extraction.
pub open spec fn map_resolve_view(r: Result<(ResolvedMap, DataType), ExtractError>) -> Result<
    (ResolvedMapView, DataType),
    ExtractErrorView,
> {
    match r {
        Ok((c, dt)) => Ok((c@, dt)),
        Err(e) => Err(e@),
    }
}

/// The model of the result of reading a VAL_BLK.
pub open spec fn val_blk_read_view(r: Result<(ResolvedValBlk, Vec<A2lValue>), ExtractError>) -> Result<
    (ResolvedValBlkView, Seq<A2lValue>),
    ExtractErrorView,
> {
    match r {
        Ok((v, a)) => Ok((v@, a@)),
        Err(e) => Err(e@),
    }
}

/// The model of the result of reading a grid of values.
pub open spec fn grid_read_view(r: Result<Vec<Vec<A2lValue>>, ExtractError>) -> Result<
    Seq<Seq<A2lValue>>,
    ExtractErrorView,
> {
    match r {
        Ok(g) => Ok(grid_view(g@)),
        Err(e) => Err(e@),
    }
}

/// The model of the result of extracting an ASCII characteristic.
pub open spec fn ascii_view(r: Result<ExtractedAscii, ExtractError>) -> Result<(Seq<char>, Seq<char>), ExtractErrorView> {
    match r {
        Ok(a) => Ok((a.name@, a.text@)),
        Err(e) => Err(e@),
    }
}

/// Element `i` of `n` elements of size `es` lies within `n * es` bytes.
proof fn lemma_elem_in_bounds(i: int, n: int, es: int)
    by (nonlinear_arith)
    requires
        0 <= i < n,
        0 <= es,
    ensures
        0 <= i * es,
        i * es + es <= n * es,
{
}

/// Element (x, y) of an x_count by y_count grid lies within the grid, stored
/// either way: its bytes are among the x_count * y_count * es bytes read.
pub proof fn lemma_grid_in_bounds(x: int, y: int, x_count: int, y_count: int, es: int)
    requires
        0 <= x < x_count,
        0 <= y < y_count,
        0 <= es,
    ensures
        0 <= y * x_count + x < x_count * y_count,
        0 <= x * y_count + y < x_count * y_count,
        spec_row_dir_offset(x, y, x_count, es) + es <= x_count * y_count * es,
        spec_column_dir_offset(x, y, y_count, es) + es <= x_count * y_count * es,
        0 <= spec_row_dir_offset(x, y, x_count, es),
        0 <= spec_column_dir_offset(x, y, y_count, es),
{
    assert(0 <= y * x_count + x < x_count * y_count) by (nonlinear_arith)
        requires
            0 <= x < x_count,
            0 <= y < y_count,
    ;
    assert(0 <= x * y_count + y < x_count * y_count) by (nonlinear_arith)
        requires
            0 <= x < x_count,
            0 <= y < y_count,
    ;
    lemma_elem_in_bounds(y * x_count + x, x_count * y_count, es);
    lemma_elem_in_bounds(x * y_count + y, x_count * y_count, es);
    assert((x_count * y_count) * es == x_count * y_count * es) by (nonlinear_arith);
}

/// Byte offset of element (x, y) of a map stored row by row (ROW_DIR):
/// `(y * x_count + x) * elem_size`.
pub fn row_dir_offset(x: usize, y: usize, x_count: usize, elem_size: usize) -> (r: usize)
    requires
        y * x_count + x <= usize::MAX,
        (y * x_count + x) * elem_size <= usize::MAX,
    ensures
        r == spec_row_dir_offset(x as int, y as int, x_count as int, elem_size as int),
{
    proof {
        assert(0 <= y * x_count) by (nonlinear_arith);
    }
    (y * x_count + x) * elem_size
}

/// Byte offset of element (x, y) of a map stored column by column
/// (COLUMN_DIR): `(x * y_count + y) * elem_size`.
pub fn column_dir_offset(x: usize, y: usize, y_count: usize, elem_size: usize) -> (r: usize)
    requires
        x * y_count + y <= usize::MAX,
        (x * y_count + y) * elem_size <= usize::MAX,
    ensures
        r == spec_column_dir_offset(x as int, y as int, y_count as int, elem_size as int),
{
    proof {
        assert(0 <= x * y_count) by (nonlinear_arith);
    }
    (x * y_count + y) * elem_size
}

/// Decodes the value of a data type stored at an offset of a byte slice.
fn decode_one(dt: DataType, bytes: &[u8], off: usize) -> (r: A2lValue)
    requires
        off + spec_datatype_size(dt) <= bytes@.len(),
    ensures
        r == decode_at(dt, bytes@, off as int),
{
    let tail = &bytes[off..bytes.len()];
    match A2lValue::from_bytes(&dt, tail) {
        Some(v) => v,
        None => {
            proof {
                assert(false);
            }
            A2lValue::U8(0)
        },
    }
}

/// Decodes `n` consecutive values of a data type.
fn decode_values(dt: DataType, bytes: &[u8], n: usize) -> (r: Vec<A2lValue>)
    requires
        bytes@.len() == n * spec_datatype_size(dt),
        n * spec_datatype_size(dt) <= usize::MAX,
    ensures
        r@ == decode_seq(dt, bytes@, n as nat),
{
    let es = A2lValue::datatype_size(&dt);
    let mut out: Vec<A2lValue> = Vec::new();
    let mut i: usize = 0;
    while i < n
        invariant
            i <= n,
            es == spec_datatype_size(dt),
            bytes@.len() == n * es,
            n * es <= usize::MAX,
            out@.len() == i,
            forall|j: int| 0 <= j < i ==> #[trigger] out@[j] == decode_at(dt, bytes@, j * es),
        decreases n - i,
    {
        proof {
            lemma_elem_in_bounds(i as int, n as int, es as int);
        }
        let off = i * es;
        let v = decode_one(dt, bytes, off);
        out.push(v);
        i = i + 1;
    }
    assert(out@ =~= decode_seq(dt, bytes@, n as nat));
    out
}

/// Decodes an x_count by y_count grid of values, stored row by row or
/// column by column.
fn decode_grid_values(dt: DataType, bytes: &[u8], x_count: usize, y_count: usize, column_dir: bool) -> (r: Vec<
    Vec<A2lValue>,
>)
    requires
        bytes@.len() == x_count * y_count * spec_datatype_size(dt),
        x_count * y_count * spec_datatype_size(dt) <= usize::MAX,
    ensures
        grid_view(r@) == decode_grid(dt, bytes@, x_count as nat, y_count as nat, column_dir),
{
    let es = A2lValue::datatype_size(&dt);
    let ghost g = decode_grid(dt, bytes@, x_count as nat, y_count as nat, column_dir);
    let mut rows: Vec<Vec<A2lValue>> = Vec::new();
    let mut y: usize = 0;
    while y < y_count
        invariant
            y <= y_count,
            es == spec_datatype_size(dt),
            bytes@.len() == x_count * y_count * es,
            x_count * y_count * es <= usize::MAX,
            g == decode_grid(dt, bytes@, x_count as nat, y_count as nat, column_dir),
            rows@.len() == y,
            forall|j: int| 0 <= j < y ==> (#[trigger] rows@[j])@ == g[j],
        decreases y_count - y,
    {
        let mut row: Vec<A2lValue> = Vec::new();
        let mut x: usize = 0;
        while x < x_count
            invariant
                x <= x_count,
                y < y_count,
                es == spec_datatype_size(dt),
                bytes@.len() == x_count * y_count * es,
                x_count * y_count * es <= usize::MAX,
                g == decode_grid(dt, bytes@, x_count as nat, y_count as nat, column_dir),
                row@.len() == x,
                forall|i: int| 0 <= i < x ==> #[trigger] row@[i] == g[y as int][i],
            decreases x_count - x,
        {
            proof {
                lemma_grid_in_bounds(x as int, y as int, x_count as int, y_count as int, es as int);
                assert(x_count * y_count <= x_count * y_count * es) by (nonlinear_arith)
                    requires
                        es >= 1,
                        x_count * y_count >= 0,
                ;
            }
            let off = if column_dir {
                column_dir_offset(x, y, y_count, es)
            } else {
                row_dir_offset(x, y, x_count, es)
            };
            let v = decode_one(dt, bytes, off);
            row.push(v);
            x = x + 1;
        }
        assert(row@ =~= g[y as int]);
        rows.push(row);
        y = y + 1;
    }
    assert(grid_view(rows@) =~= g);
    rows
}

/// Length of a byte slice without its trailing zero bytes.
fn trimmed_length(bytes: &[u8]) -> (r: usize)
    ensures
        r == trimmed_len(bytes@),
{
    let mut end = bytes.len();
    assert(bytes@.take(end as int) =~= bytes@);
    while end > 0 && bytes[end - 1] == 0
        invariant
            end <= bytes@.len(),
            trimmed_len(bytes@) == trimmed_len(bytes@.take(end as int)),
        decreases end,
    {
        assert(bytes@.take(end as int).drop_last() =~= bytes@.take(end - 1));
        end = end - 1;
    }
    proof {
        if end > 0 {
            assert(bytes@.take(end as int).last() == bytes@[end - 1]);
        }
    }
    end
}

/// The text of the bytes of an ASCII characteristic: the bytes without
/// trailing NULs, decoded as UTF-8 (invalid sequences replaced); for ASCII
/// bytes, their characters.
pub fn ascii_text(bytes: &[u8]) -> (text: String)
    ensures
        text@ == utf8_lossy_text(bytes@.take(trimmed_len(bytes@) as int)),
        (forall|i: int| 0 <= i < bytes@.len() ==> bytes@[i] < 128) ==> text@ == ascii_chars(
            bytes@.take(trimmed_len(bytes@) as int),
        ),
{
    let end = trimmed_length(bytes);
    proof {
        lemma_trimmed_no_trailing_nul(bytes@);
    }
    let kept = &bytes[0..end];
    assert(kept@ =~= bytes@.take(end as int));
    utf8_lossy(kept)
}

/// The reported label of the kind of a resolved characteristic.
fn kind_text(r: &ResolvedCharacteristic) -> (s: String)
    ensures
        s@ == kind_label(r@),
{
    match r {
        ResolvedCharacteristic::Value(_) => owned("Value"),
        ResolvedCharacteristic::Curve(_) => owned("Curve"),
        ResolvedCharacteristic::Map2D(_) => owned("Map"),
        ResolvedCharacteristic::ValBlk(_) => owned("ValBlk"),
        ResolvedCharacteristic::Ascii(_) => owned("Ascii"),
    }
}

/// The reported name of an index mode.
fn index_mode_text(m: IndexMode) -> (s: String)
    ensures
        s@ == index_mode_label(m),
{
    match m {
        IndexMode::AlternateCurves => owned("AlternateCurves"),
        IndexMode::AlternateWithX => owned("AlternateWithX"),
        IndexMode::AlternateWithY => owned("AlternateWithY"),
        IndexMode::ColumnDir => owned("ColumnDir"),
        IndexMode::RowDir => owned("RowDir"),
    }
}

/// The error for a characteristic of another kind than the one requested.
fn wrong_kind_error(name: &str, expected: &'static str, r: &ResolvedCharacteristic) -> (e: ExtractError)
    ensures
        e@ == wrong_kind(name@, expected@, r@),
{
    ExtractError::Resolve(ResolveError::WrongType { name: owned(name), expected, actual: kind_text(r) })
}

// ========================================================================
// Extractor
// ========================================================================

/// Combines A2L metadata resolution and HEX binary reads to extract typed
/// raw values of characteristics from ECU flash data.
pub struct Extractor<'a> {
    module: &'a Module,
    hex: &'a HexMemory,
    resolver: Resolver<'a>,
}

impl<'a> Extractor<'a> {
    #[verifier::type_invariant]
    spec fn resolver_reads_module(&self) -> bool {
        self.resolver.model() == *self.module
    }

    /// The module the extractor reads.
    pub closed spec fn module_model(&self) -> Module {
        *self.module
    }

    /// The memory image the extractor reads.
    pub closed spec fn hex_model(&self) -> Seq<SegmentView> {
        self.hex@
    }

    pub fn new(module: &'a Module, hex: &'a HexMemory) -> (r: Self)
        ensures
            r.module_model() == *module,
            r.hex_model() == hex@,
    {
        Extractor { module, hex, resolver: Resolver::new(module) }
    }

    /// Access the underlying resolver.
    pub fn resolver(&self) -> (r: &Resolver<'a>)
        ensures
            r.model() == self.module_model(),
    {
        proof {
            use_type_invariant(self);
        }
        &self.resolver
    }

    /// Reads a scalar VALUE characteristic: its resolution and raw value.
    pub fn read_value(&self, name: &str) -> (r: Result<(ResolvedValue, A2lValue), ExtractError>)
        ensures
            value_read_view(r) == spec_read_value(self.module_model(), self.hex_model(), name@),
    {
        proof {
            use_type_invariant(self);
        }
        let resolved = match self.resolver.resolve_characteristic(name) {
            Err(e) => return Err(ExtractError::Resolve(e)),
            Ok(r) => r,
        };
        match resolved {
            ResolvedCharacteristic::Value(v) => {
                let dt = match v.layout.fnc_values_datatype {
                    None => return Err(ExtractError::NoFncValues { layout: v.layout.name.clone() }),
                    Some(d) => d,
                };
                let size = A2lValue::datatype_size(&dt);
                let bytes = match self.hex.read_bytes(v.address, size) {
                    Err(e) => return Err(ExtractError::Hex(e)),
                    Ok(b) => b,
                };
                let raw = decode_one(dt, bytes, 0);
                Ok((v, raw))
            },
            other => Err(wrong_kind_error(name, "Value", &other)),
        }
    }

    /// Resolves a CURVE for extraction: its resolution and the data type of
    /// its function values. Index modes other than ROW_DIR and COLUMN_DIR
    /// (equivalent for one dimension) are rejected.
    pub fn resolve_curve(&self, name: &str) -> (r: Result<(ResolvedCurve, DataType), ExtractError>)
        ensures
            curve_resolve_view(r) == spec_resolve_curve(self.module_model(), name@),
    {
        proof {
            use_type_invariant(self);
        }
        let resolved = match self.resolver.resolve_characteristic(name) {
            Err(e) => return Err(ExtractError::Resolve(e)),
            Ok(r) => r,
        };
        match resolved {
            ResolvedCharacteristic::Curve(c) => {
                let dt = match c.layout.fnc_values_datatype {
                    None => return Err(ExtractError::NoFncValues { layout: c.layout.name.clone() }),
                    Some(d) => d,
                };
                match c.layout.index_mode {
                    Some(IndexMode::RowDir) | Some(IndexMode::ColumnDir) | None => Ok((c, dt)),
                    Some(other) => Err(
                        ExtractError::UnsupportedIndexMode { layout: c.layout.name.clone(), mode: index_mode_text(other) },
                    ),
                }
            },
            other => Err(wrong_kind_error(name, "Curve", &other)),
        }
    }

    /// Resolves a MAP for extraction: its resolution and the data type of its
    /// function values.
    pub fn resolve_map(&self, name: &str) -> (r: Result<(ResolvedMap, DataType), ExtractError>)
        ensures
            map_resolve_view(r) == spec_resolve_map(self.module_model(), name@),
    {
        proof {
            use_type_invariant(self);
        }
        let resolved = match self.resolver.resolve_characteristic(name) {
            Err(e) => return Err(ExtractError::Resolve(e)),
            Ok(r) => r,
        };
        match resolved {
            ResolvedCharacteristic::Map2D(m) => {
                let dt = match m.layout.fnc_values_datatype {
                    None => return Err(ExtractError::NoFncValues { layout: m.layout.name.clone() }),
                    Some(d) => d,
                };
                Ok((m, dt))
            },
            other => Err(wrong_kind_error(name, "Map", &other)),
        }
    }

    /// Determine the number of axis points for a resolved axis.
    pub fn axis_point_count(&self, axis: &ResolvedAxis) -> (r: usize)
        ensures
            r == spec_axis_point_count(axis@),
    {
        match &axis.source {
            AxisSource::FixAxisPar { count, .. } => *count as usize,
            AxisSource::FixAxisParDist { count, .. } => *count as usize,
            AxisSource::FixAxisParList { values } => values.len(),
            AxisSource::ComAxis { max_axis_points, .. } => *max_axis_points as usize,
            AxisSource::StdAxis { max_axis_points } => *max_axis_points as usize,
        }
    }

    /// Read the raw axis breakpoints (before COMPU_METHOD conversion).
    pub fn read_axis_values(&self, axis: &ResolvedAxis) -> (r: Result<RawAxis, ExtractError>)
        ensures
            rview(r) == spec_read_axis(self.module_model(), self.hex_model(), axis@),
    {
        let count = self.axis_point_count(axis);
        match &axis.source {
            AxisSource::FixAxisPar { offset, shift, count: n } => Ok(
                RawAxis::FixAxisPar { offset: *offset, shift: *shift, count: *n },
            ),
            AxisSource::FixAxisParList { values } => Ok(RawAxis::List(copy_bits(values))),
            AxisSource::FixAxisParDist { offset, distance, count: n } => Ok(
                RawAxis::FixAxisParDist { offset: *offset, distance: *distance, count: *n },
            ),
            AxisSource::ComAxis { axis_pts_address, deposit_name, .. } => self.read_axis_pts_data(
                *axis_pts_address,
                deposit_name.as_str(),
                count,
            ),
            AxisSource::StdAxis { .. } => Ok(RawAxis::Indices(count)),
        }
    }

    /// Read AXIS_PTS breakpoints from HEX at the given address using the
    /// deposit layout.
    fn read_axis_pts_data(&self, address: u32, deposit_name: &str, count: usize) -> (r: Result<RawAxis, ExtractError>)
        requires
            count <= 0xFFFF,
        ensures
            rview(r) == spec_read_axis_pts(self.module_model(), self.hex_model(), address, deposit_name@, count as nat),
    {
        let key = owned(deposit_name);
        let li = match find_named(&self.module.record_layout, &key) {
            None => return Err(ExtractError::Resolve(ResolveError::NotFound { kind: "RecordLayout", name: key })),
            Some(i) => i,
        };
        let dt = match self.module.record_layout[li].axis_pts_x {
            None => return Err(ExtractError::NoAxisPtsX { layout: key }),
            Some(d) => d,
        };
        let elem_size = A2lValue::datatype_size(&dt);
        proof {
            assert(count * elem_size <= 0xFFFF * 8) by (nonlinear_arith)
                requires
                    count <= 0xFFFF,
                    elem_size <= 8,
            ;
        }
        let total = count * elem_size;
        let bytes = match self.hex.read_bytes(address, total) {
            Err(e) => return Err(ExtractError::Hex(e)),
            Ok(b) => b,
        };
        Ok(RawAxis::Read(decode_values(dt, bytes, count)))
    }

    /// Reads the raw function values of a CURVE, one per X axis point.
    pub fn read_curve_values(&self, curve: &ResolvedCurve, datatype: DataType) -> (r: Result<Vec<A2lValue>, ExtractError>)
        requires
            spec_axis_point_count(curve.x_axis@) * spec_datatype_size(datatype) <= usize::MAX,
        ensures
            rview(r) == spec_read_curve_values(self.hex_model(), curve@, datatype),
    {
        let x_count = self.axis_point_count(&curve.x_axis);
        let elem_size = A2lValue::datatype_size(&datatype);
        let total = x_count * elem_size;
        let bytes = match self.hex.read_bytes(curve.address, total) {
            Err(e) => return Err(ExtractError::Hex(e)),
            Ok(b) => b,
        };
        Ok(decode_values(datatype, bytes, x_count))
    }

    /// Reads the raw function values of a MAP as rows: `values[y][x]`.
    /// The bytes of all elements are read first; the layout's index mode
    /// (ROW_DIR when absent) then says how they are ordered.
    pub fn read_map_values(&self, map: &ResolvedMap, datatype: DataType) -> (r: Result<Vec<Vec<A2lValue>>, ExtractError>)
        requires
            spec_axis_point_count(map.x_axis@) * spec_axis_point_count(map.y_axis@) * spec_datatype_size(datatype)
                <= usize::MAX,
        ensures
            grid_read_view(r) == spec_read_map_values(self.hex_model(), map@, datatype),
    {
        let x_count = self.axis_point_count(&map.x_axis);
        let y_count = self.axis_point_count(&map.y_axis);
        let elem_size = A2lValue::datatype_size(&datatype);
        proof {
            assert(x_count * y_count <= usize::MAX) by (nonlinear_arith)
                requires
                    x_count * y_count * elem_size <= usize::MAX,
                    elem_size >= 1,
            ;
        }
        let total = x_count * y_count * elem_size;
        let bytes = match self.hex.read_bytes(map.address, total) {
            Err(e) => return Err(ExtractError::Hex(e)),
            Ok(b) => b,
        };
        match map.layout.index_mode {
            None | Some(IndexMode::RowDir) => Ok(decode_grid_values(datatype, bytes, x_count, y_count, false)),
            Some(IndexMode::ColumnDir) => Ok(decode_grid_values(datatype, bytes, x_count, y_count, true)),
            Some(other) => Err(
                ExtractError::UnsupportedIndexMode { layout: map.layout.name.clone(), mode: index_mode_text(other) },
            ),
        }
    }

    /// Reads a VAL_BLK characteristic: its resolution and raw values.
    pub fn read_val_blk(&self, name: &str) -> (r: Result<(ResolvedValBlk, Vec<A2lValue>), ExtractError>)
        ensures
            val_blk_read_view(r) == spec_read_val_blk(self.module_model(), self.hex_model(), name@),
    {
        proof {
            use_type_invariant(self);
        }
        let resolved = match self.resolver.resolve_characteristic(name) {
            Err(e) => return Err(ExtractError::Resolve(e)),
            Ok(r) => r,
        };
        match resolved {
            ResolvedCharacteristic::ValBlk(vb) => {
                let dt = match vb.layout.fnc_values_datatype {
                    None => return Err(ExtractError::NoFncValues { layout: vb.layout.name.clone() }),
                    Some(d) => d,
                };
                let elem_size = A2lValue::datatype_size(&dt);
                let count = vb.count as usize;
                proof {
                    assert(elem_size * count <= 8 * 0xFFFF) by (nonlinear_arith)
                        requires
                            count <= 0xFFFF,
                            elem_size <= 8,
                    ;
                    assert(elem_size * count == count * elem_size) by (nonlinear_arith);
                }
                let total = elem_size * count;
                let bytes = match self.hex.read_bytes(vb.address, total) {
                    Err(e) => return Err(ExtractError::Hex(e)),
                    Ok(b) => b,
                };
                let values = decode_values(dt, bytes, count);
                Ok((vb, values))
            },
            other => Err(wrong_kind_error(name, "ValBlk", &other)),
        }
    }

    /// Extract an ASCII (string) characteristic by name: its bytes without
    /// trailing NULs, decoded as UTF-8 (invalid sequences replaced).
    pub fn extract_ascii(&self, name: &str) -> (r: Result<ExtractedAscii, ExtractError>)
        ensures
            ascii_view(r) == spec_extract_ascii(self.module_model(), self.hex_model(), name@),
            spec_resolve_characteristic(self.module_model(), name@) matches Ok(ResolvedCharacteristicView::Ascii(a))
                ==> ascii_reads_number_bytes(self.hex_model(), a, r),
    {
        proof {
            use_type_invariant(self);
        }
        let resolved = match self.resolver.resolve_characteristic(name) {
            Err(e) => return Err(ExtractError::Resolve(e)),
            Ok(r) => r,
        };
        match resolved {
            ResolvedCharacteristic::Ascii(a) => {
                let bytes = match self.hex.read_bytes(a.address, a.length as usize) {
                    Err(e) => return Err(ExtractError::Hex(e)),
                    Ok(b) => b,
                };
                let text = ascii_text(bytes);
                proof {
                    let b = bytes@;
                    if a.length > 0 && b.last() != 0 {
                        assert(trimmed_len(b) == b.len());
                        assert(b.take(b.len() as int) =~= b);
                    }
                }
                Ok(ExtractedAscii { name: a.name, text })
            },
            other => Err(wrong_kind_error(name, "Ascii", &other)),
        }
    }

    /// Attempt to extract a measurement value: always fails, because
    /// measurements are RAM variables not present in flash HEX files.
    pub fn extract_measurement(&self, name: &str) -> (r: Result<A2lValue, ExtractError>)
        ensures
            r matches Err(e) && e@ == ExtractErrorView::Resolve(
                match spec_resolve_measurement(self.module_model(), name@) {
                    Err(nf) => nf,
                    Ok(me) => ResolveErrorView::MeasurementIsRam { name: me.name },
                },
            ),
    {
        proof {
            use_type_invariant(self);
        }
        match self.resolver.read_measurement_from_hex(name, self.hex) {
            Err(e) => Err(ExtractError::Resolve(e)),
            Ok(_) => {
                proof {
                    assert(false);
                }
                Err(ExtractError::Resolve(ResolveError::MeasurementIsRam { name: owned(name) }))
            },
        }
    }
}

// ========================================================================
// Laws
// ========================================================================

/// For one row of values, ROW_DIR and COLUMN_DIR store element x at the
/// same offset, `x * elem_size`: the two orders agree for one dimension.
pub proof fn lemma_one_dimension_orders_agree(x: int, x_count: int, elem_size: int)
    ensures
        spec_row_dir_offset(x, 0, x_count, elem_size) == x * elem_size,
        spec_column_dir_offset(x, 0, 1, elem_size) == x * elem_size,
{
}

/// Distinct elements of a grid have distinct offsets, stored either way.
pub proof fn lemma_grid_offsets_distinct(x1: int, y1: int, x2: int, y2: int, x_count: int, y_count: int, es: int)
    requires
        0 <= x1 < x_count,
        0 <= x2 < x_count,
        0 <= y1 < y_count,
        0 <= y2 < y_count,
        es > 0,
        x1 != x2 || y1 != y2,
    ensures
        spec_row_dir_offset(x1, y1, x_count, es) != spec_row_dir_offset(x2, y2, x_count, es),
        spec_column_dir_offset(x1, y1, y_count, es) != spec_column_dir_offset(x2, y2, y_count, es),
{
    assert(y1 * x_count + x1 != y2 * x_count + x2) by (nonlinear_arith)
        requires
            0 <= x1 < x_count,
            0 <= x2 < x_count,
            x1 != x2 || y1 != y2,
    ;
    assert(x1 * y_count + y1 != x2 * y_count + y2) by (nonlinear_arith)
        requires
            0 <= y1 < y_count,
            0 <= y2 < y_count,
            x1 != x2 || y1 != y2,
    ;
    assert((y1 * x_count + x1) * es != (y2 * x_count + x2) * es) by (nonlinear_arith)
        requires
            y1 * x_count + x1 != y2 * x_count + x2,
            es > 0,
    ;
    assert((x1 * y_count + y1) * es != (x2 * y_count + y2) * es) by (nonlinear_arith)
        requires
            x1 * y_count + y1 != x2 * y_count + y2,
            es > 0,
    ;
}

/// The number of breakpoints of a raw axis.
pub open spec fn raw_axis_len(a: RawAxisView) -> nat {
    match a {
        RawAxisView::FixAxisPar { count, .. } => count as nat,
        RawAxisView::FixAxisParDist { count, .. } => count as nat,
        RawAxisView::List(v) => v.len(),
        RawAxisView::Read(v) => v.len(),
        RawAxisView::Indices(n) => n,
    }
}

/// A curve read in full has one function value per axis breakpoint: the raw
/// axis and the function values both have `axis_point_count` elements.
pub proof fn lemma_curve_values_match_axis(m: Module, hex: Seq<SegmentView>, c: ResolvedCurveView, dt: DataType)
    ensures
        spec_read_axis(m, hex, c.x_axis) matches Ok(a) ==> raw_axis_len(a) == spec_axis_point_count(c.x_axis),
        spec_read_curve_values(hex, c, dt) matches Ok(v) ==> v.len() == spec_axis_point_count(c.x_axis),
{
}

/// A map read in full has one row per Y breakpoint and one value per X
/// breakpoint in each row.
pub proof fn lemma_map_values_shape(hex: Seq<SegmentView>, c: ResolvedMapView, dt: DataType)
    ensures
        spec_read_map_values(hex, c, dt) matches Ok(g) ==> {
            &&& g.len() == spec_axis_point_count(c.y_axis)
            &&& forall|y: int| 0 <= y < g.len() ==> #[trigger] g[y].len() == spec_axis_point_count(c.x_axis)
        },
{
}

/// A VAL_BLK read in full has as many values as its NUMBER (1 when absent).
pub proof fn lemma_val_blk_count(m: Module, hex: Seq<SegmentView>, name: Seq<char>)
    ensures
        spec_read_val_blk(m, hex, name) matches Ok((vb, vals)) ==> {
            &&& vals.len() == vb.count
            &&& vb.count == match m.characteristic@[first_named(m.characteristic@, name)].number {
                Some(n) => n,
                None => 1u16,
            }
        },
{
}

/// The kept bytes of an ASCII characteristic do not end with a NUL byte, and
/// only NUL bytes are dropped.
pub proof fn lemma_trimmed_no_trailing_nul(b: Seq<u8>)
    ensures
        trimmed_len(b) <= b.len(),
        trimmed_len(b) > 0 ==> b[trimmed_len(b) - 1] != 0,
        forall|i: int| trimmed_len(b) <= i < b.len() ==> b[i] == 0,
    decreases b.len(),
{
    if b.len() > 0 && b.last() == 0 {
        let t = b.drop_last();
        lemma_trimmed_no_trailing_nul(t);
        assert forall|i: int| trimmed_len(b) <= i < b.len() implies b[i] == 0 by {
            if i < b.len() - 1 {
                assert(t[i] == b[i]);
            }
        }
    }
}

/// The text of ASCII bytes (see [`ascii_text`]) has one character per kept
/// byte and never ends with a NUL character.
pub proof fn lemma_ascii_text_has_no_trailing_nul(b: Seq<u8>)
    ensures
        ascii_chars(b.take(trimmed_len(b) as int)).len() == trimmed_len(b),
        trimmed_len(b) > 0 ==> ascii_chars(b.take(trimmed_len(b) as int)).last() != '\0',
{
    lemma_trimmed_no_trailing_nul(b);
    let k = trimmed_len(b) as int;
    if k > 0 {
        let t = b.take(k);
        assert(t[k - 1] == b[k - 1]);
        assert(ascii_chars(t)[k - 1] == t[k - 1] as char);
        assert((t[k - 1] as char) != '\0');
    }
}


/// An ASCII extraction reads exactly NUMBER bytes at the characteristic's
/// address: it succeeds exactly when each of them is stored, and a string of
/// ASCII bytes whose last byte is not NUL reads as exactly those NUMBER
/// characters.
pub open spec fn ascii_reads_number_bytes(
    hex: Seq<SegmentView>,
    a: ResolvedAsciiView,
    r: Result<ExtractedAscii, ExtractError>,
) -> bool {
    let b = stored_bytes(hex, a.address as int, a.length as nat);
    &&& (r is Ok) <==> (forall|k: int| 0 <= k < a.length ==> (#[trigger] byte_at(hex, a.address + k)) is Some)
    &&& r matches Ok(x) ==> x.name@ == a.name
    &&& r matches Ok(x) ==> ((forall|k: int| 0 <= k < b.len() ==> #[trigger] b[k] < 128) && a.length > 0 && b.last()
        != 0 ==> x.text@ == ascii_chars(b) && x.text@.len() == a.length)
}

/// What an ASCII extraction gives, over the memory image: it succeeds exactly
/// when each of the NUMBER bytes at the characteristic's address is stored,
/// and its text is the decoding of those bytes without their trailing NULs,
/// all NUMBER of them when the last one is not NUL.
pub proof fn lemma_ascii_reads_number_bytes(m: Module, hex: Seq<SegmentView>, name: Seq<char>)
    requires
        segs_wf(hex),
    ensures
        spec_resolve_characteristic(m, name) matches Ok(ResolvedCharacteristicView::Ascii(a)) ==> {
            let b = stored_bytes(hex, a.address as int, a.length as nat);
            &&& (spec_extract_ascii(m, hex, name) is Ok) <==> (forall|k: int|
                0 <= k < a.length ==> (#[trigger] byte_at(hex, a.address + k)) is Some)
            &&& spec_extract_ascii(m, hex, name) matches Ok((n, t)) ==> n == a.name && t == utf8_lossy_text(
                b.take(trimmed_len(b) as int),
            )
            &&& a.length > 0 && b.last() != 0 ==> trimmed_len(b) == a.length
        },
{
    if let Ok(ResolvedCharacteristicView::Ascii(a)) = spec_resolve_characteristic(m, name) {
        let b = stored_bytes(hex, a.address as int, a.length as nat);
        lemma_read_is_bytes(hex, a.address, a.length as nat);
        if spec_read(hex, a.address, a.length as nat) is Some {
            assert(spec_read(hex, a.address, a.length as nat)->0 =~= b);
        }
    }
}

} // verus!
