//! Decoding raw bytes (from XCP/CCP traces or memory dumps) by the metadata
//! of a measurement or a characteristic.
//!
//! A name is looked up as a measurement first, then as a characteristic. A
//! measurement, VALUE, VAL_BLK, CURVE or MAP is decoded as one value of its
//! data type; an ASCII characteristic as text.
use vstd::prelude::*;
use crate::resolver::{
    spec_resolve_characteristic, spec_resolve_measurement, ResolvedCharacteristic, ResolvedCharacteristicView,
    ResolvedHeaderView, ResolvedMeasurement, ResolvedMeasurementView, Resolver,
};
use crate::text::owned;
use crate::types::{spec_datatype_size, spec_from_bytes, A2lValue, DataType};

verus! {

/// What a name decodes as.
#[derive(Debug)]
pub enum DecodeTarget {
    /// A measurement.
    Measurement(ResolvedMeasurement),
    /// A VALUE, VAL_BLK, CURVE or MAP characteristic: the data type of its
    /// function values, its conversion method and unit.
    Characteristic { datatype: DataType, conversion: String, unit: String },
    /// An ASCII characteristic.
    Ascii,
}

/// The model of a [`DecodeTarget`].
pub enum DecodeTargetView {
    Measurement(ResolvedMeasurementView),
    Characteristic { datatype: DataType, conversion: Seq<char>, unit: Seq<char> },
    Ascii,
}

impl View for DecodeTarget {
    type V = DecodeTargetView;

    open spec fn view(&self) -> DecodeTargetView {
        match self {
            DecodeTarget::Measurement(m) => DecodeTargetView::Measurement(m@),
            DecodeTarget::Characteristic { datatype, conversion, unit } => DecodeTargetView::Characteristic {
                datatype: *datatype,
                conversion: conversion@,
                unit: unit@,
            },
            DecodeTarget::Ascii => DecodeTargetView::Ascii,
        }
    }
}

/// Errors of decoding raw bytes.
#[derive(Debug, Clone, PartialEq)]
pub enum DecodeError {
    /// The characteristic's record layout gives no function value data type.
    NoDataType { name: String },
    /// No measurement and no characteristic of that name resolves.
    NotFound { name: String },
    /// Fewer bytes than the data type needs.
    NeedBytes { datatype: DataType, need: usize, got: usize },
}

/// The model of a [`DecodeError`].
pub enum DecodeErrorView {
    NoDataType { name: Seq<char> },
    NotFound { name: Seq<char> },
    NeedBytes { datatype: DataType, need: nat, got: nat },
}

impl View for DecodeError {
    type V = DecodeErrorView;

    open spec fn view(&self) -> DecodeErrorView {
        match self {
            DecodeError::NoDataType { name } => DecodeErrorView::NoDataType { name: name@ },
            DecodeError::NotFound { name } => DecodeErrorView::NotFound { name: name@ },
            DecodeError::NeedBytes { datatype, need, got } => DecodeErrorView::NeedBytes {
                datatype: *datatype,
                need: *need as nat,
                got: *got as nat,
            },
        }
    }
}

/// The value target of a resolved characteristic with the given header.
pub open spec fn value_target(name: Seq<char>, h: ResolvedHeaderView) -> Result<DecodeTargetView, DecodeErrorView> {
    match h.layout.fnc_values_datatype {
        None => Err(DecodeErrorView::NoDataType { name }),
        Some(dt) => Ok(DecodeTargetView::Characteristic { datatype: dt, conversion: h.conversion, unit: h.unit }),
    }
}

/// What a name decodes as: the measurement of that name if it resolves,
/// else the characteristic of that name if it resolves.
pub open spec fn spec_decode_target(m: crate::a2l::Module, name: Seq<char>) -> Result<DecodeTargetView, DecodeErrorView> {
    match spec_resolve_measurement(m, name) {
        Ok(me) => Ok(DecodeTargetView::Measurement(me)),
        Err(_) => match spec_resolve_characteristic(m, name) {
            Ok(ResolvedCharacteristicView::Value(h)) => value_target(name, h),
            Ok(ResolvedCharacteristicView::ValBlk(b)) => value_target(name, b.header),
            Ok(ResolvedCharacteristicView::Curve(c)) => value_target(name, c.header),
            Ok(ResolvedCharacteristicView::Map2D(mp)) => value_target(name, mp.header),
            Ok(ResolvedCharacteristicView::Ascii(_)) => Ok(DecodeTargetView::Ascii),
            Err(_) => Err(DecodeErrorView::NotFound { name }),
        },
    }
}

/// The model of a decode result.
pub open spec fn target_view(r: Result<DecodeTarget, DecodeError>) -> Result<DecodeTargetView, DecodeErrorView> {
    match r {
        Ok(t) => Ok(t@),
        Err(e) => Err(e@),
    }
}

/// Finds what a name decodes as.
pub fn decode_target(resolver: &Resolver, name: &str) -> (r: Result<DecodeTarget, DecodeError>)
    ensures
        target_view(r) == spec_decode_target(resolver.model(), name@),
{
    if let Ok(meas) = resolver.resolve_measurement(name) {
        return Ok(DecodeTarget::Measurement(meas));
    }
    match resolver.resolve_characteristic(name) {
        Ok(resolved) => {
            let (layout, conversion, unit) = match resolved {
                ResolvedCharacteristic::Value(v) => (v.layout, v.conversion, v.unit),
                ResolvedCharacteristic::ValBlk(vb) => (vb.layout, vb.conversion, vb.unit),
                ResolvedCharacteristic::Curve(c) => (c.layout, c.conversion, c.unit),
                ResolvedCharacteristic::Map2D(m) => (m.layout, m.conversion, m.unit),
                ResolvedCharacteristic::Ascii(_) => return Ok(DecodeTarget::Ascii),
            };
            match layout.fnc_values_datatype {
                None => Err(DecodeError::NoDataType { name: owned(name) }),
                Some(datatype) => Ok(DecodeTarget::Characteristic { datatype, conversion, unit }),
            }
        },
        Err(_) => Err(DecodeError::NotFound { name: owned(name) }),
    }
}

/// Decodes one value of a data type from the leading bytes, or reports how
/// many bytes the type needs.
pub fn decode_bytes(datatype: DataType, bytes: &[u8]) -> (r: Result<A2lValue, DecodeError>)
    ensures
        match r {
            Ok(v) => bytes@.len() >= spec_datatype_size(datatype) && spec_from_bytes(datatype, bytes@) == Some(v),
            Err(e) => bytes@.len() < spec_datatype_size(datatype) && e@ == DecodeErrorView::NeedBytes {
                datatype,
                need: spec_datatype_size(datatype),
                got: bytes@.len(),
            },
        },
{
    match A2lValue::from_bytes(&datatype, bytes) {
        Some(v) => Ok(v),
        None => Err(DecodeError::NeedBytes { datatype, need: A2lValue::datatype_size(&datatype), got: bytes.len() }),
    }
}

} // verus!
