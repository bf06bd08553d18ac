//! The three kinds of input record, as supplied by the record source.
//!
//! Every field may be absent; absence means "unknown", never "malformed".
use vstd::prelude::*;

verus! {

/// Fields of a building record.
#[derive(Clone, Debug)]
pub struct BuildingFields {
    pub taxparcelid: Option<String>,
    /// Lot area in square feet.
    pub lotsqfeet: Option<i64>,
    pub streetaddressformatted: Option<String>,
}

/// A building record, whose field set may be absent.
#[derive(Clone, Debug)]
pub struct BuildingRecord {
    pub fields: Option<BuildingFields>,
}

/// Fields of a tax-payment record.
#[derive(Clone, Debug)]
pub struct TaxFields {
    pub taxparcelid: Option<String>,
    pub fiscalyear: Option<String>,
    /// Amount paid, in cents.
    pub taxamount: Option<i64>,
}

/// A tax-payment record, whose field set may be absent.
#[derive(Clone, Debug)]
pub struct TaxPaymentRecord {
    pub fields: Option<TaxFields>,
}

/// Fields of a location record.
#[derive(Clone, Debug)]
pub struct LocationFields {
    pub taxparcelid: Option<String>,
    /// Latitude in ten-millionths of a degree.
    pub latitude: Option<i64>,
    /// Longitude in ten-millionths of a degree.
    pub longitude: Option<i64>,
}

/// A location record, whose field set may be absent.
#[derive(Clone, Debug)]
pub struct LocationRecord {
    pub fields: Option<LocationFields>,
}

} // verus!
