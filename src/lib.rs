//! Ranks real-estate parcels by tax paid per square foot of lot.
//!
//! The pipeline joins building, tax-payment and location records on the
//! parcel id, derives a tax-per-area ratio, sets aside records whose ratio
//! cannot be computed, and ranks what is left for one fiscal year.
pub mod assemble;
pub mod index;
pub mod rank;
pub mod ratio;
pub mod records;
pub mod report;
