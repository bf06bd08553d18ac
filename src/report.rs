//! The whole pipeline: index, join, filter and tally, rank.
use vstd::prelude::*;

use crate::assemble::{
    assemble_tax_records, assembled, count_outcome, filter_and_tally, valid_records, TaxRecord,
};
use crate::index::{build_index, copy_text, index_of, Property};
use crate::rank::{rank, ranking};
use crate::ratio::TaxRatio;
use crate::records::{BuildingRecord, LocationRecord, TaxPaymentRecord};

verus! {

/// The fiscal year that the report ranks by default.
pub const DEFAULT_TARGET_YEAR: &'static str = "2021";

/// The number of entries that the report keeps by default.
pub const DEFAULT_LIMIT: usize = 200;

/// One ranked line of the report.
#[derive(Debug)]
pub struct ReportEntry {
    pub tax_per_sqft: TaxRatio,
    /// Amount paid, in cents.
    pub taxes_paid: i64,
    /// Lot area in square feet.
    pub lot_size: i64,
    pub year: String,
    pub address: Option<String>,
}

/// The ranked entries, and how many records were set aside in each
/// category.
pub struct Report {
    pub entries: Vec<ReportEntry>,
    pub invalid_lot_count: usize,
    pub zero_tax_count: usize,
}

/// The report line of record `r`, with the address that `index` holds for
/// its parcel.
pub open spec fn entry_of(r: TaxRecord, index: Map<Seq<char>, Property>) -> ReportEntry {
    ReportEntry {
        tax_per_sqft: r.tax_per_sqft,
        taxes_paid: r.taxes_paid,
        lot_size: r.lot_size,
        year: r.year,
        address: if index.contains_key(r.tax_parcel_id@) {
            index[r.tax_parcel_id@].address
        } else {
            None
        },
    }
}

/// Builds the report: indexes the properties, joins the tax payments,
/// sets aside and counts the invalid ratios, and ranks the valid records of
/// `target_year`, keeping at most `limit`.
pub fn build_report(
    buildings: &Vec<BuildingRecord>,
    taxes: &Vec<TaxPaymentRecord>,
    locations: &Vec<LocationRecord>,
    target_year: &String,
    limit: usize,
) -> (r: Report)
    ensures
        ({
            let index = index_of(buildings@, locations@);
            let records = assembled(taxes@, index);
            let ranked = ranking(valid_records(records), target_year@, limit as nat);
            &&& r.invalid_lot_count == count_outcome(records, TaxRatio::InvalidLotSize)
            &&& r.zero_tax_count == count_outcome(records, TaxRatio::ZeroTaxPaid)
            &&& r.entries@.len() == ranked.len()
            &&& forall|i: int|
                0 <= i < ranked.len() ==> #[trigger] r.entries@[i] == entry_of(ranked[i], index)
        }),
{
    let index = build_index(buildings, locations);
    let records = assemble_tax_records(taxes, &index);
    let filtered = filter_and_tally(&records);
    let ranked = rank(&filtered.valid, target_year, limit);
    let mut entries: Vec<ReportEntry> = Vec::new();
    let mut i: usize = 0;
    while i < ranked.len()
        invariant
            i <= ranked@.len(),
            index.wf(),
            entries@.len() == i,
            forall|j: int|
                0 <= j < i ==> #[trigger] entries@[j] == entry_of(ranked@[j], index@),
        decreases ranked@.len() - i,
    {
        let t = &ranked[i];
        let address = match index.get(&t.tax_parcel_id) {
            Some(p) => copy_text(&p.address),
            None => None,
        };
        entries.push(
            ReportEntry {
                tax_per_sqft: t.tax_per_sqft,
                taxes_paid: t.taxes_paid,
                lot_size: t.lot_size,
                year: t.year.clone(),
                address,
            },
        );
        i = i + 1;
    }
    Report {
        entries,
        invalid_lot_count: filtered.invalid_lot_count,
        zero_tax_count: filtered.zero_tax_count,
    }
}

} // verus!
