//! Joining tax payments to properties, and setting aside invalid ratios.
use vstd::prelude::*;

use crate::index::{Property, PropertyIndex};
use crate::ratio::{ratio_of, tax_per_sqft, TaxRatio};
use crate::records::TaxPaymentRecord;

verus! {

/// One tax assessment of a parcel for one fiscal year, joined with the lot
/// size of the parcel.
#[derive(Debug)]
pub struct TaxRecord {
    pub tax_parcel_id: String,
    pub year: String,
    pub tax_per_sqft: TaxRatio,
    /// Amount paid, in cents.
    pub taxes_paid: i64,
    /// Lot area in square feet, as the index held it at the join.
    pub lot_size: i64,
}

impl TaxRecord {
    /// The ratio is the one computed from the amount and the lot size.
    pub open spec fn wf(&self) -> bool {
        self.tax_per_sqft == ratio_of(self.taxes_paid, self.lot_size)
    }

    /// An exact copy of the record.
    pub fn duplicate(&self) -> (r: TaxRecord)
        ensures
            r == *self,
    {
        TaxRecord {
            tax_parcel_id: self.tax_parcel_id.clone(),
            year: self.year.clone(),
            tax_per_sqft: self.tax_per_sqft,
            taxes_paid: self.taxes_paid,
            lot_size: self.lot_size,
        }
    }
}

/// The tax record that a payment yields against `index`: only when the
/// payment has a parcel id, a year and an amount, and the index holds that
/// parcel with a known lot size.
pub open spec fn join(t: TaxPaymentRecord, index: Map<Seq<char>, Property>) -> Option<TaxRecord> {
    match t.fields {
        Some(f) => match (f.taxparcelid, f.fiscalyear, f.taxamount) {
            (Some(id), Some(year), Some(amount)) => if index.contains_key(id@) {
                match index[id@].lot_size {
                    Some(lot_size) => Some(
                        TaxRecord {
                            tax_parcel_id: id,
                            year,
                            tax_per_sqft: ratio_of(amount, lot_size),
                            taxes_paid: amount,
                            lot_size,
                        },
                    ),
                    None => None,
                }
            } else {
                None
            },
            _ => None,
        },
        None => None,
    }
}

/// The tax records that the payments yield, in input order.
pub open spec fn assembled(ts: Seq<TaxPaymentRecord>, index: Map<Seq<char>, Property>) -> Seq<
    TaxRecord,
>
    decreases ts.len(),
{
    if ts.len() == 0 {
        Seq::empty()
    } else {
        let prev = assembled(ts.drop_last(), index);
        match join(ts.last(), index) {
            Some(r) => prev.push(r),
            None => prev,
        }
    }
}

/// Joins each tax payment to the index, keeping input order and skipping
/// the payments that do not resolve to a property with a known lot size.
pub fn assemble_tax_records(taxes: &Vec<TaxPaymentRecord>, index: &PropertyIndex) -> (r: Vec<
    TaxRecord,
>)
    requires
        index.wf(),
    ensures
        r@ == assembled(taxes@, index@),
        forall|i: int| 0 <= i < r@.len() ==> (#[trigger] r@[i]).wf(),
{
    let mut out: Vec<TaxRecord> = Vec::new();
    let mut i: usize = 0;
    while i < taxes.len()
        invariant
            i <= taxes@.len(),
            index.wf(),
            out@ == assembled(taxes@.take(i as int), index@),
            forall|j: int| 0 <= j < out@.len() ==> (#[trigger] out@[j]).wf(),
        decreases taxes@.len() - i,
    {
        assert(taxes@.take(i + 1).drop_last() =~= taxes@.take(i as int));
        if let Some(f) = &taxes[i].fields {
            if let (Some(id), Some(year), Some(amount)) = (&f.taxparcelid, &f.fiscalyear, f.taxamount) {
                if let Some(property) = index.get(id) {
                    if let Some(lot_size) = property.lot_size {
                        out.push(
                            TaxRecord {
                                tax_parcel_id: id.clone(),
                                year: year.clone(),
                                tax_per_sqft: tax_per_sqft(amount, lot_size),
                                taxes_paid: amount,
                                lot_size,
                            },
                        );
                    }
                }
            }
        }
        i = i + 1;
    }
    assert(taxes@.take(i as int) =~= taxes@);
    out
}

/// Every assembled record names a parcel that the index holds, with a
/// known lot size, and carries that lot size.
pub proof fn lemma_assembled_parcels_known(
    ts: Seq<TaxPaymentRecord>,
    index: Map<Seq<char>, Property>,
    i: int,
)
    requires
        0 <= i < assembled(ts, index).len(),
    ensures
        index.contains_key(assembled(ts, index)[i].tax_parcel_id@),
        index[assembled(ts, index)[i].tax_parcel_id@].lot_size == Some(
            assembled(ts, index)[i].lot_size,
        ),
    decreases ts.len(),
{
    if i < assembled(ts.drop_last(), index).len() {
        lemma_assembled_parcels_known(ts.drop_last(), index, i);
    }
}

/// A record whose ratio outcome is a valid amount.
pub open spec fn is_valid(r: TaxRecord) -> bool {
    r.tax_per_sqft is Amount
}

/// The records of `s` with a valid ratio, in order.
pub open spec fn valid_records(s: Seq<TaxRecord>) -> Seq<TaxRecord>
    decreases s.len(),
{
    if s.len() == 0 {
        Seq::empty()
    } else if is_valid(s.last()) {
        valid_records(s.drop_last()).push(s.last())
    } else {
        valid_records(s.drop_last())
    }
}

/// How many records of `s` have the ratio outcome `kind`.
pub open spec fn count_outcome(s: Seq<TaxRecord>, kind: TaxRatio) -> nat
    decreases s.len(),
{
    if s.len() == 0 {
        0
    } else {
        count_outcome(s.drop_last(), kind) + if s.last().tax_per_sqft == kind {
            1nat
        } else {
            0nat
        }
    }
}

/// The valid records, and how many of the others fell in each category.
pub struct FilterOutcome {
    pub valid: Vec<TaxRecord>,
    pub invalid_lot_count: usize,
    pub zero_tax_count: usize,
}

/// Keeps the records with a valid ratio, in order, and counts the records
/// set aside for an invalid lot size and for a zero tax payment.
pub fn filter_and_tally(records: &Vec<TaxRecord>) -> (r: FilterOutcome)
    ensures
        r.valid@ == valid_records(records@),
        r.invalid_lot_count == count_outcome(records@, TaxRatio::InvalidLotSize),
        r.zero_tax_count == count_outcome(records@, TaxRatio::ZeroTaxPaid),
        r.valid@.len() + r.invalid_lot_count + r.zero_tax_count == records@.len(),
{
    let mut valid: Vec<TaxRecord> = Vec::new();
    let mut invalid_lot_count: usize = 0;
    let mut zero_tax_count: usize = 0;
    let mut i: usize = 0;
    while i < records.len()
        invariant
            i <= records@.len(),
            valid@ == valid_records(records@.take(i as int)),
            invalid_lot_count == count_outcome(records@.take(i as int), TaxRatio::InvalidLotSize),
            zero_tax_count == count_outcome(records@.take(i as int), TaxRatio::ZeroTaxPaid),
            valid@.len() + invalid_lot_count + zero_tax_count == i,
        decreases records@.len() - i,
    {
        assert(records@.take(i + 1).drop_last() =~= records@.take(i as int));
        match records[i].tax_per_sqft {
            TaxRatio::Amount { .. } => valid.push(records[i].duplicate()),
            TaxRatio::InvalidLotSize => invalid_lot_count = invalid_lot_count + 1,
            TaxRatio::ZeroTaxPaid => zero_tax_count = zero_tax_count + 1,
        }
        i = i + 1;
    }
    assert(records@.take(i as int) =~= records@);
    FilterOutcome { valid, invalid_lot_count, zero_tax_count }
}

/// Filtering is exhaustive: each record is valid, or counted once as an
/// invalid lot size or a zero tax payment.
pub proof fn lemma_filter_exhaustive(s: Seq<TaxRecord>)
    ensures
        valid_records(s).len() + count_outcome(s, TaxRatio::InvalidLotSize) + count_outcome(
            s,
            TaxRatio::ZeroTaxPaid,
        ) == s.len(),
    decreases s.len(),
{
    if s.len() > 0 {
        lemma_filter_exhaustive(s.drop_last());
    }
}

} // verus!
