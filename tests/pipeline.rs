use parcel_tax::assemble::{assemble_tax_records, filter_and_tally, TaxRecord};
use parcel_tax::index::{build_index, Property, PropertyIndex};
use parcel_tax::rank::rank;
use parcel_tax::ratio::{ratio_at_least, tax_per_sqft, TaxRatio};
use parcel_tax::records::{
    BuildingFields, BuildingRecord, LocationFields, LocationRecord, TaxFields, TaxPaymentRecord,
};
use parcel_tax::report::{build_report, DEFAULT_LIMIT, DEFAULT_TARGET_YEAR};

fn building(id: &str, lot: Option<i64>, address: Option<&str>) -> BuildingRecord {
    BuildingRecord {
        fields: Some(BuildingFields {
            taxparcelid: Some(id.to_string()),
            lotsqfeet: lot,
            streetaddressformatted: address.map(|a| a.to_string()),
        }),
    }
}

fn payment(id: &str, year: &str, cents: i64) -> TaxPaymentRecord {
    TaxPaymentRecord {
        fields: Some(TaxFields {
            taxparcelid: Some(id.to_string()),
            fiscalyear: Some(year.to_string()),
            taxamount: Some(cents),
        }),
    }
}

fn location(id: &str, lat: i64, lon: i64) -> LocationRecord {
    LocationRecord {
        fields: Some(LocationFields {
            taxparcelid: Some(id.to_string()),
            latitude: Some(lat),
            longitude: Some(lon),
        }),
    }
}

fn record(id: &str, year: &str, cents: i64, lot: i64) -> TaxRecord {
    TaxRecord {
        tax_parcel_id: id.to_string(),
        year: year.to_string(),
        tax_per_sqft: tax_per_sqft(cents, lot),
        taxes_paid: cents,
        lot_size: lot,
    }
}

fn ids(records: &[TaxRecord]) -> Vec<String> {
    records.iter().map(|r| r.tax_parcel_id.clone()).collect()
}

#[test]
fn small_lot_is_invalid_whatever_the_amount() {
    assert_eq!(tax_per_sqft(100, 9), TaxRatio::InvalidLotSize);
    assert_eq!(tax_per_sqft(0, 9), TaxRatio::InvalidLotSize);
    assert_eq!(tax_per_sqft(-5, 0), TaxRatio::InvalidLotSize);
    assert_eq!(tax_per_sqft(100, -20), TaxRatio::InvalidLotSize);
}

#[test]
fn zero_or_negative_payment_on_valid_lot() {
    assert_eq!(tax_per_sqft(0, 10), TaxRatio::ZeroTaxPaid);
    assert_eq!(tax_per_sqft(-1, 5000), TaxRatio::ZeroTaxPaid);
}

#[test]
fn positive_payment_gives_exact_fraction() {
    assert_eq!(
        tax_per_sqft(1, 10),
        TaxRatio::Amount { taxes_paid: 1, lot_size: 10 }
    );
    assert_eq!(
        tax_per_sqft(50_000, 1000),
        TaxRatio::Amount { taxes_paid: 50_000, lot_size: 1000 }
    );
}

#[test]
fn rounded_cents_per_sqft_values() {
    // 500.00 dollars on 1000 sqft: 0.50 dollars per sqft.
    assert_eq!(tax_per_sqft(50_000, 1000).rounded_cents_per_sqft(), Some(50));
    // 1 cent on 3 sqft rounds to 0; 2 cents on 3 sqft rounds to 1.
    assert_eq!(TaxRatio::Amount { taxes_paid: 1, lot_size: 3 }.rounded_cents_per_sqft(), Some(0));
    assert_eq!(TaxRatio::Amount { taxes_paid: 2, lot_size: 3 }.rounded_cents_per_sqft(), Some(1));
    // Exactly half rounds up.
    assert_eq!(TaxRatio::Amount { taxes_paid: 15, lot_size: 10 }.rounded_cents_per_sqft(), Some(2));
    assert_eq!(TaxRatio::InvalidLotSize.rounded_cents_per_sqft(), None);
    assert_eq!(TaxRatio::ZeroTaxPaid.rounded_cents_per_sqft(), None);
    assert_eq!(
        TaxRatio::Amount { taxes_paid: i64::MAX, lot_size: 1 }.rounded_cents_per_sqft(),
        Some(i64::MAX)
    );
}

#[test]
fn ratio_ordering_compares_fractions() {
    let half = TaxRatio::Amount { taxes_paid: 1, lot_size: 2 };
    let third = TaxRatio::Amount { taxes_paid: 1, lot_size: 3 };
    let also_half = TaxRatio::Amount { taxes_paid: 50, lot_size: 100 };
    assert!(ratio_at_least(&half, &third));
    assert!(!ratio_at_least(&third, &half));
    assert!(ratio_at_least(&half, &also_half));
    assert!(ratio_at_least(&also_half, &half));
    assert!(ratio_at_least(&third, &TaxRatio::ZeroTaxPaid));
    assert!(!ratio_at_least(&TaxRatio::InvalidLotSize, &third));
    let big = TaxRatio::Amount { taxes_paid: i64::MAX, lot_size: 10 };
    let bigger = TaxRatio::Amount { taxes_paid: i64::MAX, lot_size: 9 };
    assert!(ratio_at_least(&bigger, &big));
    assert!(!ratio_at_least(&big, &bigger));
}

#[test]
fn index_last_building_wins_and_locations_only_update() {
    let buildings = vec![
        building("A", Some(100), Some("old address")),
        building("A", Some(200), Some("new address")),
        building("B", None, None),
        BuildingRecord { fields: None },
        BuildingRecord {
            fields: Some(BuildingFields {
                taxparcelid: None,
                lotsqfeet: Some(5),
                streetaddressformatted: None,
            }),
        },
    ];
    let locations = vec![
        location("A", 10, 20),
        location("Z", 1, 2),
        LocationRecord { fields: None },
    ];
    let index = build_index(&buildings, &locations);
    let a = index.get(&"A".to_string()).unwrap();
    assert_eq!(a.lot_size, Some(200));
    assert_eq!(a.address, Some("new address".to_string()));
    assert_eq!(a.latitude, Some(10));
    assert_eq!(a.longitude, Some(20));
    let b = index.get(&"B".to_string()).unwrap();
    assert_eq!(b.lot_size, None);
    assert_eq!(b.latitude, None);
    assert!(index.get(&"Z".to_string()).is_none());
}

#[test]
fn index_insert_and_set_location() {
    let mut index = PropertyIndex::new();
    assert!(index.get(&"X".to_string()).is_none());
    let p = Property { lot_size: Some(50), address: None, latitude: None, longitude: None };
    index.insert("X".to_string(), p);
    index.set_location(&"X".to_string(), Some(3), None);
    index.set_location(&"Y".to_string(), Some(4), Some(5));
    let x = index.get(&"X".to_string()).unwrap();
    assert_eq!(x.lot_size, Some(50));
    assert_eq!(x.latitude, Some(3));
    assert_eq!(x.longitude, None);
    assert!(index.get(&"Y".to_string()).is_none());
}

#[test]
fn join_is_inner_and_needs_lot_size() {
    let index = build_index(
        &vec![building("K", Some(1000), None), building("U", None, None)],
        &vec![],
    );
    let taxes = vec![
        payment("MISSING", "2021", 100),
        payment("U", "2021", 100),
        payment("K", "2021", 300),
        TaxPaymentRecord { fields: None },
        TaxPaymentRecord {
            fields: Some(TaxFields {
                taxparcelid: Some("K".to_string()),
                fiscalyear: None,
                taxamount: Some(1),
            }),
        },
        payment("K", "2020", 0),
    ];
    let records = assemble_tax_records(&taxes, &index);
    assert_eq!(ids(&records), vec!["K".to_string(), "K".to_string()]);
    assert_eq!(records[0].year, "2021");
    assert_eq!(records[0].lot_size, 1000);
    assert_eq!(records[0].taxes_paid, 300);
    assert_eq!(records[0].tax_per_sqft, TaxRatio::Amount { taxes_paid: 300, lot_size: 1000 });
    assert_eq!(records[1].tax_per_sqft, TaxRatio::ZeroTaxPaid);
}

#[test]
fn filter_counts_every_category() {
    let records = vec![
        record("A", "2021", 100, 100),
        record("B", "2021", 100, 5),
        record("C", "2021", 0, 100),
        record("D", "2021", 7, 10),
        record("E", "2021", -3, 9),
    ];
    let out = filter_and_tally(&records);
    assert_eq!(ids(&out.valid), vec!["A".to_string(), "D".to_string()]);
    assert_eq!(out.invalid_lot_count, 2);
    assert_eq!(out.zero_tax_count, 1);
    assert_eq!(out.valid.len() + out.invalid_lot_count + out.zero_tax_count, records.len());
}

#[test]
fn filter_of_nothing() {
    let out = filter_and_tally(&vec![]);
    assert!(out.valid.is_empty());
    assert_eq!(out.invalid_lot_count, 0);
    assert_eq!(out.zero_tax_count, 0);
}

#[test]
fn rank_orders_descending_and_is_stable() {
    let records = vec![
        record("low", "2021", 100, 1000),
        record("tie1", "2021", 200, 1000),
        record("high", "2021", 900, 1000),
        record("tie2", "2021", 400, 2000),
        record("bad", "2021", 100, 5),
    ];
    let ranked = rank(&records, &"2021".to_string(), 10);
    assert_eq!(
        ids(&ranked),
        vec!["high".to_string(), "tie1".to_string(), "tie2".to_string(), "low".to_string()]
    );
    for w in ranked.windows(2) {
        assert!(ratio_at_least(&w[0].tax_per_sqft, &w[1].tax_per_sqft));
    }
}

#[test]
fn rank_respects_limit() {
    let records = vec![
        record("a", "2021", 100, 100),
        record("b", "2021", 300, 100),
        record("c", "2021", 200, 100),
    ];
    let year = "2021".to_string();
    assert_eq!(ids(&rank(&records, &year, 2)), vec!["b".to_string(), "c".to_string()]);
    assert_eq!(rank(&records, &year, 0).len(), 0);
    assert_eq!(rank(&records, &year, 3).len(), 3);
    assert_eq!(rank(&records, &year, usize::MAX).len(), 3);
    assert!(rank(&records, &"1999".to_string(), 5).is_empty());
    assert!(rank(&vec![], &year, 5).is_empty());
}

#[test]
fn example_valid_record_is_ranked() {
    let buildings = vec![building("P1", Some(1000), Some("1 Main St"))];
    let taxes = vec![payment("P1", "2021", 50_000)];
    let report = build_report(&buildings, &taxes, &vec![], &"2021".to_string(), 200);
    assert_eq!(report.entries.len(), 1);
    let e = &report.entries[0];
    assert_eq!(e.tax_per_sqft, TaxRatio::Amount { taxes_paid: 50_000, lot_size: 1000 });
    assert_eq!(e.tax_per_sqft.rounded_cents_per_sqft(), Some(50));
    assert_eq!(e.taxes_paid, 50_000);
    assert_eq!(e.lot_size, 1000);
    assert_eq!(e.year, "2021");
    assert_eq!(e.address, Some("1 Main St".to_string()));
    assert_eq!(report.invalid_lot_count, 0);
    assert_eq!(report.zero_tax_count, 0);
}

#[test]
fn example_small_lot_is_excluded_and_counted() {
    let buildings = vec![building("P2", Some(5), None)];
    let taxes = vec![payment("P2", "2021", 10_000)];
    let records = assemble_tax_records(&taxes, &build_index(&buildings, &vec![]));
    assert_eq!(records[0].tax_per_sqft, TaxRatio::InvalidLotSize);
    let report = build_report(&buildings, &taxes, &vec![], &"2021".to_string(), 200);
    assert!(report.entries.is_empty());
    assert_eq!(report.invalid_lot_count, 1);
    assert_eq!(report.zero_tax_count, 0);
}

#[test]
fn example_zero_tax_is_excluded_and_counted() {
    let buildings = vec![building("P3", Some(2000), None)];
    let taxes = vec![payment("P3", "2021", 0)];
    let records = assemble_tax_records(&taxes, &build_index(&buildings, &vec![]));
    assert_eq!(records[0].tax_per_sqft, TaxRatio::ZeroTaxPaid);
    let report = build_report(&buildings, &taxes, &vec![], &"2021".to_string(), 200);
    assert!(report.entries.is_empty());
    assert_eq!(report.invalid_lot_count, 0);
    assert_eq!(report.zero_tax_count, 1);
}

#[test]
fn example_other_year_is_excluded() {
    let buildings = vec![building("P1", Some(1000), None), building("P4", Some(10), None)];
    let taxes = vec![payment("P1", "2021", 50_000), payment("P4", "2020", 1_000_000)];
    let report = build_report(&buildings, &taxes, &vec![], &"2021".to_string(), 200);
    assert_eq!(report.entries.len(), 1);
    assert_eq!(report.entries[0].taxes_paid, 50_000);
    assert_eq!(report.entries[0].year, "2021");
}

#[test]
fn report_with_defaults_and_locations() {
    let buildings = vec![
        building("A", Some(100), Some("a st")),
        building("B", Some(100), None),
        building("C", Some(3), None),
    ];
    let taxes = vec![
        payment("A", "2021", 1_000),
        payment("B", "2021", 5_000),
        payment("C", "2021", 5_000),
        payment("A", "2021", 0),
        payment("NONE", "2021", 5),
    ];
    let locations = vec![location("A", 1, 1)];
    let report = build_report(
        &buildings,
        &taxes,
        &locations,
        &DEFAULT_TARGET_YEAR.to_string(),
        DEFAULT_LIMIT,
    );
    assert_eq!(report.entries.len(), 2);
    assert_eq!(report.entries[0].taxes_paid, 5_000);
    assert_eq!(report.entries[0].address, None);
    assert_eq!(report.entries[1].taxes_paid, 1_000);
    assert_eq!(report.entries[1].address, Some("a st".to_string()));
    assert_eq!(report.invalid_lot_count, 1);
    assert_eq!(report.zero_tax_count, 1);
}
