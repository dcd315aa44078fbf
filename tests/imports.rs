use std::str::FromStr;

use bigdecimal::BigDecimal;
use emlak::cell::{blank_to_absent, cell_decimal, cell_i32, cell_text, cell_text_or_empty, Cell};
use emlak::import::{
    customer_row_from_cells, next_step, property_from_cells, CustomerImportSummary, CustomerRow,
    PropertyImportSummary, RowOutcome, RowStep, StoreReply,
};
use emlak::model::{Cephe, CreateCustomer, CreateProperty};
use emlak::store::Store;

fn text(s: &str) -> Cell {
    Cell::Text(s.to_string())
}

fn dec(s: &str) -> BigDecimal {
    BigDecimal::from_str(s).unwrap()
}

fn property_row(block: &str, floor: &str, door: Cell, gross: Cell) -> Vec<Cell> {
    vec![
        Cell::Other,
        text(block),
        text(floor),
        door,
        text("3+1"),
        text("Daire"),
        gross,
        Cell::Int(100),
        Cell::Other,
    ]
}

fn customer_sheet_row(id: Cell, owner: &str, mobile: &str, tenant: &str) -> Vec<Cell> {
    vec![
        id,
        Cell::Other,
        Cell::Other,
        Cell::Other,
        Cell::Other,
        Cell::Other,
        Cell::Other,
        text(owner),
        text(mobile),
        text(""),
        text("owner@example.com"),
        Cell::Other,
        text("TR"),
        text(tenant),
    ]
}

fn record(key: &str, floor: &str, gross: &str) -> CreateProperty {
    CreateProperty {
        daire_no: key.to_string(),
        blok: "A".to_string(),
        kat: floor.to_string(),
        kapi_no: 5,
        daire_tipi: "Daire".to_string(),
        oda_sayisi: "2+1".to_string(),
        brut_m2: dec(gross),
        net_m2: dec("80"),
        balkon_m2: None,
        cephe: Some(Cephe::KB),
        kiraci_var_mi: false,
        sahip_id: None,
    }
}

#[test]
fn cells_read_as_text() {
    let row = vec![text("  abc "), text("   "), Cell::Float("5".to_string()), Cell::Int(-3), Cell::Other];
    assert_eq!(cell_text(&row, 0), Some("abc".to_string()));
    assert_eq!(cell_text(&row, 1), None);
    assert_eq!(cell_text(&row, 2), Some("5".to_string()));
    assert_eq!(cell_text(&row, 3), Some("-3".to_string()));
    assert_eq!(cell_text(&row, 4), None);
    assert_eq!(cell_text(&row, 9), None);
    assert_eq!(cell_text_or_empty(&row, 4), "");
    assert_eq!(cell_text_or_empty(&row, 0), "abc");
}

#[test]
fn cells_read_as_decimals() {
    let row = vec![
        Cell::Int(120),
        Cell::Float("12.5".to_string()),
        text("12"),
        Cell::Float("NaN".to_string()),
        Cell::Other,
    ];
    assert_eq!(cell_decimal(&row, 0), Some(dec("120")));
    assert_eq!(cell_decimal(&row, 1), Some(dec("12.5")));
    assert_eq!(cell_decimal(&row, 2), None);
    assert_eq!(cell_decimal(&row, 3), None);
    assert_eq!(cell_decimal(&row, 4), None);
    assert_eq!(cell_decimal(&row, 5), None);
}

#[test]
fn cells_read_as_door_numbers() {
    let row = vec![text(" 12 "), Cell::Float("5".to_string()), Cell::Float("5.5".to_string()), text("x")];
    assert_eq!(cell_i32(&row, 0), Some(12));
    assert_eq!(cell_i32(&row, 1), Some(5));
    assert_eq!(cell_i32(&row, 2), None);
    assert_eq!(cell_i32(&row, 3), None);
}

#[test]
fn blank_contact_fields_are_absent() {
    assert_eq!(blank_to_absent(""), None);
    assert_eq!(blank_to_absent("  "), None);
    assert_eq!(blank_to_absent("0555"), Some("0555".to_string()));
}

#[test]
fn property_row_maps_to_record() {
    let row = property_row("A-", "3", Cell::Float("5".to_string()), Cell::Float("120.5".to_string()));
    let p = property_from_cells(&row).unwrap();
    assert_eq!(p.daire_no, "A-5");
    assert_eq!(p.blok, "A");
    assert_eq!(p.kat, "3");
    assert_eq!(p.kapi_no, 5);
    assert_eq!(p.oda_sayisi, "3+1");
    assert_eq!(p.daire_tipi, "Daire");
    assert_eq!(p.brut_m2, dec("120.5"));
    assert_eq!(p.net_m2, dec("100"));
    assert_eq!(p.balkon_m2, None);
    assert_eq!(p.cephe, None);
    assert!(!p.kiraci_var_mi);
    assert_eq!(p.sahip_id, None);
}

#[test]
fn property_row_without_block_or_door_is_skipped() {
    let no_block = property_row("  ", "3", Cell::Int(5), Cell::Int(90));
    assert!(property_from_cells(&no_block).is_none());
    let bad_door = property_row("A", "3", text("five"), Cell::Int(90));
    assert!(property_from_cells(&bad_door).is_none());
    let gross_as_text = property_row("A", "", Cell::Int(5), text("90"));
    let p = property_from_cells(&gross_as_text).unwrap();
    assert_eq!(p.brut_m2, dec("0"));
    assert_eq!(p.kat, "");
}

#[test]
fn upsert_creates_then_updates_in_place() {
    let mut store = Store::new();
    assert!(store.upsert_property(record("A5", "1", "100")));
    let id = store.get_property_by_daire_no("A5").unwrap().id;
    let owner = store.get_or_create_customer("Ayşe Kaya", "", "", "", "", "");
    store.set_property_owner(id, owner);
    assert!(!store.upsert_property(record("A5", "7", "140.25")));
    assert_eq!(store.property_count(), 1);
    let p = store.get_property_by_daire_no("A5").unwrap();
    assert_eq!(p.id, id);
    assert_eq!(p.kat, "7");
    assert_eq!(p.brut_m2, dec("140.25"));
    assert_eq!(p.sahip_id, Some(owner));
}

#[test]
fn upsert_of_other_key_creates_another() {
    let mut store = Store::new();
    assert!(store.upsert_property(record("A5", "1", "100")));
    assert!(store.upsert_property(record("A6", "1", "100")));
    assert_eq!(store.property_count(), 2);
    assert!(store.get_property_by_daire_no("A7").is_none());
}

#[test]
fn unknown_unit_skips_row_and_creates_no_customer() {
    let mut store = Store::new();
    store.upsert_property(record("A12-5", "1", "100"));
    let row = customer_row_from_cells(&customer_sheet_row(text("B9001"), "Ali Veli", "0555", "Kiracı")).unwrap();
    assert_eq!(row.daire_no, "B9-1");
    let mut summary = CustomerImportSummary::new();
    summary.record(store.import_customer_row(&row));
    assert_eq!(summary.skipped, 1);
    assert_eq!(summary.processed, 0);
    assert_eq!(store.customer_count(), 0);
}

#[test]
fn same_owner_name_gives_two_customers() {
    let mut store = Store::new();
    let first = store.get_or_create_customer("Ali Veli", "0555", "", "a@x.com", "", "TR");
    let second = store.get_or_create_customer("Ali Veli", "0532", "0212", "", "Ayşe", "");
    assert_ne!(first, second);
    assert_eq!(store.customer_count(), 2);
    let a = store.customer(first).unwrap();
    let b = store.customer(second).unwrap();
    assert_eq!(a.ad_soyad, b.ad_soyad);
    assert_eq!(a.gsm, Some("0555".to_string()));
    assert_eq!(a.telefon, None);
    assert_eq!(a.email, Some("a@x.com".to_string()));
    assert_eq!(b.gsm, Some("0532".to_string()));
    assert_eq!(b.telefon, Some("0212".to_string()));
    assert_eq!(b.acil_kisi, Some("Ayşe".to_string()));
    assert_eq!(b.uyruk, None);
}

#[test]
fn owner_failure_still_flags_tenant() {
    let row = CustomerRow {
        daire_no: "A12-5".to_string(),
        owner: Some(CreateCustomer::from_contact("Ali Veli", "", "", "", "", "")),
        has_tenant: true,
    };
    let step = next_step(&row, RowStep::FindProperty, StoreReply::Found(4));
    assert_eq!(step, RowStep::CreateOwner { property: 4 });
    let step = next_step(&row, step, StoreReply::Failed);
    assert_eq!(step, RowStep::FlagTenant { property: 4 });
    let step = next_step(&row, step, StoreReply::Failed);
    assert_eq!(step, RowStep::Finished(RowOutcome::Processed));
}

#[test]
fn protocol_runs_owner_link_and_tenant() {
    let row = CustomerRow {
        daire_no: "A12-5".to_string(),
        owner: Some(CreateCustomer::from_contact("Ali Veli", "", "", "", "", "")),
        has_tenant: false,
    };
    assert_eq!(
        next_step(&row, RowStep::FindProperty, StoreReply::Missing),
        RowStep::Finished(RowOutcome::Skipped)
    );
    assert_eq!(
        next_step(&row, RowStep::FindProperty, StoreReply::Failed),
        RowStep::Finished(RowOutcome::Skipped)
    );
    let step = next_step(&row, RowStep::CreateOwner { property: 2 }, StoreReply::Created(9));
    assert_eq!(step, RowStep::LinkOwner { property: 2, customer: 9 });
    assert_eq!(next_step(&row, step, StoreReply::Done), RowStep::Finished(RowOutcome::Processed));
    let bare = CustomerRow { daire_no: "A12-5".to_string(), owner: None, has_tenant: true };
    assert_eq!(
        next_step(&bare, RowStep::FindProperty, StoreReply::Found(2)),
        RowStep::FlagTenant { property: 2 }
    );
}

#[test]
fn customer_row_reads_owner_and_tenant() {
    let row = customer_sheet_row(text(" A12005 "), " Ali Veli ", " ", "");
    let r = customer_row_from_cells(&row).unwrap();
    assert_eq!(r.daire_no, "A12-5");
    assert!(!r.has_tenant);
    let owner = r.owner.unwrap();
    assert_eq!(owner.ad_soyad, "Ali Veli");
    assert_eq!(owner.gsm, None);
    assert_eq!(owner.telefon, None);
    assert_eq!(owner.email, Some("owner@example.com".to_string()));
    assert_eq!(owner.acil_kisi, None);
    assert_eq!(owner.uyruk, Some("TR".to_string()));
    let no_owner = customer_sheet_row(Cell::Int(12005), "", "0555", "Veli");
    let r = customer_row_from_cells(&no_owner).unwrap();
    assert_eq!(r.daire_no, "12-5");
    assert!(r.owner.is_none());
    assert!(r.has_tenant);
    assert!(customer_row_from_cells(&customer_sheet_row(text("  "), "Ali", "", "")).is_none());
}

#[test]
fn customer_import_end_to_end() {
    let mut store = Store::new();
    store.upsert_property(record("A12-5", "1", "100"));
    let header = customer_sheet_row(text("Daire No"), "Sahip", "GSM", "Kiracı");
    let blank = customer_sheet_row(Cell::Other, "Nobody", "", "Nobody");
    let matching = customer_sheet_row(text("A12005"), "Ali Veli", "0555", "Mehmet");
    let missing = customer_sheet_row(text("Z9009"), "Can", "", "");
    let sheet = vec![header, blank, matching, missing];
    let summary = store.import_customers(&sheet);
    assert_eq!(summary.processed, 1);
    assert_eq!(summary.skipped, 1);
    assert_eq!(summary.message(), "1 kayıt işlendi, 1 atlandı.");
    assert_eq!(store.customer_count(), 1);
    let p = store.get_property_by_daire_no("A12-5").unwrap();
    assert!(p.kiraci_var_mi);
    let owner = p.sahip_id.unwrap();
    assert_eq!(store.customer(owner).unwrap().ad_soyad, "Ali Veli");
    assert_eq!(store.customer(owner).unwrap().gsm, Some("0555".to_string()));
}

#[test]
fn customer_import_of_header_only() {
    let mut store = Store::new();
    let summary = store.import_customers(&vec![customer_sheet_row(text("A12005"), "Ali", "", "x")]);
    assert_eq!(summary.processed, 0);
    assert_eq!(summary.skipped, 0);
    let summary = store.import_customers(&vec![]);
    assert_eq!(summary.processed + summary.skipped, 0);
}

#[test]
fn property_import_counts_created_and_updated() {
    let mut store = Store::new();
    store.upsert_property(record("B3", "1", "100"));
    let sheet = vec![
        property_row("A-", "1", Cell::Int(5), Cell::Int(90)),
        property_row("B", "2", Cell::Int(3), Cell::Int(95)),
        property_row("", "2", Cell::Int(3), Cell::Int(95)),
        property_row("A-", "4", Cell::Float("5".to_string()), Cell::Float("91.5".to_string())),
    ];
    let summary = store.import_properties(&sheet);
    assert_eq!(summary.created, 1);
    assert_eq!(summary.updated, 2);
    assert_eq!(summary.errors, 0);
    assert_eq!(store.property_count(), 2);
    let p = store.get_property_by_daire_no("A-5").unwrap();
    assert_eq!(p.kat, "4");
    assert_eq!(p.brut_m2, dec("91.5"));
    assert_eq!(store.get_property_by_daire_no("B3").unwrap().kat, "2");
}

#[test]
fn summaries_count_each_outcome() {
    let mut s = PropertyImportSummary::new();
    s.record(Some(true));
    s.record(Some(false));
    s.record(Some(false));
    s.record(None);
    assert_eq!((s.created, s.updated, s.errors), (1, 2, 1));
    assert_eq!(s.message(), "1 oluşturuldu, 2 güncellendi, 1 hata");
    let mut c = CustomerImportSummary::new();
    c.record(RowOutcome::Processed);
    c.record(RowOutcome::Skipped);
    c.record(RowOutcome::Skipped);
    assert_eq!((c.processed, c.skipped), (1, 2));
    assert_eq!(c.message(), "1 kayıt işlendi, 2 atlandı.");
    assert_eq!(CustomerImportSummary::new().message(), "0 kayıt işlendi, 0 atlandı.");
}
