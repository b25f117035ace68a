use invoicy::invoicy::{logo_within_limit, Invoicy};
use invoicy::records::{Customer, DatabaseData, LedgerError};

fn customer(company: &str) -> Customer {
    Customer {
        company: company.to_string(),
        address: String::new(),
        city: String::new(),
        postal_code: String::new(),
        country: String::new(),
    }
}

fn editor_with(company: &str) -> Invoicy {
    let mut s = Invoicy::new();
    s.customers.push(customer(company));
    s
}

#[test]
fn refresh_writes_totals_and_grand_total() {
    let mut s = Invoicy::new();
    s.add_row();
    s.refresh_table();
    assert_eq!(s.last_updated_row, 2);
    s.table_data.set(0, 2, "3".to_string());
    s.table_data.set(0, 3, "4.5".to_string());
    s.table_data.set(1, 2, "2".to_string());
    s.table_data.set(1, 3, "0.25".to_string());
    s.refresh_table();
    assert_eq!(s.grand_total, 14_000_000);
    assert_eq!(s.table_data.get(0, 4).map(|t| t.as_str()), Some("13.5"));
    assert_eq!(s.table_data.get(1, 4).map(|t| t.as_str()), Some("0.5"));
}

#[test]
fn refresh_twice_is_idempotent() {
    let mut s = Invoicy::new();
    s.refresh_table();
    s.table_data.set(0, 2, "7".to_string());
    s.table_data.set(0, 3, "1.5".to_string());
    s.refresh_table();
    let first = s.grand_total;
    s.refresh_table();
    assert_eq!(s.grand_total, first);
    assert_eq!(first, 10_500_000);
}

#[test]
fn deleted_rows_keep_their_cached_total() {
    let mut s = Invoicy::new();
    s.add_row();
    s.refresh_table();
    s.table_data.set(1, 2, "1".to_string());
    s.table_data.set(1, 3, "2".to_string());
    s.refresh_table();
    assert_eq!(s.grand_total, 2_000_000);
    s.delete_row();
    s.refresh_table();
    assert_eq!(s.row_count, 1);
    assert_eq!(s.grand_total, 2_000_000);
    assert_eq!(s.table_data.get(1, 2).map(|t| t.as_str()), Some("1"));
}

#[test]
fn estimate_number_and_file_name_follow_history() {
    let mut s = editor_with("Acme Corporation");
    s.update_estimate_number().unwrap();
    assert_eq!(s.current_row_value.estimate_number, 1);
    s.refresh_table();
    let start = s.add_data().unwrap();
    assert_eq!(start, 0);
    assert_eq!(s.database_data_vec.len(), 1);
    assert_eq!(s.database_data_vec[0].entry_id, "ACME-1-0");
    s.update_estimate_number().unwrap();
    assert_eq!(s.current_row_value.estimate_number, 2);
    s.update_file_name().unwrap();
    assert_eq!(s.file_name, "acme_corporation-2");
}

#[test]
fn editor_errors() {
    let mut s = Invoicy::new();
    assert_eq!(s.update_estimate_number(), Err(LedgerError::NoCustomer));
    assert_eq!(s.update_file_name(), Err(LedgerError::NoCustomer));
    assert_eq!(s.add_data(), Err(LedgerError::NoCustomer));
    let mut t = editor_with("Ace");
    assert_eq!(t.generate_customer_id(0), Err(LedgerError::NameTooShort));
    assert_eq!(t.customer_select(0), Err(LedgerError::NameTooShort));
    assert_eq!(t.add_data(), Err(LedgerError::NameTooShort));
    assert_eq!(t.customer_select(3), Err(LedgerError::NoCustomer));
}

#[test]
fn estimate_overflow_is_reported() {
    let mut s = editor_with("Acme");
    s.database_data_vec.push(DatabaseData {
        entry_id: "ACME-x".to_string(),
        estimate_number: usize::MAX,
        cust_id: "ACME".to_string(),
        row_number: 0,
        description: String::new(),
        quantity: 0,
        price: 0,
        total: 0,
    });
    assert_eq!(s.update_estimate_number(), Err(LedgerError::EstimateOverflow));
}

#[test]
fn customer_select_stamps_code() {
    let mut s = editor_with("Widget Works");
    s.customer_select(0).unwrap();
    assert_eq!(s.current_row_value.cust_id, "WIDG");
    s.contact_select(5);
    assert_eq!(s.contact_selected, 0);
}

#[test]
fn logo_limit() {
    assert!(logo_within_limit(15360));
    assert!(!logo_within_limit(15361));
}

#[test]
fn initialize_application_loads_records() {
    let mut s = Invoicy::new();
    let history = vec![DatabaseData {
        entry_id: "ACME-1-0".to_string(),
        estimate_number: 1,
        cust_id: "ACME".to_string(),
        row_number: 0,
        description: String::new(),
        quantity: 0,
        price: 0,
        total: 0,
    }];
    s.initialize_application(Vec::new(), vec![customer("Acme")], history);
    assert_eq!(s.file_name, "fake_co__2-1");
    assert_eq!(s.customers.len(), 1);
    assert_eq!(s.database_data_vec.len(), 1);
    assert_eq!(s.totals.entries().len(), 1);
    s.update_estimate_number().unwrap();
    assert_eq!(s.current_row_value.estimate_number, 2);
}
