use invoicy::amount::{decimal_text, fixed_point_text, numeric_cell, parse_amount};
use invoicy::grid::{Cell, GridStore, PRICE_COLUMN, QUANTITY_COLUMN, TOTAL_COLUMN};
use invoicy::identity::{compose_entry_id, generate_customer_code, next_estimate_number};
use invoicy::layout::document_rows;
use invoicy::projector::{project_line_item, project_row};
use invoicy::records::{DatabaseData, LedgerError};
use invoicy::totals::{contains_field, TotalsCache};

fn record(code: &str, estimate: usize, row: usize) -> DatabaseData {
    DatabaseData {
        entry_id: format!("{}-{}-{}", code, estimate, row),
        estimate_number: estimate,
        cust_id: code.to_string(),
        row_number: row,
        description: String::new(),
        quantity: 0,
        price: 0,
        total: 0,
    }
}

fn grid_with(quantity: &str, price: &str) -> GridStore {
    let mut g = GridStore::new();
    g.ensure_row(0);
    g.set(0, QUANTITY_COLUMN, quantity.to_string());
    g.set(0, PRICE_COLUMN, price.to_string());
    g
}

#[test]
fn projection_of_three_by_four_and_a_half() {
    let g = grid_with("3", "4.5");
    let v = project_row(&g, 0);
    assert_eq!(v.quantity, 3000);
    assert_eq!(v.price, 4500);
    assert_eq!(v.total, 13_500_000);
    assert_eq!(fixed_point_text(v.total as i128, 6), "13.5");
}

#[test]
fn non_numeric_quantity_reads_as_zero() {
    let g = grid_with("abc", "4.5");
    let v = project_row(&g, 0);
    assert_eq!(v.quantity, 0);
    assert_eq!(v.total, 0);
}

#[test]
fn total_ignores_text_in_total_cell() {
    let mut g = grid_with("2", "5");
    g.set(0, TOTAL_COLUMN, "999".to_string());
    let v = project_row(&g, 0);
    assert_eq!(v.total, v.quantity * v.price);
    assert_eq!(v.total, 10_000_000);
}

#[test]
fn amount_parsing_forms() {
    assert_eq!(parse_amount("4.5"), Some(4500));
    assert_eq!(parse_amount("-0.25"), Some(-250));
    assert_eq!(parse_amount("+7"), Some(7000));
    assert_eq!(parse_amount(".5"), Some(500));
    assert_eq!(parse_amount("3."), Some(3000));
    assert_eq!(parse_amount("999999.999"), Some(999_999_999));
    assert_eq!(parse_amount("1234567"), None);
    assert_eq!(parse_amount("1000000"), None);
    assert_eq!(parse_amount("0001"), Some(1000));
    assert_eq!(parse_amount("1.2345"), Some(1235));
    assert_eq!(parse_amount("1.2344999"), Some(1234));
    assert_eq!(parse_amount("0.0005"), Some(1));
    assert_eq!(parse_amount("0.0004"), Some(0));
    assert_eq!(parse_amount("-0.0005"), Some(-1));
    assert_eq!(parse_amount("999999.9995"), Some(1_000_000_000));
    assert_eq!(parse_amount("1.23x"), None);
    assert_eq!(parse_amount(""), None);
    assert_eq!(parse_amount("-"), None);
    assert_eq!(parse_amount("1.2.3"), None);
    assert_eq!(parse_amount(" 3"), None);
    assert_eq!(numeric_cell("(0, 2)"), 0);
}

#[test]
fn fixed_point_text_forms() {
    assert_eq!(fixed_point_text(10_000_000, 6), "10");
    assert_eq!(fixed_point_text(0, 6), "0");
    assert_eq!(fixed_point_text(-250_000, 6), "-0.25");
    assert_eq!(fixed_point_text(1_000_001, 6), "1.000001");
    assert_eq!(fixed_point_text(i128::MIN, 0), "-170141183460469231731687303715884105728");
    assert_eq!(decimal_text(0), "0");
    assert_eq!(decimal_text(1234), "1234");
}

#[test]
fn customer_code_of_acme_corporation() {
    assert_eq!(generate_customer_code("Acme Corporation"), Ok("ACME".to_string()));
}

#[test]
fn customer_code_of_short_name_fails() {
    assert_eq!(generate_customer_code("Ace"), Err(LedgerError::NameTooShort));
    assert_eq!(generate_customer_code("widg"), Ok("WIDG".to_string()));
}

#[test]
fn next_estimate_number_sequences_per_code() {
    let empty: Vec<DatabaseData> = Vec::new();
    assert_eq!(next_estimate_number(&empty, &"ACME".to_string()), Some(1));
    let history = vec![record("ACME", 1, 0), record("WIDG", 1, 0), record("ACME", 2, 0)];
    assert_eq!(next_estimate_number(&history, &"ACME".to_string()), Some(3));
    assert_eq!(next_estimate_number(&history, &"WIDG".to_string()), Some(2));
    assert_eq!(next_estimate_number(&history, &"ZZZZ".to_string()), Some(1));
}

#[test]
fn next_estimate_number_overflow_is_none() {
    let history = vec![record("ACME", usize::MAX, 0)];
    assert_eq!(next_estimate_number(&history, &"ACME".to_string()), None);
}

#[test]
fn entry_id_composition() {
    assert_eq!(compose_entry_id("ACME", 3, 2), "ACME-3-2");
}

#[test]
fn line_item_of_a_row() {
    let mut g = grid_with("2", "1.25");
    g.set(0, 1, "Widgets".to_string());
    let item = project_line_item(&g, 0, &"ACME".to_string(), 4);
    assert_eq!(item.entry_id, "ACME-4-0");
    assert_eq!(item.cust_id, "ACME");
    assert_eq!(item.description, "Widgets");
    assert_eq!(item.quantity, 2000);
    assert_eq!(item.price, 1250);
    assert_eq!(item.total, 2_500_000);
}

#[test]
fn grand_total_is_order_independent_and_overwrites() {
    let mut a = TotalsCache::new();
    a.upsert((0, 4), 10_000_000);
    a.upsert((1, 4), 5_000_000);
    let mut b = TotalsCache::new();
    b.upsert((1, 4), 5_000_000);
    b.upsert((0, 4), 10_000_000);
    assert_eq!(a.grand_total(), 15_000_000);
    assert_eq!(b.grand_total(), 15_000_000);
    a.upsert((0, 4), 12_000_000);
    assert_eq!(a.grand_total(), 17_000_000);
    assert_eq!(a.entries().len(), 2);
    assert!(contains_field(a.entries(), &(0, 4)));
    assert!(!contains_field(a.entries(), &(2, 4)));
}

#[test]
fn grid_set_and_get() {
    let mut g = GridStore::new();
    assert_eq!(g.get(0, 0), None);
    g.ensure_row(2);
    assert_eq!(g.get(2, 0).map(|s| s.as_str()), Some("2"));
    assert_eq!(g.get(2, 3).map(|s| s.as_str()), Some("(2, 3)"));
    assert_eq!(g.get(2, 4).map(|s| s.as_str()), Some("(2, 4)"));
    g.set(2, 3, "9".to_string());
    g.ensure_row(2);
    assert_eq!(g.get(2, 3).map(|s| s.as_str()), Some("9"));
    assert_eq!(g.cells().len(), 5);
}

#[test]
fn document_rows_skip_row_numbers() {
    let mut g = GridStore::new();
    g.ensure_row(0);
    g.ensure_row(1);
    g.set(1, 1, "Bolts".to_string());
    let rows = document_rows(g.cells());
    assert_eq!(rows.len(), 2);
    assert_eq!(rows[0], vec!["(0, 1)", "(0, 2)", "(0, 3)", "(0, 4)"]);
    assert_eq!(rows[1], vec!["Bolts", "(1, 2)", "(1, 3)", "(1, 4)"]);
    let empty = GridStore::new();
    assert!(document_rows(empty.cells()).is_empty());
}

#[test]
fn grid_rows_are_distinct_and_ordered() {
    let mut g = GridStore::new();
    assert!(g.rows().is_empty());
    g.ensure_row(3);
    g.ensure_row(1);
    g.set(7, 2, "x".to_string());
    g.ensure_row(3);
    assert_eq!(g.rows(), vec![1, 3, 7]);
}

fn cell(text: &str, row: usize, column: usize) -> Cell {
    Cell {
        text: text.to_string(),
        row,
        column,
    }
}

#[test]
fn document_rows_show_last_duplicate_once() {
    let cells = vec![
        cell("0", 0, 0),
        cell("a", 0, 1),
        cell("q", 0, 2),
        cell("b", 0, 1),
    ];
    let rows = document_rows(&cells);
    assert_eq!(rows, vec![vec!["b".to_string(), "q".to_string()]]);
}

#[test]
fn largest_amounts_multiply_exactly() {
    let g = grid_with("999999.9995", "-999999.9995");
    let v = project_row(&g, 0);
    assert_eq!(v.total, -1_000_000_000_000_000_000);
}
