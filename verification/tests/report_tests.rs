use pos_core::pos::CartItem;
use pos_core::store::Store;

fn cart_line(id: i64, name: &str, price_cents: u64, quantity: u32) -> CartItem {
    CartItem { id, name: name.to_string(), price_cents, quantity }
}

#[test]
fn performance_revenue_uses_snapshot_prices() {
    // Sell at 3.50, then raise the catalog price: the report keeps
    // the revenue earned at the old price.
    let mut store = Store::new();
    let p = store.add_product("Coffee".to_string(), 350, 10).unwrap();
    store.checkout(vec![cart_line(p.id, "Coffee", 350, 2)], 1).unwrap();
    store.update_product(p.id, "Coffee".to_string(), 999, 8).unwrap();
    let perf = store.get_product_performance().unwrap();
    assert_eq!(perf.len(), 1);
    assert_eq!(perf[0].sales_count, 2);
    assert_eq!(perf[0].revenue_cents, 700);
    assert_eq!(perf[0].stock, 8);
}

#[test]
fn performance_lists_unsold_products_with_zeroes() {
    let mut store = Store::new();
    store.add_product("Quiet".to_string(), 100, 3).unwrap();
    let perf = store.get_product_performance().unwrap();
    assert_eq!(perf.len(), 1);
    assert_eq!(perf[0].sales_count, 0);
    assert_eq!(perf[0].revenue_cents, 0);
}

#[test]
fn low_stock_keeps_only_products_under_five() {
    let mut store = Store::new();
    store.add_product("Scarce".to_string(), 100, 4).unwrap();
    store.add_product("Plenty".to_string(), 100, 5).unwrap();
    store.add_product("Gone".to_string(), 100, 0).unwrap();
    let low = store.get_low_stock_products().unwrap();
    assert_eq!(low.len(), 2);
    assert_eq!(low[0].name, "Scarce");
    assert_eq!(low[1].name, "Gone");
}

#[test]
fn transactions_come_newest_first_with_names() {
    let mut store = Store::new();
    let a = store.add_product("Apple".to_string(), 50, 99).unwrap();
    let b = store.add_product("Bread".to_string(), 120, 99).unwrap();
    store.checkout(vec![cart_line(a.id, "Apple", 50, 1)], 10).unwrap();
    store
        .checkout(
            vec![cart_line(a.id, "Apple", 50, 2), cart_line(b.id, "Bread", 120, 1)],
            30,
        )
        .unwrap();
    store.checkout(vec![cart_line(b.id, "Bread", 120, 1)], 20).unwrap();
    let txns = store.get_sales_transactions();
    assert_eq!(txns.len(), 3);
    assert_eq!(txns[0].date, 30);
    assert_eq!(txns[1].date, 20);
    assert_eq!(txns[2].date, 10);
    assert_eq!(txns[0].items, vec!["Apple".to_string(), "Bread".to_string()]);
    assert_eq!(txns[1].items, vec!["Bread".to_string()]);
    assert_eq!(txns[2].items, vec!["Apple".to_string()]);
    assert_eq!(txns[0].total_paid_cents, 220);
}

#[test]
fn transactions_drop_names_of_deleted_products() {
    let mut store = Store::new();
    let a = store.add_product("Apple".to_string(), 50, 9).unwrap();
    let b = store.add_product("Bread".to_string(), 120, 9).unwrap();
    store
        .checkout(
            vec![cart_line(a.id, "Apple", 50, 1), cart_line(b.id, "Bread", 120, 1)],
            5,
        )
        .unwrap();
    store.delete_product(a.id).unwrap();
    let txns = store.get_sales_transactions();
    assert_eq!(txns.len(), 1);
    assert_eq!(txns[0].items, vec!["Bread".to_string()]);
    assert_eq!(txns[0].total_paid_cents, 170);
}

#[test]
fn revenue_windows_nest() {
    // Sales at times 5, 15 and 25; the windows open at 20 (day), 10
    // (week) and 0 (month), all closing at 30.
    let mut store = Store::new();
    let p = store.add_product("P".to_string(), 100, 99).unwrap();
    store.checkout(vec![cart_line(p.id, "P", 100, 1)], 5).unwrap();
    store.checkout(vec![cart_line(p.id, "P", 100, 2)], 15).unwrap();
    store.checkout(vec![cart_line(p.id, "P", 100, 4)], 25).unwrap();
    let overview = store.get_revenue_overview(30, 20, 10, 0).unwrap();
    assert_eq!(overview.daily_cents, 400);
    assert_eq!(overview.weekly_cents, 600);
    assert_eq!(overview.monthly_cents, 700);
    assert!(overview.daily_cents <= overview.weekly_cents);
    assert!(overview.weekly_cents <= overview.monthly_cents);
}

#[test]
fn revenue_overview_of_empty_history_is_zero() {
    let store = Store::new();
    let overview = store.get_revenue_overview(100, 90, 50, 0).unwrap();
    assert_eq!(overview.daily_cents, 0);
    assert_eq!(overview.weekly_cents, 0);
    assert_eq!(overview.monthly_cents, 0);
}

#[test]
fn performance_overflow_is_reported_not_wrapped() {
    // Two sales of near-maximal totals push one product's revenue
    // past what a column can hold: the report refuses rather than
    // return a wrapped figure.
    let mut store = Store::new();
    let p = store.add_product("Gold".to_string(), u64::MAX / 2 + 1, 3).unwrap();
    store
        .checkout(vec![cart_line(p.id, "Gold", u64::MAX / 2 + 1, 1)], 1)
        .unwrap();
    store
        .checkout(vec![cart_line(p.id, "Gold", u64::MAX / 2 + 1, 1)], 2)
        .unwrap();
    assert!(store.get_product_performance().is_err());
    assert!(store.get_low_stock_products().is_err());
    assert!(store.get_revenue_overview(10, 0, 0, 0).is_err());
}
