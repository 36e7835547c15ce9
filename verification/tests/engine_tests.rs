use pos_core::pos::CartItem;
use pos_core::store::Store;
use pos_core::StoreError;

fn cart_line(id: i64, name: &str, price_cents: u64, quantity: u32) -> CartItem {
    CartItem { id, name: name.to_string(), price_cents, quantity }
}

#[test]
fn add_then_list_inventory() {
    let mut store = Store::new();
    let p = store.add_product("Coffee".to_string(), 350, 10).unwrap();
    assert_eq!(p.id, 1);
    assert_eq!(p.name, "Coffee");
    assert_eq!(p.price_cents, 350);
    assert_eq!(p.stock, 10);
    let all = store.get_inventory();
    assert_eq!(all.len(), 1);
    assert_eq!(all[0].id, 1);
    assert_eq!(all[0].name, "Coffee");
}

#[test]
fn coffee_checkout_example() {
    // Add Coffee at 3.50 with stock 10; sell two units: the total is
    // 7.00 and the stock drops to 8.
    let mut store = Store::new();
    let p = store.add_product("Coffee".to_string(), 350, 10).unwrap();
    let t = store.checkout(vec![cart_line(p.id, "Coffee", 350, 2)], 100).unwrap();
    assert_eq!(t.total_paid_cents, 700);
    assert_eq!(t.id, 1);
    assert_eq!(t.date, 100);
    assert_eq!(t.items.len(), 1);
    let all = store.get_inventory();
    assert_eq!(all[0].stock, 8);
}

#[test]
fn checkout_total_sums_all_lines() {
    let mut store = Store::new();
    let a = store.add_product("A".to_string(), 199, 50).unwrap();
    let b = store.add_product("B".to_string(), 1000, 50).unwrap();
    let t = store
        .checkout(
            vec![cart_line(a.id, "A", 199, 3), cart_line(b.id, "B", 1000, 2)],
            7,
        )
        .unwrap();
    assert_eq!(t.total_paid_cents, 3 * 199 + 2 * 1000);
}

#[test]
fn checkout_decrements_only_named_products() {
    let mut store = Store::new();
    let a = store.add_product("A".to_string(), 100, 10).unwrap();
    let b = store.add_product("B".to_string(), 100, 10).unwrap();
    let c = store.add_product("C".to_string(), 100, 10).unwrap();
    store
        .checkout(
            vec![cart_line(a.id, "A", 100, 4), cart_line(c.id, "C", 100, 1)],
            1,
        )
        .unwrap();
    let all = store.get_inventory();
    assert_eq!(all[0].stock, 6);
    assert_eq!(all[1].stock, 10);
    assert_eq!(all[2].stock, 4 + 5);
    assert_eq!(b.stock, 10);
}

#[test]
fn checkout_rejecting_last_line_changes_nothing() {
    // A failure on the last cart line must leave no sale, no line
    // items and no stock change behind.
    let mut store = Store::new();
    let a = store.add_product("A".to_string(), 100, 10).unwrap();
    let r = store.checkout(
        vec![cart_line(a.id, "A", 100, 2), cart_line(999, "Ghost", 100, 1)],
        1,
    );
    assert!(matches!(r, Err(StoreError::NotFound)));
    assert_eq!(store.get_inventory()[0].stock, 10);
    assert_eq!(store.get_sales_transactions().len(), 0);
    let perf = store.get_product_performance().unwrap();
    assert_eq!(perf[0].sales_count, 0);
    assert_eq!(perf[0].revenue_cents, 0);
}

#[test]
fn checkout_rejects_empty_cart() {
    let mut store = Store::new();
    let r = store.checkout(Vec::new(), 1);
    assert!(matches!(r, Err(StoreError::Validation)));
}

#[test]
fn checkout_rejects_zero_quantity() {
    let mut store = Store::new();
    let a = store.add_product("A".to_string(), 100, 10).unwrap();
    let r = store.checkout(vec![cart_line(a.id, "A", 100, 0)], 1);
    assert!(matches!(r, Err(StoreError::Validation)));
}

#[test]
fn checkout_rejects_total_overflow() {
    let mut store = Store::new();
    let a = store.add_product("A".to_string(), u64::MAX, 10).unwrap();
    let r = store.checkout(vec![cart_line(a.id, "A", u64::MAX, 2)], 1);
    assert!(matches!(r, Err(StoreError::Overflow)));
    assert_eq!(store.get_inventory()[0].stock, 10);
}

#[test]
fn checkout_may_drive_stock_negative() {
    // The engine does not rule on overselling: the decrement simply
    // goes below zero, as the storage column would.
    let mut store = Store::new();
    let a = store.add_product("A".to_string(), 100, 1).unwrap();
    store.checkout(vec![cart_line(a.id, "A", 100, 3)], 1).unwrap();
    assert_eq!(store.get_inventory()[0].stock, -2);
}

#[test]
fn update_product_overwrites_fields() {
    let mut store = Store::new();
    let p = store.add_product("Old".to_string(), 100, 1).unwrap();
    let q = store.update_product(p.id, "New".to_string(), 250, 7).unwrap();
    assert_eq!(q.name, "New");
    let all = store.get_inventory();
    assert_eq!(all[0].name, "New");
    assert_eq!(all[0].price_cents, 250);
    assert_eq!(all[0].stock, 7);
}

#[test]
fn update_missing_product_is_not_found() {
    let mut store = Store::new();
    store.add_product("A".to_string(), 100, 1).unwrap();
    let r = store.update_product(42, "B".to_string(), 1, 1);
    assert!(matches!(r, Err(StoreError::NotFound)));
    let all = store.get_inventory();
    assert_eq!(all.len(), 1);
    assert_eq!(all[0].name, "A");
    assert_eq!(all[0].price_cents, 100);
}

#[test]
fn delete_missing_product_is_not_found() {
    let mut store = Store::new();
    store.add_product("A".to_string(), 100, 1).unwrap();
    let r = store.delete_product(42);
    assert!(matches!(r, Err(StoreError::NotFound)));
    assert_eq!(store.get_inventory().len(), 1);
}

#[test]
fn delete_product_removes_it() {
    let mut store = Store::new();
    let a = store.add_product("A".to_string(), 100, 1).unwrap();
    store.add_product("B".to_string(), 200, 2).unwrap();
    store.delete_product(a.id).unwrap();
    let all = store.get_inventory();
    assert_eq!(all.len(), 1);
    assert_eq!(all[0].name, "B");
}
