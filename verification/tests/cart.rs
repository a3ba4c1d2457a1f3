use dmhelper::cart::Cart;
use dmhelper::record::ProductRecord;
use dmhelper::service::normalize_identifier;

fn record(identifier: &str, cents: u64) -> ProductRecord {
    ProductRecord {
        identifier: identifier.to_string(),
        name: format!("product {identifier}"),
        unit_price_cents: cents,
        image_reference: None,
    }
}

#[test]
fn adding_the_same_record_twice_merges_into_one_line() {
    let mut cart = Cart::new();
    cart.add_or_merge(record("a", 299), 3);
    cart.add_or_merge(record("a", 299), 2);
    assert_eq!(cart.line_count(), 1);
    assert_eq!(cart.quantity_of("a"), 5);
}

#[test]
fn zero_quantity_leaves_the_cart_unchanged() {
    let mut cart = Cart::new();
    cart.add_or_merge(record("a", 299), 0);
    assert_eq!(cart.line_count(), 0);
    cart.add_or_merge(record("a", 299), 2);
    cart.add_or_merge(record("b", 150), 0);
    cart.add_or_merge(record("a", 299), 0);
    assert_eq!(cart.line_count(), 1);
    assert_eq!(cart.quantity_of("a"), 2);
    assert_eq!(cart.quantity_of("b"), 0);
}

#[test]
fn merge_keeps_the_first_seen_price() {
    let mut cart = Cart::new();
    cart.add_or_merge(record("a", 299), 1);
    cart.add_or_merge(record("a", 150), 2);
    assert_eq!(cart.line_count(), 1);
    let line = cart.line(0);
    assert_eq!(line.record.unit_price_cents, 299);
    assert_eq!(line.quantity, 3);
}

#[test]
fn lines_keep_insertion_order() {
    let mut cart = Cart::new();
    cart.add_or_merge(record("a", 100), 1);
    cart.add_or_merge(record("b", 200), 1);
    cart.add_or_merge(record("c", 300), 1);
    cart.add_or_merge(record("b", 200), 1);
    assert_eq!(cart.line_count(), 3);
    assert_eq!(cart.line(0).record.identifier, "a");
    assert_eq!(cart.line(1).record.identifier, "b");
    assert_eq!(cart.line(2).record.identifier, "c");
    assert_eq!(cart.line(1).quantity, 2);
}

#[test]
fn total_sums_price_times_quantity() {
    let mut cart = Cart::new();
    cart.add_or_merge(record("a", 299), 2);
    cart.add_or_merge(record("b", 150), 1);
    assert_eq!(cart.total_cents(), Some(748));
}

#[test]
fn empty_cart_totals_zero() {
    let cart = Cart::new();
    assert_eq!(cart.total_cents(), Some(0));
}

#[test]
fn conversion_applies_a_fixed_point_rate() {
    // A rate of 4.500 target units per unit, given in thousandths.
    assert_eq!(Cart::convert_cents(748, 4500), Some(3366));
    assert_eq!(Cart::convert_cents(748, 1000), Some(748));
    assert_eq!(Cart::convert_cents(0, 4500), Some(0));
    assert_eq!(Cart::convert_cents(u64::MAX, 2), None);
}

#[test]
fn identifier_normalization_trims_and_lowercases() {
    assert_eq!(normalize_identifier(" AbC12 \t"), "abc12");
    assert_eq!(normalize_identifier("4008400109609"), "4008400109609");
    assert_eq!(normalize_identifier("   "), "");
    assert_eq!(normalize_identifier(""), "");
    assert_eq!(normalize_identifier("\n X Y \r"), "x y");
}
