use cart_pricing::cart::Cart;
use cart_pricing::item::Item;
use cart_pricing::tax::Tax;

/// The receipt rows with their amounts turned from minor units into
/// real-valued currency amounts, as a presenter would show them.
fn as_real_rows(rows: Vec<(String, u32)>) -> Vec<(String, f64)> {
    rows.into_iter().map(|(label, cents)| (label, cents as f64 / 100.0)).collect()
}

#[test]
fn test_cart() {
    let mut cart = Cart::new();

    cart.add(1, Item::new("Book", 1249, Tax::Tax0));
    cart.add(2, Item::new("Book", 1249, Tax::Tax0));

    assert_eq!(1, cart.len());
    let receipt = cart.receipt().unwrap();
    assert_eq!(("3 Book".to_string(), 3747), receipt[0]);
}

#[test]
fn test_example_input_1() {
    let cart = Cart::from(vec![
        (1, Item::new("Book", 1249, Tax::Tax0)),
        (1, Item::new("Music CD", 1499, Tax::Tax10)),
        (1, Item::new("Chocolate Bar", 85, Tax::Tax0)),
    ]);

    let receipt = vec![
        ("1 Book".to_string(), 12.49),
        ("1 Music CD".to_string(), 16.49),
        ("1 Chocolate Bar".to_string(), 0.85),
        ("Sales Taxes".to_string(), 1.50),
        ("Total".to_string(), 29.83),
    ];

    assert_eq!(receipt, as_real_rows(cart.receipt().unwrap()));
    assert_eq!(1.50, cart.total_taxes().unwrap() as f64 / 100.0);
    assert_eq!(29.83, cart.total().unwrap() as f64 / 100.0);
}

#[test]
fn test_example_input_2() {
    let cart = Cart::from(vec![
        (1, Item::new("Imported Box of Chocolates", 1000, Tax::Tax5)),
        (1, Item::new("Imported Bottle of Perfume", 4750, Tax::Tax15)),
    ]);

    let receipt = vec![
        ("1 Imported Box of Chocolates".to_string(), 10.50),
        ("1 Imported Bottle of Perfume".to_string(), 54.65),
        ("Sales Taxes".to_string(), 7.65),
        ("Total".to_string(), 65.15),
    ];

    assert_eq!(receipt, as_real_rows(cart.receipt().unwrap()));
    assert_eq!(7.65, cart.total_taxes().unwrap() as f64 / 100.0);
    assert_eq!(65.15, cart.total().unwrap() as f64 / 100.0);
}

#[test]
fn test_example_input_3() {
    let cart = Cart::from(vec![
        (1, Item::new("Imported Bottle of Perfume", 2799, Tax::Tax15)),
        (1, Item::new("Bottle of Perfume", 1899, Tax::Tax10)),
        (1, Item::new("Packet of Headache Pills", 975, Tax::Tax0)),
        (1, Item::new("Box of Imported Chocolates", 1125, Tax::Tax5)),
    ]);

    let receipt = vec![
        ("1 Imported Bottle of Perfume".to_string(), 32.19),
        ("1 Bottle of Perfume".to_string(), 20.89),
        ("1 Packet of Headache Pills".to_string(), 9.75),
        ("1 Box of Imported Chocolates".to_string(), 11.85),
        ("Sales Taxes".to_string(), 6.70),
        ("Total".to_string(), 74.68),
    ];

    assert_eq!(receipt, as_real_rows(cart.receipt().unwrap()));
    assert_eq!(6.70, cart.total_taxes().unwrap() as f64 / 100.0);
    assert_eq!(74.68, cart.total().unwrap() as f64 / 100.0);
}

#[test]
fn test_example_input_4() {
    let cart = Cart::from(vec![
        (1, Item::new("Book", 1249, Tax::Tax0)),
        (1, Item::new("Book", 1249, Tax::Tax0)),
        (3, Item::new("Music CD", 1499, Tax::Tax10)),
        (4, Item::new("Chocolate Bar", 85, Tax::Tax0)),
    ]);

    let receipt = vec![
        ("2 Book".to_string(), 24.98),
        ("3 Music CD".to_string(), 49.47),
        ("4 Chocolate Bar".to_string(), 3.40),
        ("Sales Taxes".to_string(), 4.50),
        ("Total".to_string(), 77.85),
    ];

    assert_eq!(receipt, as_real_rows(cart.receipt().unwrap()));
    assert_eq!(4.50, cart.total_taxes().unwrap() as f64 / 100.0);
    assert_eq!(77.85, cart.total().unwrap() as f64 / 100.0);
}

#[test]
fn test_reading_twice_is_idempotent() {
    let cart = Cart::from(vec![
        (2, Item::new("Book", 1249, Tax::Tax0)),
        (1, Item::new("Music CD", 1499, Tax::Tax10)),
    ]);

    assert_eq!(cart.receipt(), cart.receipt());
    assert_eq!(cart.total(), cart.total());
    assert_eq!(cart.total_taxes(), cart.total_taxes());
}

#[test]
fn test_first_seen_price_and_tax_win() {
    let mut cart = Cart::new();
    cart.add(1, Item::new("Book", 1249, Tax::Tax0));
    cart.add(1, Item::new("Book", 9999, Tax::Tax15));

    assert_eq!(1, cart.len());
    let receipt = cart.receipt().unwrap();
    assert_eq!(("2 Book".to_string(), 2498), receipt[0]);
}

#[test]
fn test_quantity_saturates_instead_of_wrapping() {
    let mut cart = Cart::new();
    cart.add(u32::MAX, Item::new("Nothing", 0, Tax::Tax0));
    cart.add(5, Item::new("Nothing", 0, Tax::Tax0));

    let receipt = cart.receipt().unwrap();
    assert_eq!(("4294967295 Nothing".to_string(), 0), receipt[0]);
}

#[test]
fn test_extended_price_overflow_fails_all_reads() {
    let mut cart = Cart::new();
    cart.add(2, Item::new("Everything", u32::MAX, Tax::Tax0));

    assert_eq!(None, cart.total());
    assert_eq!(None, cart.total_taxes());
    assert_eq!(None, cart.receipt());
}

#[test]
fn test_grand_total_overflow_fails_all_reads() {
    let mut cart = Cart::new();
    cart.add(1, Item::new("Half", u32::MAX - 100, Tax::Tax0));
    cart.add(1, Item::new("Other Half", u32::MAX - 100, Tax::Tax0));

    assert_eq!(None, cart.total());
    assert_eq!(None, cart.total_taxes());
    assert_eq!(None, cart.receipt());
}

#[test]
fn test_empty_cart_receipt() {
    let cart = Cart::new();

    let receipt = vec![
        ("Sales Taxes".to_string(), 0),
        ("Total".to_string(), 0),
    ];
    assert_eq!(receipt, cart.receipt().unwrap());
    assert_eq!(Some(0), cart.total());
    assert_eq!(Some(0), cart.total_taxes());
}

#[test]
fn test_with_capacity_starts_empty() {
    let cart = Cart::with_capacity(16);
    assert_eq!(0, cart.len());
    assert_eq!(Some(0), cart.total());
}

#[test]
fn test_item_price_is_the_row_source() {
    let cart = Cart::new();
    let cd = Item::new("Music CD", 1499, Tax::Tax10);

    assert_eq!(Some((1649, 150)), cart.item_price(&cd, 1));
    assert_eq!(Some((4947, 450)), cart.item_price(&cd, 3));
    assert_eq!(None, cart.item_price(&Item::new("Everything", u32::MAX, Tax::Tax0), 2));
}

#[test]
fn test_totals_accumulates_in_minor_units() {
    let cart = Cart::from(vec![
        (1, Item::new("Book", 1249, Tax::Tax0)),
        (1, Item::new("Music CD", 1499, Tax::Tax10)),
    ]);

    assert_eq!(Some((2898, 150)), cart.totals());
}
