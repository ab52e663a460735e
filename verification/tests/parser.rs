use cart_pricing::parser::parse;
use cart_pricing::tax::Tax;

#[test]
fn test_parse_correct_input() {
    let input = "2 Book at 12.49 0".to_string();
    let (quantity, item) = parse(&input).unwrap();

    assert_eq!(2, quantity);
    assert_eq!("Book", item.id());
    assert_eq!(1249, item.price());
    assert_eq!(Tax::Tax0, item.tax());
}

#[test]
fn test_parse_incorrect_input() {
    assert_eq!(
        "Failed to parse quantity.",
        parse(&"Book".to_string()).unwrap_err()
    );

    assert_eq!(
        "Failed to parse tax.",
        parse(&"1 Book".to_string()).unwrap_err()
    );

    assert_eq!(
        "Failed to parse price.",
        parse(&"1 Book 0".to_string()).unwrap_err()
    );
}

#[test]
fn test_parse_multi_token_name() {
    let input = "1 Imported Box of Chocolates at 10.00 5".to_string();
    let (quantity, item) = parse(&input).unwrap();

    assert_eq!(1, quantity);
    assert_eq!("Imported Box of Chocolates", item.id());
    assert_eq!(1000, item.price());
    assert_eq!(Tax::Tax5, item.tax());
}

#[test]
fn test_parse_fractional_price_concatenates_digits() {
    let (_, item) = parse(&"1 Chocolate Bar at 0.85 0".to_string()).unwrap();
    assert_eq!(85, item.price());

    let (_, item) = parse(&"1 Stamp at 3 0".to_string()).unwrap();
    assert_eq!(3, item.price());
}

#[test]
fn test_parse_invalid_tax_value() {
    assert_eq!(
        "Invalid tax supplied.",
        parse(&"1 Book at 12.49 20".to_string()).unwrap_err()
    );
}

#[test]
fn test_parse_tax_out_of_byte_range() {
    assert_eq!(
        "Failed to parse tax.",
        parse(&"1 Book at 12.49 300".to_string()).unwrap_err()
    );
}

#[test]
fn test_parse_missing_price_token() {
    assert_eq!(
        "Failed to parse price",
        parse(&"1 0".to_string()).unwrap_err()
    );
}

#[test]
fn test_parse_price_with_two_points() {
    assert_eq!(
        "Failed to parse price.",
        parse(&"1 Book at 1.2.3 0".to_string()).unwrap_err()
    );
}

#[test]
fn test_parse_quantity_out_of_range() {
    assert_eq!(
        "Failed to parse quantity.",
        parse(&"99999999999 Book at 12.49 0".to_string()).unwrap_err()
    );
}
