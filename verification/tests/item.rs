use cart_pricing::item::Item;
use cart_pricing::tax::Tax;

#[test]
fn test_item() {
    let book = Item::new("Book", 1249, Tax::Tax0);

    assert_eq!("Book", book.id());
    assert_eq!(Tax::Tax0, book.tax());
    assert_eq!(1249, book.price());
}

#[test]
fn test_item_equality_is_by_name_alone() {
    let book = Item::new("Book", 1249, Tax::Tax0);
    let other_book = Item::new("Book", 9999, Tax::Tax15);
    let cd = Item::new("Music CD", 1249, Tax::Tax0);

    assert!(book == other_book);
    assert!(book != cd);
}
