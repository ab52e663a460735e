use cart_pricing::tax::Tax;

#[test]
fn test_tax() {
    assert_eq!(0, Tax::Tax0.apply(100));
    assert_eq!(5, Tax::Tax5.apply(100));
    assert_eq!(10, Tax::Tax10.apply(100));
    assert_eq!(15, Tax::Tax15.apply(100));
}

#[test]
fn test_tax_rounding() {
    assert_eq!(150, Tax::Tax10.apply(1499));
    assert_eq!(715, Tax::Tax15.apply(4750));
}

#[test]
fn test_tax_always_multiple_of_five() {
    let rates = [Tax::Tax0, Tax::Tax5, Tax::Tax10, Tax::Tax15];
    let amounts = [0u32, 1, 4, 5, 37, 85, 999, 1000, 1499, 4750, 123_456, u32::MAX];
    for tax in rates {
        for amount in amounts {
            let r = tax.apply(amount);
            assert_eq!(0, r % 5);
        }
    }
}

#[test]
fn test_tax_at_most_amount() {
    let rates = [Tax::Tax0, Tax::Tax5, Tax::Tax10, Tax::Tax15];
    for tax in rates {
        for amount in 5u32..2000 {
            assert!(tax.apply(amount) <= amount);
        }
    }
}

#[test]
fn test_tax_zero_rate_owes_nothing() {
    for amount in [0u32, 1, 49, 50, 51, 1249, u32::MAX] {
        assert_eq!(0, Tax::Tax0.apply(amount));
    }
}
