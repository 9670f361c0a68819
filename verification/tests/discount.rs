use smart_contract::billing::calculate_discount;
use smart_contract::contracts::DiscountLevel;
use smart_contract::types::CertificationType;

// Balance worth 36 months of cost or more earns the gold tier (60% off).
#[test]
fn test_discount_gold_at_ratio_36() {
    let (amount, level) = calculate_discount(100, 2592000, CertificationType::Diy);
    assert_eq!(level, DiscountLevel::Gold);
    assert_eq!(amount, 40);
}

// Below 3 months of cost there is no discount.
#[test]
fn test_discount_none_below_ratio_3() {
    let (amount, level) = calculate_discount(100, 215999, CertificationType::Diy);
    assert_eq!(level, DiscountLevel::NoDiscount);
    assert_eq!(amount, 100);
}

// A ratio of 10 months earns the bronze tier (30% off).
#[test]
fn test_discount_bronze_at_ratio_10() {
    let (amount, level) = calculate_discount(100, 720000, CertificationType::Diy);
    assert_eq!(level, DiscountLevel::Bronze);
    assert_eq!(amount, 70);
}

// From 3 months the default tier gives 20% off; from 12, silver gives 40%.
#[test]
fn test_discount_default_and_silver_tiers() {
    let (amount, level) = calculate_discount(100, 216000, CertificationType::Diy);
    assert_eq!(level, DiscountLevel::DefaultDiscount);
    assert_eq!(amount, 80);
    let (amount, level) = calculate_discount(100, 864000, CertificationType::Diy);
    assert_eq!(level, DiscountLevel::Silver);
    assert_eq!(amount, 60);
}

// Certified capacity costs 25% more after the discount.
#[test]
fn test_certified_surcharge() {
    let (amount, level) = calculate_discount(100, 0, CertificationType::Certified);
    assert_eq!(level, DiscountLevel::NoDiscount);
    assert_eq!(amount, 125);
}
