use binance_feed_handler::decimal::Decimal;
use binance_feed_handler::levels::PriceLevels;

fn d(text: &str) -> Decimal {
    Decimal::parse(text).unwrap()
}

#[test]
fn reading_keeps_the_scale() {
    assert_eq!(d("64000.50").to_text(), "64000.50");
    assert_eq!(d("1").to_text(), "1");
    assert_eq!(d("0.00100").to_text(), "0.00100");
    assert_eq!(d("-12.5").to_text(), "-12.5");
    assert_eq!(d("+7").to_text(), "7");
    assert_eq!(d("007.10").to_text(), "7.10");
    assert_eq!(d("1e5"), d("100000"));
    assert_eq!(
        d("7.9228162514264337593543950335").to_text(),
        "7.9228162514264337593543950335"
    );
}

#[test]
fn what_is_no_number_is_not_read() {
    for text in ["", "abc", "1.2.3", "1x5", "--1", " 1", "1 ", "0x10", "."] {
        assert!(Decimal::parse(text).is_none(), "{}", text);
    }
}

#[test]
fn numbers_of_too_many_digits_are_not_read() {
    assert!(Decimal::parse("79228162514264337593543950335").is_some());
    assert!(Decimal::parse("79228162514264337593543950336").is_none());
}

#[test]
fn what_is_no_number_counts_as_zero() {
    assert!(Decimal::parse_or_zero("x").is_zero());
    assert!(Decimal::parse_or_zero("0.000").is_zero());
    assert_eq!(Decimal::parse_or_zero("1.5"), d("1.5"));
    assert_eq!(Decimal::default().to_text(), "0");
}

#[test]
fn numbers_are_compared_by_worth() {
    assert_eq!(d("100"), d("100.00"));
    assert_eq!(d("0"), d("-0.0"));
    assert_ne!(d("1.0"), d("1.01"));
    assert!(d("9.99").below(&d("10")));
    assert!(!d("10").below(&d("9.99")));
    assert!(!d("10.0").below(&d("10")));
    assert!(d("-2").below(&d("-1.5")));
    assert!(d("-1").below(&d("0")));
    assert!(d("0.0000000000000000000000000001").below(&d("1")));
    assert!(d("1").below(&d("79228162514264337593543950335")));
}

#[test]
fn signs() {
    assert!(d("0.1").is_positive());
    assert!(!d("0.0").is_positive());
    assert!(!d("-0.1").is_positive());
    assert!(d("-0").is_zero());
}

#[test]
fn numbers_from_digits_and_scale() {
    assert_eq!(Decimal::new(6400050, 2).to_text(), "64000.50");
    assert_eq!(Decimal::new(-5, 3).to_text(), "-0.005");
    assert_eq!(Decimal::new(0, 0), Decimal::default());
    assert_eq!(Decimal::new(i64::MIN, 0).to_text(), "-9223372036854775808");
    assert_eq!(Decimal::new(1, 28).to_text(), "0.0000000000000000000000000001");
}

#[test]
fn printing_and_reading_give_the_same_number() {
    for text in ["0", "0.0", "12.340", "-7.001", "79228162514264337593543950335",
        "-7.9228162514264337593543950335", "0.0000000000000000000000000001", "0.1"] {
        let number = d(text);
        assert_eq!(d(&number.to_text()), number);
        assert_eq!(d(&number.to_text()).to_text(), number.to_text());
    }
    let negative_zero = Decimal::parse("-0.00").unwrap();
    assert_eq!(negative_zero.to_text(), "0.00");
}

#[test]
fn levels_are_kept_by_price() {
    let mut side = PriceLevels::new();
    assert!(side.is_empty());
    side.insert(d("100"), d("1"));
    side.insert(d("98"), d("2"));
    side.insert(d("99"), d("3"));
    assert_eq!(side.len(), 3);
    assert_eq!(side.highest(), Some(d("100")));
    assert_eq!(side.lowest(), Some(d("98")));
    assert_eq!(side.get(&d("99.0")), Some(&d("3")));
    side.remove(&d("99.00"));
    assert!(!side.contains_key(&d("99")));
    assert_eq!(side.len(), 2);
    side.clear();
    assert!(side.highest().is_none());
    assert!(side.lowest().is_none());
}

#[test]
fn a_price_keeps_the_way_it_was_written() {
    let mut side = PriceLevels::new();
    side.insert(d("100.0"), d("1"));
    side.insert(d("100.00"), d("2"));
    let levels = side.from_lowest(5);
    assert_eq!(levels.len(), 1);
    assert_eq!(levels[0].0.to_text(), "100.0");
    assert_eq!(levels[0].1.to_text(), "2");
}

#[test]
fn the_best_levels_come_first() {
    let mut side = PriceLevels::new();
    for price in ["5", "1", "4", "2", "3"] {
        side.insert(d(price), d("1"));
    }
    let low: Vec<String> = side.from_lowest(2).iter().map(|l| l.0.to_text()).collect();
    let high: Vec<String> = side.from_highest(3).iter().map(|l| l.0.to_text()).collect();
    assert_eq!(low, vec!["1", "2"]);
    assert_eq!(high, vec!["5", "4", "3"]);
    assert_eq!(side.from_highest(9).len(), 5);
    assert_eq!(side.from_lowest(0).len(), 0);
}
