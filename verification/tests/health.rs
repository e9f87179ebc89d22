use channel_balances::health::{agreed_sum, HEALTH_THRESHOLD_PROMILLES};
use channel_balances::{get_health, BalanceMap};
use num_bigint::BigUint;

fn snapshot(entries: &[(&str, u64)]) -> BalanceMap {
    let mut map = BalanceMap::new();
    for (id, value) in entries {
        map.insert((*id).to_owned(), BigUint::from(*value));
    }
    map
}

#[test]
fn approved_balance_equals_to_out_accounting_and_is_healthy() {
    let mut our = BalanceMap::new();
    our.insert("a".to_owned(), BigUint::from(50_u64));
    our.insert("b".to_owned(), BigUint::from(150_u64));

    let mut approved = BalanceMap::new();
    approved.insert("a".to_owned(), BigUint::from(50_u64));
    approved.insert("b".to_owned(), BigUint::from(150_u64));

    assert_eq!(true, get_health(&our, &approved));
}

#[test]
fn approved_balance_greater_to_our_accounting_and_is_healthy() {
    let mut our = BalanceMap::new();
    our.insert("a".to_owned(), BigUint::from(10_u64));
    our.insert("b".to_owned(), BigUint::from(20_u64));

    let mut approved = BalanceMap::new();
    approved.insert("a".to_owned(), BigUint::from(100_u64));
    approved.insert("b".to_owned(), BigUint::from(200_u64));

    assert_eq!(true, get_health(&our, &approved));
}

#[test]
fn approved_balance_has_less_than_our_accounting_but_is_healthy_because_of_margin() {
    let mut our = BalanceMap::new();
    our.insert("a".to_owned(), BigUint::from(84_u64));
    our.insert("b".to_owned(), BigUint::from(1_u64));
    our.insert("c".to_owned(), BigUint::from(15_u64));

    let mut approved = BalanceMap::new();
    approved.insert("a".to_owned(), BigUint::from(83_u64));
    approved.insert("c".to_owned(), BigUint::from(50_u64));

    // The sum of the mins is 98, when then sum of Our is 100
    assert_eq!(true, get_health(&our, &approved));
}

#[test]
fn approved_balance_has_less_than_our_accounting_and_is_unhealthy() {
    let mut our = BalanceMap::new();
    our.insert("a".to_owned(), BigUint::from(80_u64));
    our.insert("b".to_owned(), BigUint::from(90_u64));

    let mut approved = BalanceMap::new();
    approved.insert("a".to_owned(), BigUint::from(70_u64));
    approved.insert("b".to_owned(), BigUint::from(70_u64));

    assert_eq!(false, get_health(&our, &approved));
}

#[test]
fn the_threshold_is_nine_hundred_and_fifty_thousandths() {
    assert_eq!(HEALTH_THRESHOLD_PROMILLES, 950);
}

#[test]
fn a_full_match_is_healthy() {
    assert!(get_health(&snapshot(&[("a", 50)]), &snapshot(&[("a", 50)])));
}

#[test]
fn seven_eighths_is_unhealthy() {
    let our = snapshot(&[("a", 80)]);
    let approved = snapshot(&[("a", 70)]);

    // 70 * 1000 / 80 = 875
    assert_eq!(agreed_sum(&our, &approved), BigUint::from(70_u32));
    assert!(!get_health(&our, &approved));
}

#[test]
fn the_threshold_itself_is_healthy() {
    let our = snapshot(&[("a", 55), ("b", 5), ("c", 40)]);
    let approved = snapshot(&[("a", 70), ("c", 40)]);

    // 55 + 40 = 95 of 100
    assert_eq!(agreed_sum(&our, &approved), BigUint::from(95_u32));
    assert_eq!(our.sum(), BigUint::from(100_u32));
    assert!(get_health(&our, &approved));
}

#[test]
fn the_ratio_is_rounded_down_before_it_is_compared() {
    // 1899 * 1000 / 2000 = 949.5, which counts as 949
    assert!(!get_health(&snapshot(&[("a", 2000)]), &snapshot(&[("a", 1899)])));
    // 1900 * 1000 / 2000 = 950
    assert!(get_health(&snapshot(&[("a", 2000)]), &snapshot(&[("a", 1900)])));
    // 949 * 1000 / 1000 = 949
    assert!(!get_health(&snapshot(&[("a", 1000)]), &snapshot(&[("a", 949)])));
    // 2 * 1000 / 3 = 666, 3 * 1000 / 3 = 1000
    assert!(!get_health(&snapshot(&[("a", 3)]), &snapshot(&[("a", 2)])));
    assert!(get_health(&snapshot(&[("a", 3)]), &snapshot(&[("a", 3)])));
    // 19 * 1000 / 20 = 950, 18 * 1000 / 20 = 900
    assert!(get_health(&snapshot(&[("a", 20)]), &snapshot(&[("a", 19)])));
    assert!(!get_health(&snapshot(&[("a", 20)]), &snapshot(&[("a", 18)])));
}

#[test]
fn a_snapshot_is_healthy_against_itself() {
    let our = snapshot(&[("a", 1), ("b", 0), ("c", 123_456_789)]);
    assert!(get_health(&our, &our));
    assert_eq!(agreed_sum(&our, &our), our.sum());

    let single = snapshot(&[("a", 1)]);
    assert!(get_health(&single, &single));
}

#[test]
fn a_total_of_zero_is_never_healthy() {
    let empty = BalanceMap::new();
    let zeros = snapshot(&[("a", 0), ("b", 0)]);
    let approved = snapshot(&[("a", 10), ("b", 20)]);

    assert!(!get_health(&empty, &empty));
    assert!(!get_health(&empty, &approved));
    assert!(!get_health(&zeros, &zeros));
    assert!(!get_health(&zeros, &approved));
}

#[test]
fn participants_named_by_one_side_only_add_nothing() {
    let our = snapshot(&[("a", 95), ("b", 5)]);

    // "b" is not approved at all: 95 of 100 is agreed
    let approved = snapshot(&[("a", 95), ("x", 1_000_000)]);
    assert_eq!(agreed_sum(&our, &approved), BigUint::from(95_u32));
    assert!(get_health(&our, &approved));

    // only strangers are approved: nothing is agreed
    let strangers = snapshot(&[("x", 1_000_000), ("y", 1_000_000)]);
    assert_eq!(agreed_sum(&our, &strangers), BigUint::from(0_u32));
    assert!(!get_health(&our, &strangers));

    assert_eq!(agreed_sum(&our, &BalanceMap::new()), BigUint::from(0_u32));
    assert!(!get_health(&our, &BalanceMap::new()));
}

#[test]
fn the_lesser_amount_is_agreed_for_each_participant() {
    let our = snapshot(&[("a", 10), ("b", 20), ("c", 30)]);
    let approved = snapshot(&[("c", 7), ("b", 20), ("a", 11)]);

    // 10 + 20 + 7
    assert_eq!(agreed_sum(&our, &approved), BigUint::from(37_u32));
    assert_eq!(agreed_sum(&approved, &our), BigUint::from(37_u32));
    assert!(!get_health(&our, &approved));
    // 37 * 1000 / 38 = 973
    assert!(get_health(&approved, &our));
}

#[test]
fn the_order_of_insertion_does_not_change_the_health() {
    let our_one = snapshot(&[("a", 55), ("b", 5), ("c", 40)]);
    let our_two = snapshot(&[("c", 40), ("b", 5), ("a", 55)]);
    let approved_one = snapshot(&[("a", 70), ("c", 39)]);
    let approved_two = snapshot(&[("c", 39), ("a", 70)]);

    // 55 + 39 = 94 of 100
    assert!(!get_health(&our_one, &approved_one));
    assert!(!get_health(&our_one, &approved_two));
    assert!(!get_health(&our_two, &approved_one));
    assert!(!get_health(&our_two, &approved_two));
}

#[test]
fn health_is_judged_beyond_the_range_of_machine_integers() {
    let unit = BigUint::from(u64::MAX) * BigUint::from(u64::MAX);
    let mut our = BalanceMap::new();
    our.insert("a".to_owned(), unit.clone() * 60_u32);
    our.insert("b".to_owned(), unit.clone() * 40_u32);

    let mut approved = BalanceMap::new();
    approved.insert("a".to_owned(), unit.clone() * 55_u32);
    approved.insert("b".to_owned(), unit.clone() * 40_u32);
    assert_eq!(agreed_sum(&our, &approved), unit.clone() * 95_u32);
    assert!(get_health(&our, &approved));

    // one base unit less than 95 hundredths rounds down to 949
    approved.insert("a".to_owned(), unit.clone() * 55_u32 - 1_u32);
    assert_eq!(agreed_sum(&our, &approved), unit.clone() * 95_u32 - 1_u32);
    assert!(!get_health(&our, &approved));
}
