use decision_tables_service::conditions::{
    Condition as Comparison, EqualCondition, GreaterThanCondition, GreaterThanOrEqualCondition,
    LessThanCondition, LessThanOrEqualCondition,
};
use decision_tables_service::decession_table::{map_conditions, AnyCondition, ValueCondition};
use decision_tables_service::values::{F64Key, FloatKey, Timestamp};
use decision_tables_service::{Condition, ConditionType, Rule};

fn key(x: f64) -> FloatKey {
    if x.is_nan() {
        return FloatKey { is_nan: true, key: 0 };
    }
    let x = if x == 0.0 { 0.0 } else { x };
    let b = x.to_bits();
    let k = if b >> 63 == 1 { !b } else { b | (1u64 << 63) };
    FloatKey { is_nan: false, key: k }
}

#[test]
fn stored_value_stands_on_the_left() {
    assert!(Condition::new(ConditionType::MoreThan, 10i64).check(5));
    assert!(!Condition::new(ConditionType::MoreThan, 10i64).check(10));
    assert!(Condition::new(ConditionType::MoreEqualThan, 10i64).check(10));
    assert!(!Condition::new(ConditionType::MoreEqualThan, 10i64).check(11));
    assert!(Condition::new(ConditionType::LessThan, 10i64).check(11));
    assert!(!Condition::new(ConditionType::LessThan, 10i64).check(9));
    assert!(Condition::new(ConditionType::LessEqualThan, 10i64).check(10));
    assert!(!Condition::new(ConditionType::LessEqualThan, 10i64).check(9));
    assert!(Condition::new(ConditionType::Equal, 10i64).check(10));
    assert!(!Condition::new(ConditionType::Equal, 10i64).check(11));
}

#[test]
fn interval_never_holds() {
    for v in [-5i32, 0, 7] {
        assert!(!Condition::new(ConditionType::Interval, 0i32).check(v));
    }
}

#[test]
fn condition_on_strings_is_lexicographic() {
    let c = Condition::new(ConditionType::LessThan, "abc".to_string());
    assert!(c.check("abd".to_string()));
    assert!(c.check("abcd".to_string()));
    assert!(!c.check("ab".to_string()));
    assert!(!c.check("abc".to_string()));
}

#[test]
fn condition_on_timestamps_orders_by_instant() {
    let c = Condition::new(ConditionType::MoreThan, Timestamp { secs: 100, nanos: 5 });
    assert!(c.check(Timestamp { secs: 100, nanos: 4 }));
    assert!(c.check(Timestamp { secs: 99, nanos: 999 }));
    assert!(!c.check(Timestamp { secs: 100, nanos: 5 }));
}

#[test]
fn comparisons_take_query_value_first() {
    assert!(Comparison::check(&GreaterThanCondition {}, &5u8, &3u8));
    assert!(!Comparison::check(&GreaterThanCondition {}, &3u8, &3u8));
    assert!(Comparison::check(&GreaterThanOrEqualCondition {}, &3u8, &3u8));
    assert!(Comparison::check(&LessThanCondition {}, &2u8, &3u8));
    assert!(!Comparison::check(&LessThanCondition {}, &4u8, &3u8));
    assert!(Comparison::check(&LessThanOrEqualCondition {}, &3u8, &3u8));
    assert!(Comparison::check(&EqualCondition {}, &true, &true));
    assert!(!Comparison::check(&EqualCondition {}, &true, &false));
}

#[test]
fn nan_compares_to_nothing() {
    let nan = F64Key(key(f64::NAN));
    let one = F64Key(key(1.0));
    assert!(!Comparison::check(&EqualCondition {}, &nan, &nan));
    assert!(!Comparison::check(&LessThanCondition {}, &nan, &one));
    assert!(!Comparison::check(&GreaterThanCondition {}, &nan, &one));
    assert!(!Comparison::check(&LessThanOrEqualCondition {}, &one, &nan));
}

#[test]
fn float_keys_follow_numbers() {
    let vals = [-1e300, -2.5, -0.0, 0.0, 1e-300, 2.5, 1e300];
    for (i, a) in vals.iter().enumerate() {
        for (j, b) in vals.iter().enumerate() {
            let (ka, kb) = (F64Key(key(*a)), F64Key(key(*b)));
            assert_eq!(Comparison::check(&LessThanCondition {}, &ka, &kb), a < b, "{} {}", i, j);
            assert_eq!(Comparison::check(&EqualCondition {}, &ka, &kb), a == b, "{} {}", i, j);
        }
    }
}

#[test]
fn condition_rows_map_to_comparisons() {
    assert!(matches!(map_conditions(&ValueCondition::LessThan), AnyCondition::LessThan(_)));
    assert!(matches!(map_conditions(&ValueCondition::LessOrEqual), AnyCondition::LessThanOrEqual(_)));
    assert!(matches!(map_conditions(&ValueCondition::GreaterThan), AnyCondition::GreaterThan(_)));
    assert!(matches!(
        map_conditions(&ValueCondition::GreaterOrEqual),
        AnyCondition::GreaterThanOrEqual(_)
    ));
    assert!(matches!(map_conditions(&ValueCondition::Equal), AnyCondition::Equal(_)));
}

#[test]
fn rule_holds_condition_and_result() {
    let rule = Rule { condition: Condition::new(ConditionType::Equal, 3u16), result_id: 7 };
    assert!(rule.condition.check(3));
    assert_eq!(rule.result_id, 7);
}
