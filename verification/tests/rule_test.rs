use decision_tables_service::conditions::{
    EqualCondition, GreaterThanCondition, LessThanCondition, LessThanOrEqualCondition,
};
use decision_tables_service::decession_table::{AnyCondition, AnyRule, CachedRuleTrait, Rule, RuleTrait};
use decision_tables_service::error::DtError;
use decision_tables_service::json::{JsonField, JsonScalar, JsonValue};
use decision_tables_service::json_parseable::ConversionError;

fn query(fields: Vec<(&str, JsonScalar)>) -> JsonValue {
    JsonValue::Object(
        fields
            .into_iter()
            .map(|(n, v)| JsonField { name: n.to_string(), value: v })
            .collect(),
    )
}

fn age_rule() -> Rule<i64> {
    Rule::new(
        "age".to_string(),
        AnyCondition::GreaterThan(GreaterThanCondition {}),
        vec![Some(18), None, Some(65), Some(30)],
    )
}

#[test]
fn parse_in_value_reads_the_field() {
    let rule = age_rule();
    let q = query(vec![("name", JsonScalar::Str("x".to_string())), ("age", JsonScalar::I64(40))]);
    assert_eq!(rule.parse_in_value(&q).unwrap(), 40);
}

#[test]
fn parse_in_value_takes_first_field_of_a_name() {
    let rule = age_rule();
    let q = query(vec![("age", JsonScalar::U64(20)), ("age", JsonScalar::I64(90))]);
    assert_eq!(rule.parse_in_value(&q).unwrap(), 20);
}

#[test]
fn missing_field_is_field_not_found() {
    let rule = age_rule();
    let q = query(vec![("years", JsonScalar::I64(40))]);
    match rule.parse_in_value(&q) {
        Err(DtError::FieldNotFound { field }) => assert_eq!(field, "age"),
        other => panic!("unexpected {:?}", other),
    }
    let not_object = JsonValue::Scalar(JsonScalar::I64(3));
    assert!(matches!(rule.check_all(&not_object), Err(DtError::FieldNotFound { .. })));
}

#[test]
fn wrong_type_is_query_conversion() {
    let rule = age_rule();
    let q = query(vec![("age", JsonScalar::Str("forty".to_string()))]);
    match rule.check_all(&q) {
        Err(DtError::QueryConversion { field, reason }) => {
            assert_eq!(field, "age");
            assert_eq!(reason, ConversionError::NotI64);
        }
        other => panic!("unexpected {:?}", other),
    }
}

#[test]
fn check_all_keeps_accepting_cells_and_wildcards() {
    // query value 40 > cell: 18 yes, wildcard yes, 65 no, 30 yes
    let rule = age_rule();
    let q = query(vec![("age", JsonScalar::I64(40))]);
    assert_eq!(rule.check_all(&q).unwrap(), vec![0, 1, 3]);
    let q = query(vec![("age", JsonScalar::I64(18))]);
    assert_eq!(rule.check_all(&q).unwrap(), vec![1]);
}

#[test]
fn check_slice_counts_from_start() {
    let rule = age_rule();
    let cells = vec![Some(1i64), Some(50), None];
    assert_eq!(rule.check_slice(&cells, &10, 100), vec![100, 102]);
    assert_eq!(
        Rule::<i64>::check_slice_destructed(&AnyCondition::LessThan(LessThanCondition {}), &cells, &10, 5),
        vec![6, 7]
    );
    let empty: Vec<Option<i64>> = Vec::new();
    assert_eq!(rule.check_slice(&empty, &10, 3), Vec::<usize>::new());
}

#[test]
fn check_indices_keeps_order_of_indices() {
    let rule = age_rule();
    assert_eq!(rule.check_indices_slice(&40, &[3, 2, 1, 0]), vec![3, 1, 0]);
    let q = query(vec![("age", JsonScalar::I64(40))]);
    assert_eq!(rule.check_indices(&q, &vec![2, 3]).unwrap(), vec![3]);
}

#[test]
fn multi_thread_check_joins_chunks_in_order() {
    let rule = age_rule();
    let q = query(vec![("age", JsonScalar::I64(40))]);
    let all = vec![0, 1, 2, 3];
    assert_eq!(rule.check_all_multi_thread(&q, &all, 1).unwrap(), vec![0, 1, 3]);
    assert_eq!(rule.check_all_multi_thread(&q, &all, 3).unwrap(), vec![0, 1, 3]);
    assert_eq!(rule.check_all_multi_thread(&q, &all, 4).unwrap(), vec![0, 1, 3]);
    // fewer indices than chunks: nothing is kept
    assert_eq!(rule.check_all_multi_thread(&q, &all, 5).unwrap(), Vec::<usize>::new());
}

#[test]
fn cached_check_gives_the_same_answers() {
    let mut rule = Rule::new(
        "city".to_string(),
        AnyCondition::Equal(EqualCondition {}),
        vec![Some("Kyiv".to_string()), None, Some("Lviv".to_string())],
    );
    let kyiv = query(vec![("city", JsonScalar::Str("Kyiv".to_string()))]);
    let lviv = query(vec![("city", JsonScalar::Str("Lviv".to_string()))]);
    let plain = rule.check_all(&kyiv).unwrap();
    assert_eq!(plain, vec![0, 1]);
    assert_eq!(rule.check_all_cached(&kyiv).unwrap(), plain);
    assert_eq!(rule.check_all_cached(&lviv).unwrap(), vec![1, 2]);
    assert_eq!(rule.check_all_cached(&kyiv).unwrap(), plain);
    assert_eq!(rule.check_all(&lviv).unwrap(), vec![1, 2]);
}

#[test]
fn any_rule_forwards_to_its_rule() {
    let mut rule = AnyRule::U8(Rule::new(
        "level".to_string(),
        AnyCondition::LessThanOrEqual(LessThanOrEqualCondition {}),
        vec![Some(3u8), Some(5), None],
    ));
    let q = query(vec![("level", JsonScalar::U64(4))]);
    assert_eq!(RuleTrait::check_all(&rule, &q).unwrap(), vec![1, 2]);
    assert_eq!(RuleTrait::check_indices(&rule, &q, &vec![0, 1]).unwrap(), vec![1]);
    assert_eq!(CachedRuleTrait::check_all_cached(&mut rule, &q).unwrap(), vec![1, 2]);
    let too_big = query(vec![("level", JsonScalar::U64(300))]);
    assert!(matches!(
        RuleTrait::check_all(&rule, &too_big),
        Err(DtError::QueryConversion { reason: ConversionError::OutOfRange, .. })
    ));
}

#[test]
fn fewer_indices_than_chunks_reads_no_index() {
    let rule = age_rule();
    let q = query(vec![("age", JsonScalar::I64(40))]);
    // indices past the cells are never read when no chunk can be formed
    assert_eq!(rule.check_all_multi_thread(&q, &vec![0, 99], 3).unwrap(), Vec::<usize>::new());
}
