use decision_tables_service::decession_table::{
    DecimalType, DecisionTable, DecisionTableSource, NumberType, ValueCondition, ValueType,
};
use decision_tables_service::error::DtError;
use decision_tables_service::json::{FloatReadings, JsonField, JsonScalar, JsonValue};
use decision_tables_service::values::{F32Key, F64Key, FloatKey, Timestamp};
use decision_tables_service::xlsx_dt_data_source::{
    Cell, CellErrorKind, CellValue, FloatFacts, ParsePreferences, Sheet, XlsxDTDataSource,
};

fn key(x: f64) -> FloatKey {
    if x.is_nan() {
        return FloatKey { is_nan: true, key: 0 };
    }
    let x = if x == 0.0 { 0.0 } else { x };
    let b = x.to_bits();
    let k = if b >> 63 == 1 { !b } else { b | (1u64 << 63) };
    FloatKey { is_nan: false, key: k }
}

fn facts(x: f64) -> FloatFacts {
    FloatFacts {
        key: key(x),
        key32: key(x as f32 as f64),
        is_integral: x.is_finite() && x.fract() == 0.0,
        fits_f32: (x as f32 as f64) == x,
        as_i64: x as i64,
        as_u64: x as u64,
    }
}

fn text_value(s: &str) -> CellValue {
    CellValue::String {
        text: s.to_string(),
        parsed_f32: s.parse::<f32>().ok().map(|f| key(f as f64)),
        parsed_f64: s.parse::<f64>().ok().map(key),
        decimal: s.replace(',', ".").parse::<f64>().ok().map(facts),
    }
}

fn text(s: &str) -> Cell {
    Cell { value: text_value(s), display: s.to_string() }
}

fn int_cell(i: i64) -> Cell {
    Cell {
        value: CellValue::Int { value: i, as_f32: key(i as f32 as f64), as_f64: key(i as f64) },
        display: i.to_string(),
    }
}

fn float(x: f64) -> Cell {
    Cell { value: CellValue::Float(facts(x)), display: x.to_string() }
}

fn sheet(rows: Vec<Vec<Cell>>) -> Sheet {
    let width = rows.first().map(|r| r.len()).unwrap_or(0);
    Sheet::new(width, rows).expect("rectangular sheet")
}

fn preferences() -> ParsePreferences {
    ParsePreferences::new(',', text_value("*"), "%d.%m.%YT%H:%M:%S".to_string())
}

fn source(s: Sheet) -> (XlsxDTDataSource, Result<(), DtError>) {
    let mut src = XlsxDTDataSource::new("table.xlsx".to_string(), preferences());
    assert!(src.rules_computable(&s));
    let r = src.init_from_sheet(s);
    (src, r)
}

/// age (>), city (=), out
fn people_sheet() -> Sheet {
    sheet(vec![
        vec![text("age"), text("city"), text("out")],
        vec![text("Number"), text("String"), text("String")],
        vec![text(">"), text("="), text("=")],
        vec![int_cell(18), text("Kyiv"), text("A")],
        vec![text("*"), text("Lviv"), text("B")],
        vec![int_cell(65), text("*"), text("C")],
    ])
}

fn query(fields: Vec<(&str, JsonScalar)>) -> JsonValue {
    JsonValue::Object(
        fields
            .into_iter()
            .map(|(n, v)| JsonField { name: n.to_string(), value: v })
            .collect(),
    )
}

fn people_query(age: i64, city: &str) -> JsonValue {
    query(vec![("age", JsonScalar::I64(age)), ("city", JsonScalar::Str(city.to_string()))])
}

fn people_table() -> DecisionTable {
    let (src, r) = source(people_sheet());
    r.unwrap();
    DecisionTable::create(src).unwrap()
}

#[test]
fn source_reads_rules_from_header_rows() {
    let (src, r) = source(people_sheet());
    assert!(r.is_ok());
    assert_eq!(src.get_rules_count().unwrap(), 2);
    assert_eq!(src.get_variants_count().unwrap(), 3);
    let age = src.get_rule_data(0).unwrap();
    assert_eq!(age.field_name(), "age");
    assert_eq!(age.condition(), ValueCondition::GreaterThan);
    match age.field_type() {
        ValueType::Number(NumberType::Integer(d)) => {
            assert!(!d.has_negative());
            assert_eq!(d.max_value(), 65);
        }
        _ => panic!("age is an integer column"),
    }
    let city = src.get_rule_data(1).unwrap();
    assert_eq!(city.condition(), ValueCondition::Equal);
    match city.field_type() {
        ValueType::String(d) => {
            assert_eq!(d.max_length(), 4);
            assert!(!d.contains_utf());
        }
        _ => panic!("city is a string column"),
    }
    assert!(matches!(src.get_rule_data(2), Err(DtError::NoRuleData { rule: 2 })));
    assert_eq!(src.get_result_datas().unwrap(), vec!["A", "B", "C"]);
}

#[test]
fn source_reads_typed_cells_with_wildcards() {
    let (src, _) = source(people_sheet());
    assert_eq!(src.get_u8_rule_values(0).unwrap(), vec![Some(18), None, Some(65)]);
    assert_eq!(src.get_i64_rule_values(0).unwrap(), vec![Some(18), None, Some(65)]);
    assert_eq!(
        src.get_string_rule_values(1).unwrap(),
        vec![Some("Kyiv".to_string()), Some("Lviv".to_string()), None]
    );
    assert!(matches!(src.get_bool_rule_values(0), Err(DtError::InvalidCellType { row: 3, col: 0, found }) if found == "18"));
    assert!(matches!(src.get_u8_rule_values(1), Err(DtError::CellParse { row: 3, col: 1, found }) if found == "Kyiv"));
    assert!(matches!(src.get_u8_rule_values(7), Err(DtError::ColumnOutOfRange { col: 7, width: 3 })));
    assert!(matches!(src.get_date_time_rule_values(0), Err(DtError::InvalidRuleType)));
}

#[test]
fn uninitialised_source_says_so() {
    let src = XlsxDTDataSource::new("table.xlsx".to_string(), preferences());
    assert_eq!(src.file_path(), "table.xlsx");
    assert!(matches!(src.get_rules_count(), Err(DtError::NotInitialized)));
    assert!(matches!(src.get_variants_count(), Err(DtError::NotInitialized)));
    assert!(matches!(src.get_rule_data(0), Err(DtError::NotInitialized)));
    assert!(matches!(src.get_result_datas(), Err(DtError::NotInitialized)));
    assert!(matches!(src.get_u16_rule_values(0), Err(DtError::NotInitialized)));
    assert!(matches!(DecisionTable::create(src), Err(DtError::NotInitialized)));
}

#[test]
fn integer_cells_cast_like_as() {
    let s = sheet(vec![
        vec![text("n"), text("out")],
        vec![text("Number"), text("String")],
        vec![text("="), text("=")],
        vec![int_cell(300), text("a")],
        vec![float(-7.9), text("b")],
        vec![text("+12"), text("c")],
        vec![float(1e20), text("d")],
    ]);
    let (src, r) = source(s);
    r.unwrap();
    assert_eq!(
        src.get_u8_rule_values(0).unwrap(),
        vec![Some(44), Some(0), Some(12), Some(255)]
    );
    assert_eq!(
        src.get_i16_rule_values(0).unwrap(),
        vec![Some(300), Some(-7), Some(12), Some(i16::MAX)]
    );
    assert_eq!(
        src.get_u32_rule_values(0).unwrap(),
        vec![Some(300), Some(0), Some(12), Some(u32::MAX)]
    );
    assert_eq!(
        src.get_f64_rule_values(0).unwrap(),
        vec![
            Some(F64Key(key(300.0))),
            Some(F64Key(key(-7.9))),
            Some(F64Key(key(12.0))),
            Some(F64Key(key(1e20)))
        ]
    );
    assert_eq!(src.get_f32_rule_values(0).unwrap()[1], Some(F32Key(key(-7.9f32 as f64))));
}

#[test]
fn number_columns_get_their_types_from_the_cells() {
    let s = sheet(vec![
        vec![text("small"), text("neg"), text("half"), text("tenth"), text("comma"), text("out")],
        vec![text("Number"), text("Number"), text("Number"), text("Number"), text("Number"), text("String")],
        vec![text("<"), text("<="), text(">="), text("="), text("="), text("=")],
        vec![int_cell(3), int_cell(-4), float(2.5), float(0.1), text("2,5"), text("r")],
        vec![int_cell(70000), float(40000.0), int_cell(1), int_cell(1), int_cell(2), text("s")],
    ]);
    let (src, r) = source(s);
    r.unwrap();
    let kind = |i: usize| *src.get_rule_data(i).unwrap().field_type();
    match kind(0) {
        ValueType::Number(NumberType::Integer(d)) => {
            assert!(!d.has_negative());
            assert_eq!(d.max_value(), 70000);
        }
        _ => panic!(),
    }
    match kind(1) {
        ValueType::Number(NumberType::Integer(d)) => {
            assert!(d.has_negative());
            assert_eq!(d.max_value(), 40000);
        }
        _ => panic!(),
    }
    assert!(matches!(kind(2), ValueType::Number(NumberType::Decimal(DecimalType::F32))));
    assert!(matches!(kind(3), ValueType::Number(NumberType::Decimal(DecimalType::F64))));
    assert!(matches!(kind(4), ValueType::Number(NumberType::Decimal(DecimalType::F32))));
    assert_eq!(src.get_rule_data(1).unwrap().condition(), ValueCondition::LessOrEqual);
    assert_eq!(src.get_rule_data(2).unwrap().condition(), ValueCondition::GreaterOrEqual);
    assert_eq!(src.get_rule_data(0).unwrap().condition(), ValueCondition::LessThan);
}

#[test]
fn string_columns_measure_bytes_and_non_ascii() {
    let s = sheet(vec![
        vec![text("name"), text("out")],
        vec![text("String"), text("String")],
        vec![text("="), text("=")],
        vec![text("Київ"), text("a")],
        vec![text("abc"), text("b")],
    ]);
    let (src, r) = source(s);
    r.unwrap();
    match src.get_rule_data(0).unwrap().field_type() {
        ValueType::String(d) => {
            assert_eq!(d.max_length(), 8);
            assert!(d.contains_utf());
        }
        _ => panic!(),
    }
}

#[test]
fn header_errors_are_reported() {
    let (src, r) = source(sheet(vec![
        vec![text("a"), text("out")],
        vec![text("Boolean"), text("String")],
        vec![text("="), text("=")],
    ]));
    assert!(matches!(r, Err(DtError::TooFewRows)));
    // the sheet is opened all the same, with no variant
    assert_eq!(src.get_variants_count().unwrap(), 0);
    assert!(matches!(src.get_rules_count(), Err(DtError::NotInitialized)));

    let body = |h0: Cell, h1: Cell, h2: Cell, last: &str| {
        sheet(vec![
            vec![h0, text(last)],
            vec![h1, text("String")],
            vec![h2, text("=")],
            vec![text("true"), text("x")],
        ])
    };
    let (_, r) = source(body(text("a"), text("Boolean"), text("="), "result"));
    assert!(matches!(r, Err(DtError::OutColumnMissing)));
    let (_, r) = source(body(int_cell(5), text("Boolean"), text("="), "out"));
    assert!(matches!(r, Err(DtError::NoFieldName { col: 0 })));
    let (_, r) = source(body(text("a"), text("Text"), text("="), "out"));
    assert!(matches!(r, Err(DtError::InvalidValueType { col: 0, found }) if found == "Text"));
    let (_, r) = source(body(text("a"), int_cell(1), text("="), "out"));
    assert!(matches!(r, Err(DtError::InvalidValueType { col: 0, found }) if found == "1"));
    let (_, r) = source(body(text("a"), text("Boolean"), text("=="), "out"));
    assert!(matches!(r, Err(DtError::InvalidCondition { col: 0, found }) if found == "=="));
    let (_, r) = source(body(text("a"), text("DateTime(2)"), text("="), "out"));
    assert!(matches!(r, Err(DtError::InvalidTimeZone { col: 0, .. })));
    let (_, r) = source(body(text("a"), text("DateTime(24:00)"), text("="), "out"));
    assert!(matches!(r, Err(DtError::InvalidTimeZone { col: 0, .. })));
    let (_, r) = source(body(text("a"), text("DateTime[2:00]"), text("="), "out"));
    assert!(matches!(r, Err(DtError::InvalidTimeZone { col: 0, .. })));
    let (src, r) = source(body(text("a"), text("Boolean"), text("="), "out"));
    r.unwrap();
    assert_eq!(src.get_bool_rule_values(0).unwrap(), vec![Some(true)]);
}

#[test]
fn failed_init_keeps_earlier_rules() {
    let (mut src, r) = source(people_sheet());
    r.unwrap();
    let bad = sheet(vec![
        vec![text("a"), text("out")],
        vec![text("Nope"), text("String")],
        vec![text("="), text("=")],
        vec![text("x"), text("y")],
    ]);
    assert!(src.rules_computable(&bad));
    assert!(matches!(src.init_from_sheet(bad), Err(DtError::InvalidValueType { col: 0, .. })));
    assert_eq!(src.get_rules_count().unwrap(), 2);
    assert_eq!(src.get_variants_count().unwrap(), 1);
}

#[test]
fn overflowing_time_zone_is_detected_before_reading() {
    let s = sheet(vec![
        vec![text("a"), text("out")],
        vec![text("DateTime(1000000:00)"), text("String")],
        vec![text("="), text("=")],
        vec![text("x"), text("y")],
    ]);
    let src = XlsxDTDataSource::new("t.xlsx".to_string(), preferences());
    assert!(!src.rules_computable(&s));
    // a column that is never reached does not matter
    let s = sheet(vec![
        vec![int_cell(1), text("b"), text("out")],
        vec![text("Boolean"), text("DateTime(1000000:00)"), text("String")],
        vec![text("="), text("="), text("=")],
        vec![text("x"), text("x"), text("y")],
    ]);
    assert!(src.rules_computable(&s));
}

#[test]
fn date_time_columns_read_in_their_zone() {
    let local = |secs: i64| Cell {
        value: CellValue::DateTime { serial: key(0.0), local: Some(Timestamp { secs, nanos: 0 }) },
        display: String::new(),
    };
    let s = sheet(vec![
        vec![text("when"), text("out")],
        vec![text("DateTime(+02:00)"), text("String")],
        vec![text(">"), text("=")],
        vec![text("01.02.2024T10:00:00"), text("early")],
        vec![local(1706781600), text("same")],
        vec![text("*"), text("any")],
    ]);
    let (src, r) = source(s);
    r.unwrap();
    let t = Timestamp { secs: 1706774400, nanos: 0 };
    assert_eq!(src.get_date_time_rule_values(0).unwrap(), vec![Some(t), Some(t), None]);
    let dt = DecisionTable::create(src).unwrap();
    // 09:30 at +01:00 is 08:30 UTC, after 08:00 UTC
    let q = query(vec![("when", JsonScalar::Str("01.02.2024T09:30:00+01:00".to_string()))]);
    assert_eq!(dt.check_all(&q).unwrap(), vec!["early", "same", "any"]);
    let q = query(vec![("when", JsonScalar::Str("01.02.2024T08:30:00+01:00".to_string()))]);
    assert_eq!(dt.check_all(&q).unwrap(), vec!["any"]);
    let q = query(vec![("when", JsonScalar::Str("2024-02-01 08:30".to_string()))]);
    assert!(matches!(dt.check_all(&q), Err(DtError::QueryConversion { .. })));
}

#[test]
fn unreadable_date_times_are_errors() {
    let s = sheet(vec![
        vec![text("when"), text("out")],
        vec![text("DateTime(0:00)"), text("String")],
        vec![text("="), text("=")],
        vec![
            Cell {
                value: CellValue::DateTime {
                    serial: key(0.0),
                    local: Some(Timestamp { secs: i64::MAX / 2, nanos: 0 }),
                },
                display: String::new(),
            },
            text("x"),
        ],
    ]);
    let (src, r) = source(s);
    r.unwrap();
    assert!(matches!(
        src.get_date_time_rule_values(0),
        Err(DtError::DateTimeOutOfRange { row: 3, col: 0 })
    ));
    let s = sheet(vec![
        vec![text("when"), text("out")],
        vec![text("DateTime(0:00)"), text("String")],
        vec![text("="), text("=")],
        vec![text("yesterday"), text("x")],
        vec![Cell { value: CellValue::Error(CellErrorKind::NA), display: String::new() }, text("y")],
    ]);
    let (src, r) = source(s);
    r.unwrap();
    assert!(matches!(src.get_date_time_rule_values(0), Err(DtError::CellParse { row: 3, col: 0, .. })));
    assert!(matches!(DecisionTable::create(src), Err(DtError::CellParse { row: 3, col: 0, .. })));
}

#[test]
fn table_selects_results_in_table_order() {
    let dt = people_table();
    assert_eq!(dt.check_all(&people_query(40, "Kyiv")).unwrap(), vec!["A"]);
    assert_eq!(dt.check_all(&people_query(40, "Lviv")).unwrap(), vec!["B"]);
    assert_eq!(dt.check_all(&people_query(70, "Odesa")).unwrap(), vec!["C"]);
    assert_eq!(dt.check_all(&people_query(10, "Odesa")).unwrap(), Vec::<String>::new());
}

#[test]
fn table_reports_the_first_rule_that_cannot_read_the_query() {
    let dt = people_table();
    let q = query(vec![("city", JsonScalar::Str("Kyiv".to_string()))]);
    match dt.check_all(&q) {
        Err(DtError::FieldNotFound { field }) => assert_eq!(field, "age"),
        other => panic!("unexpected {:?}", other),
    }
    let q = query(vec![("age", JsonScalar::F64(FloatReadings { as_f64: key(1.5), as_f32: key(1.5) }))]);
    assert!(matches!(dt.check_all(&q), Err(DtError::QueryConversion { .. })));
}

#[test]
fn parallel_check_answers_as_check_all() {
    let dt = people_table();
    for (age, city) in [(40, "Kyiv"), (40, "Lviv"), (70, "Odesa"), (1, "x")] {
        let q = people_query(age, city);
        assert_eq!(dt.check_all_parallel(&q).unwrap(), dt.check_all(&q).unwrap());
    }
}

#[test]
fn cached_check_answers_as_check_all_again_and_again() {
    let mut dt = people_table();
    for _ in 0..3 {
        for (age, city) in [(40, "Kyiv"), (40, "Lviv"), (70, "Odesa"), (1, "x")] {
            let q = people_query(age, city);
            let plain = dt.check_all(&q).unwrap();
            assert_eq!(dt.check_all_cached(&q).unwrap(), plain);
        }
    }
}

#[test]
fn cached_check_needs_a_rule_that_remembers() {
    let s = sheet(vec![
        vec![text("x"), text("out")],
        vec![text("Number"), text("String")],
        vec![text("<"), text("=")],
        vec![float(0.5), text("low")],
        vec![float(1.5), text("high")],
    ]);
    let (src, r) = source(s);
    r.unwrap();
    let mut dt = DecisionTable::create(src).unwrap();
    let q = query(vec![("x", JsonScalar::F64(FloatReadings { as_f64: key(1.0), as_f32: key(1.0) }))]);
    assert_eq!(dt.check_all(&q).unwrap(), vec!["high"]);
    assert!(matches!(dt.check_all_cached(&q), Err(DtError::NoRules)));
}

#[test]
fn short_sheet_still_answers_rule_questions() {
    let (src, r) = source(sheet(vec![vec![text("a"), text("out")]]));
    assert!(matches!(r, Err(DtError::TooFewRows)));
    assert!(!src.is_ready());
    assert!(matches!(src.get_rules_count(), Err(DtError::NotInitialized)));
    assert!(matches!(src.get_rule_data(0), Err(DtError::NotInitialized)));
    assert!(matches!(src.get_u8_rule_values(5), Err(DtError::ColumnOutOfRange { col: 5, width: 2 })));
}
