use decision_tables_service::decession_table::{CSVData, IntegerData, OrderedSeq, StringData, TimeZoneOffset};
use decision_tables_service::json::{FloatReadings, JsonField, JsonScalar, JsonValue};
use decision_tables_service::json_parseable::{ConversionError, JsonParseable};
use decision_tables_service::text::{chars_equal, chars_of, find_char, parse_integer, replace_char, sub_chars};
use decision_tables_service::values::{F32Key, F64Key, FloatKey, Timestamp};
use decision_tables_service::xlsx_dt_data_source::{Cell, CellReader, CellValue, DateTimeReader};

fn key(x: f64) -> FloatKey {
    if x.is_nan() {
        return FloatKey { is_nan: true, key: 0 };
    }
    let x = if x == 0.0 { 0.0 } else { x };
    let b = x.to_bits();
    let k = if b >> 63 == 1 { !b } else { b | (1u64 << 63) };
    FloatKey { is_nan: false, key: k }
}

#[test]
fn integers_read_from_either_json_reading() {
    assert_eq!(i64::parse(&JsonScalar::U64(7)), Ok(7));
    assert_eq!(i64::parse(&JsonScalar::I64(-7)), Ok(-7));
    assert_eq!(i64::parse(&JsonScalar::U64(u64::MAX)), Err(ConversionError::NotI64));
    assert_eq!(u64::parse(&JsonScalar::I64(-1)), Err(ConversionError::NotU64));
    assert_eq!(u64::parse(&JsonScalar::U64(u64::MAX)), Ok(u64::MAX));
    assert_eq!(u8::parse(&JsonScalar::I64(255)), Ok(255));
    assert_eq!(u8::parse(&JsonScalar::I64(256)), Err(ConversionError::OutOfRange));
    assert_eq!(u16::parse(&JsonScalar::U64(65536)), Err(ConversionError::OutOfRange));
    assert_eq!(u32::parse(&JsonScalar::U64(4_294_967_295)), Ok(u32::MAX));
    assert_eq!(i8::parse(&JsonScalar::I64(-128)), Ok(-128));
    assert_eq!(i8::parse(&JsonScalar::I64(128)), Err(ConversionError::OutOfRange));
    assert_eq!(i16::parse(&JsonScalar::I64(-32769)), Err(ConversionError::OutOfRange));
    assert_eq!(i32::parse(&JsonScalar::U64(2_147_483_647)), Ok(i32::MAX));
    assert_eq!(i32::parse(&JsonScalar::Str("1".to_string())), Err(ConversionError::NotI64));
    assert_eq!(u8::parse(&JsonScalar::Null), Err(ConversionError::NotU64));
}

#[test]
fn floats_read_only_from_float_readings() {
    let r = FloatReadings { as_f64: key(0.1), as_f32: key(0.1f32 as f64) };
    assert_eq!(F64Key::parse(&JsonScalar::F64(r)), Ok(F64Key(key(0.1))));
    assert_eq!(F32Key::parse(&JsonScalar::F64(r)), Ok(F32Key(key(0.1f32 as f64))));
    assert_eq!(F64Key::parse(&JsonScalar::I64(1)), Err(ConversionError::NotF64));
}

#[test]
fn bools_and_strings() {
    assert_eq!(bool::parse(&JsonScalar::Bool(true)), Ok(true));
    assert_eq!(bool::parse(&JsonScalar::Str("true".to_string())), Err(ConversionError::NotBool));
    assert_eq!(String::parse(&JsonScalar::Str("x".to_string())), Ok("x".to_string()));
    assert_eq!(String::parse(&JsonScalar::Array), Err(ConversionError::NotString));
}

#[test]
fn date_times_in_query_format() {
    let t = Timestamp::parse(&JsonScalar::Str("01.02.2024T10:00:00+02:00".to_string())).unwrap();
    assert_eq!(t, Timestamp { secs: 1706774400, nanos: 0 });
    assert_eq!(
        Timestamp::parse(&JsonScalar::Str("01.02.2024T10:00:00".to_string())),
        Err(ConversionError::DateTimeFormat)
    );
    assert_eq!(Timestamp::parse(&JsonScalar::I64(0)), Err(ConversionError::NotString));
}

#[test]
fn query_date_times_carry_their_offset() {
    let t = Timestamp::parse(&JsonScalar::Str("01.02.2024T10:00:00-01:30".to_string())).unwrap();
    assert_eq!(t, Timestamp { secs: 1706781600 + 5400, nanos: 0 });
}

#[test]
fn cell_date_times_are_placed_in_the_column_zone() {
    let reader = DateTimeReader {
        zone: TimeZoneOffset::east_opt(600).unwrap(),
        format: "%d.%m.%YT%H:%M:%S".to_string(),
    };
    let text = |s: &str| Cell {
        value: CellValue::String { text: s.to_string(), parsed_f32: None, parsed_f64: None, decimal: None },
        display: s.to_string(),
    };
    assert_eq!(
        reader.read(&text("01.02.2024T10:00:00"), 3, 0).ok(),
        Some(Timestamp { secs: 1706781600 - 600, nanos: 0 })
    );
    assert!(reader.read(&text("31.02.2024T10:00:00"), 3, 0).is_err());
    assert_eq!(
        reader.place(Timestamp { secs: 1000, nanos: 3 }, 3, 0).ok(),
        Some(Timestamp { secs: 400, nanos: 3 })
    );
    assert!(reader.place(Timestamp { secs: i64::MAX / 2, nanos: 0 }, 3, 0).is_err());
    assert!(reader.place(Timestamp { secs: 8_000_000_000_000, nanos: 999_999_999 }, 3, 0).is_ok());
    assert!(reader.place(Timestamp { secs: -8_000_000_000_000, nanos: 0 }, 3, 0).is_ok());
    let local = Cell {
        value: CellValue::DateTimeIso { text: String::new(), local: Some(Timestamp { secs: 5000, nanos: 0 }) },
        display: String::new(),
    };
    assert_eq!(reader.read(&local, 4, 1).ok(), Some(Timestamp { secs: 4400, nanos: 0 }));
    let flag = Cell { value: CellValue::Bool(true), display: "true".to_string() };
    assert!(reader.read(&flag, 4, 1).is_err());
}

#[test]
fn time_zone_offsets_stay_within_a_day() {
    assert_eq!(TimeZoneOffset::east_opt(-3600).map(|o| o.secs()), Some(-3600));
    assert!(TimeZoneOffset::east_opt(86_400).is_none());
    assert!(TimeZoneOffset::east_opt(-86_400).is_none());
}

#[test]
fn json_get_takes_the_first_field_of_a_name() {
    let doc = JsonValue::Object(vec![
        JsonField { name: "a".to_string(), value: JsonScalar::I64(1) },
        JsonField { name: "a".to_string(), value: JsonScalar::I64(2) },
    ]);
    assert!(matches!(doc.get("a"), Some(JsonScalar::I64(1))));
    assert!(doc.get("b").is_none());
    assert!(JsonValue::Scalar(JsonScalar::Null).get("a").is_none());
    assert_eq!(JsonScalar::U64(5).as_i64(), Some(5));
    assert_eq!(JsonScalar::I64(-5).as_u64(), None);
    assert_eq!(JsonScalar::Str("s".to_string()).as_str(), Some("s"));
    assert_eq!(JsonScalar::Bool(false).as_bool(), Some(false));
}

#[test]
fn column_data_keep_what_they_are_given() {
    let d = IntegerData::new(true, -3);
    assert!(d.has_negative());
    assert_eq!(d.max_value(), -3);
    let s = StringData::new(12, false);
    assert_eq!(s.max_length(), 12);
    assert!(!s.contains_utf());
}

#[test]
fn csv_rows_read_as_named_values() {
    let data = CSVData::new(
        vec!["a".to_string(), "b".to_string()],
        vec![vec!["1".to_string(), "2".to_string()], vec!["x".to_string()]],
    );
    assert_eq!(OrderedSeq::len(&data), 2);
    assert_eq!(data.item(0).unwrap(), "{\"a\": \"1\", \"b\": \"2\"}");
    assert_eq!(data.item(1).unwrap(), "{\"a\": \"x\", }");
    assert!(data.item(2).is_none());
    let plain = vec!["r".to_string()];
    assert_eq!(OrderedSeq::item(&plain, 0), Some("r".to_string()));
    assert_eq!(OrderedSeq::item(&plain, 1), None);
}

#[test]
fn integers_parse_as_str_parse_does() {
    let p = |s: &str, signed: bool| parse_integer(&chars_of(s), signed, -128, 127);
    assert_eq!(p("42", true), Some(42));
    assert_eq!(p("+42", false), Some(42));
    assert_eq!(p("-128", true), Some(-128));
    assert_eq!(p("-1", false), None);
    assert_eq!(p("128", true), None);
    assert_eq!(p("", true), None);
    assert_eq!(p("-", true), None);
    assert_eq!(p("1 ", true), None);
    assert_eq!(p("0007", true), Some(7));
}

#[test]
fn text_helpers() {
    let s = chars_of("2,5");
    assert_eq!(replace_char(&s, ',', '.'), chars_of("2.5"));
    assert_eq!(find_char(&s, ','), Some(1));
    assert_eq!(find_char(&s, ':'), None);
    assert_eq!(sub_chars(&s, 1, 3), chars_of(",5"));
    assert!(chars_equal(&s, "2,5"));
    assert!(!chars_equal(&s, "2.5"));
}
