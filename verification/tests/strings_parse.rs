use axion::{
    infer_column_type, is_float_literal, parse_column_as_type, try_parse_bool, try_parse_i64,
    AxionError, DataType, QuoteStyle, ReadCsvOptions, Scalar, Series, WriteCsvOptions,
};

fn sp_str_series(name: &str, vals: &[Option<&str>]) -> Series {
    Series::new_from_options(
        name.to_string(),
        DataType::String,
        vals.iter()
            .map(|v| v.map(|s| Scalar::Str(s.to_string())))
            .collect(),
    )
    .unwrap()
}

fn sp_bool_cells(s: &Series) -> Vec<Option<bool>> {
    s.data_internal()
        .iter()
        .map(|c| match c {
            Some(Scalar::Bool(v)) => Some(*v),
            None => None,
            other => panic!("expected a boolean cell, found {:?}", other),
        })
        .collect()
}

fn sp_str_cells(s: &Series) -> Vec<Option<String>> {
    s.data_internal()
        .iter()
        .map(|c| match c {
            Some(Scalar::Str(v)) => Some(v.clone()),
            None => None,
            other => panic!("expected a text cell, found {:?}", other),
        })
        .collect()
}

#[test]
fn test_series_string_ops() {
    let series_str = sp_str_series(
        "text",
        &[
            Some("hello"),
            Some("world"),
            None,
            Some("rust"),
            Some(""),
            Some("hello rust"),
        ],
    );

    let contains_o = series_str.str().contains("o").unwrap();
    assert_eq!(contains_o.name(), "text_contains_o");
    assert_eq!(contains_o.dtype(), DataType::Bool);
    assert_eq!(
        sp_bool_cells(&contains_o),
        vec![Some(true), Some(true), None, Some(false), Some(false), Some(true)]
    );

    let contains_xyz = series_str.str().contains("xyz").unwrap();
    assert_eq!(contains_xyz.name(), "text_contains_xyz");
    assert_eq!(
        sp_bool_cells(&contains_xyz),
        vec![Some(false), Some(false), None, Some(false), Some(false), Some(false)]
    );

    let contains_empty = series_str.str().contains("").unwrap();
    assert_eq!(contains_empty.name(), "text_contains_");
    assert_eq!(
        sp_bool_cells(&contains_empty),
        vec![Some(true), Some(true), None, Some(true), Some(true), Some(true)]
    );

    let starts_h = series_str.str().startswith("h").unwrap();
    assert_eq!(starts_h.name(), "text_startswith_h");
    assert_eq!(starts_h.dtype(), DataType::Bool);
    assert_eq!(
        sp_bool_cells(&starts_h),
        vec![Some(true), Some(false), None, Some(false), Some(false), Some(true)]
    );

    let starts_rust = series_str.str().startswith("rust").unwrap();
    assert_eq!(starts_rust.name(), "text_startswith_rust");
    assert_eq!(
        sp_bool_cells(&starts_rust),
        vec![Some(false), Some(false), None, Some(true), Some(false), Some(false)]
    );

    let starts_empty = series_str.str().startswith("").unwrap();
    assert_eq!(starts_empty.name(), "text_startswith_");
    assert_eq!(
        sp_bool_cells(&starts_empty),
        vec![Some(true), Some(true), None, Some(true), Some(true), Some(true)]
    );

    let lengths = series_str.str().str_len().unwrap();
    assert_eq!(lengths.name(), "text_len");
    assert_eq!(lengths.dtype(), DataType::UInt32);
    assert_eq!(
        lengths.data_internal(),
        &vec![
            Some(Scalar::UInt32(5)),
            Some(Scalar::UInt32(5)),
            None,
            Some(Scalar::UInt32(4)),
            Some(Scalar::UInt32(0)),
            Some(Scalar::UInt32(10))
        ]
    );

    let ends_o = series_str.str().endswith("o").unwrap();
    assert_eq!(ends_o.name(), "text_endswith_o");
    assert_eq!(ends_o.dtype(), DataType::Bool);
    assert_eq!(
        sp_bool_cells(&ends_o),
        vec![Some(true), Some(false), None, Some(false), Some(false), Some(false)]
    );

    let ends_rust = series_str.str().endswith("rust").unwrap();
    assert_eq!(ends_rust.name(), "text_endswith_rust");
    assert_eq!(
        sp_bool_cells(&ends_rust),
        vec![Some(false), Some(false), None, Some(true), Some(false), Some(true)]
    );

    let ends_empty = series_str.str().endswith("").unwrap();
    assert_eq!(ends_empty.name(), "text_endswith_");
    assert_eq!(
        sp_bool_cells(&ends_empty),
        vec![Some(true), Some(true), None, Some(true), Some(true), Some(true)]
    );

    let replaced_l = series_str.str().replace("l", "X").unwrap();
    assert_eq!(replaced_l.name(), "text_replace");
    assert_eq!(replaced_l.dtype(), DataType::String);
    assert_eq!(
        sp_str_cells(&replaced_l),
        vec![
            Some("heXXo".to_string()),
            Some("worXd".to_string()),
            None,
            Some("rust".to_string()),
            Some("".to_string()),
            Some("heXXo rust".to_string()),
        ]
    );

    let replaced_all = series_str.str().replace("hello", "goodbye").unwrap();
    assert_eq!(replaced_all.name(), "text_replace");
    assert_eq!(
        sp_str_cells(&replaced_all),
        vec![
            Some("goodbye".to_string()),
            Some("world".to_string()),
            None,
            Some("rust".to_string()),
            Some("".to_string()),
            Some("goodbye rust".to_string()),
        ]
    );

    let series_mixed_case = sp_str_series(
        "mixed",
        &[Some("Hello"), Some("WORLD"), None, Some("RuSt")],
    );

    let lower = series_mixed_case.str().to_lowercase().unwrap();
    assert_eq!(lower.name(), "mixed_lower");
    assert_eq!(lower.dtype(), DataType::String);
    assert_eq!(
        sp_str_cells(&lower),
        vec![
            Some("hello".to_string()),
            Some("world".to_string()),
            None,
            Some("rust".to_string())
        ]
    );

    let upper = series_mixed_case.str().to_uppercase().unwrap();
    assert_eq!(upper.name(), "mixed_upper");
    assert_eq!(upper.dtype(), DataType::String);
    assert_eq!(
        sp_str_cells(&upper),
        vec![
            Some("HELLO".to_string()),
            Some("WORLD".to_string()),
            None,
            Some("RUST".to_string())
        ]
    );

    let series_whitespace = sp_str_series(
        "whitespace",
        &[
            Some("  hello "),
            Some("\tworld\n"),
            None,
            Some(" rust "),
            Some("   "),
            Some("no_space"),
        ],
    );

    let stripped = series_whitespace.str().strip().unwrap();
    assert_eq!(stripped.name(), "whitespace_strip");
    assert_eq!(stripped.dtype(), DataType::String);
    assert_eq!(
        sp_str_cells(&stripped),
        vec![
            Some("hello".to_string()),
            Some("world".to_string()),
            None,
            Some("rust".to_string()),
            Some("".to_string()),
            Some("no_space".to_string()),
        ]
    );

    let lstripped = series_whitespace.str().lstrip().unwrap();
    assert_eq!(lstripped.name(), "whitespace_lstrip");
    assert_eq!(
        sp_str_cells(&lstripped),
        vec![
            Some("hello ".to_string()),
            Some("world\n".to_string()),
            None,
            Some("rust ".to_string()),
            Some("".to_string()),
            Some("no_space".to_string()),
        ]
    );

    let rstripped = series_whitespace.str().rstrip().unwrap();
    assert_eq!(rstripped.name(), "whitespace_rstrip");
    assert_eq!(
        sp_str_cells(&rstripped),
        vec![
            Some("  hello".to_string()),
            Some("\tworld".to_string()),
            None,
            Some(" rust".to_string()),
            Some("".to_string()),
            Some("no_space".to_string()),
        ]
    );

    let empty_str_series = Series::new_empty("empty_text".to_string(), DataType::String);

    let empty_endswith = empty_str_series.str().endswith("a").unwrap();
    assert!(empty_endswith.is_empty());
    assert_eq!(empty_endswith.dtype(), DataType::Bool);

    let empty_replace = empty_str_series.str().replace("a", "b").unwrap();
    assert!(empty_replace.is_empty());
    assert_eq!(empty_replace.dtype(), DataType::String);

    let empty_lower = empty_str_series.str().to_lowercase().unwrap();
    assert!(empty_lower.is_empty());
    assert_eq!(empty_lower.dtype(), DataType::String);

    let empty_upper = empty_str_series.str().to_uppercase().unwrap();
    assert!(empty_upper.is_empty());
    assert_eq!(empty_upper.dtype(), DataType::String);

    let empty_strip = empty_str_series.str().strip().unwrap();
    assert!(empty_strip.is_empty());
    assert_eq!(empty_strip.dtype(), DataType::String);

    let empty_lstrip = empty_str_series.str().lstrip().unwrap();
    assert!(empty_lstrip.is_empty());
    assert_eq!(empty_lstrip.dtype(), DataType::String);

    let empty_rstrip = empty_str_series.str().rstrip().unwrap();
    assert!(empty_rstrip.is_empty());
    assert_eq!(empty_rstrip.dtype(), DataType::String);
}

#[test]
fn test_string_case_and_trim() {
    let s = sp_str_series("words", &[Some("  Mixed Case  "), None]);
    let acc = s.str();

    let lower = acc.to_lowercase().unwrap();
    assert_eq!(lower.name(), "words_lower");
    assert_eq!(
        sp_str_cells(&lower),
        vec![Some("  mixed case  ".to_string()), None]
    );

    let upper = acc.to_uppercase().unwrap();
    assert_eq!(upper.name(), "words_upper");
    assert_eq!(
        sp_str_cells(&upper),
        vec![Some("  MIXED CASE  ".to_string()), None]
    );

    let stripped = acc.strip().unwrap();
    assert_eq!(stripped.name(), "words_strip");
    assert_eq!(
        sp_str_cells(&stripped),
        vec![Some("Mixed Case".to_string()), None]
    );

    let left = acc.lstrip().unwrap();
    assert_eq!(left.name(), "words_lstrip");
    assert_eq!(
        sp_str_cells(&left),
        vec![Some("Mixed Case  ".to_string()), None]
    );

    let right = acc.rstrip().unwrap();
    assert_eq!(right.name(), "words_rstrip");
    assert_eq!(
        sp_str_cells(&right),
        vec![Some("  Mixed Case".to_string()), None]
    );
}

#[test]
fn test_string_replace() {
    let s = sp_str_series("t", &[Some("one two two"), None, Some("none")]);
    let replaced = s.str().replace("two", "2").unwrap();
    assert_eq!(replaced.name(), "t_replace");
    assert_eq!(
        sp_str_cells(&replaced),
        vec![Some("one 2 2".to_string()), None, Some("none".to_string())]
    );
}

#[test]
fn test_try_parse_i64() {
    assert_eq!(try_parse_i64("0"), Some(0));
    assert_eq!(try_parse_i64("42"), Some(42));
    assert_eq!(try_parse_i64("+42"), Some(42));
    assert_eq!(try_parse_i64("-42"), Some(-42));
    assert_eq!(try_parse_i64("9223372036854775807"), Some(i64::MAX));
    assert_eq!(try_parse_i64("-9223372036854775808"), Some(i64::MIN));
    assert_eq!(try_parse_i64("9223372036854775808"), None);
    assert_eq!(try_parse_i64("99999999999999999999999999"), None);
    assert_eq!(try_parse_i64(""), None);
    assert_eq!(try_parse_i64("-"), None);
    assert_eq!(try_parse_i64("1.5"), None);
    assert_eq!(try_parse_i64("x1"), None);
}

#[test]
fn test_try_parse_bool() {
    assert_eq!(try_parse_bool("true"), Some(true));
    assert_eq!(try_parse_bool("TRUE"), Some(true));
    assert_eq!(try_parse_bool("t"), Some(true));
    assert_eq!(try_parse_bool("Yes"), Some(true));
    assert_eq!(try_parse_bool("y"), Some(true));
    assert_eq!(try_parse_bool("1"), Some(true));
    assert_eq!(try_parse_bool("false"), Some(false));
    assert_eq!(try_parse_bool("F"), Some(false));
    assert_eq!(try_parse_bool("no"), Some(false));
    assert_eq!(try_parse_bool("N"), Some(false));
    assert_eq!(try_parse_bool("0"), Some(false));
    assert_eq!(try_parse_bool("maybe"), None);
    assert_eq!(try_parse_bool(""), None);
}

#[test]
fn test_is_float_literal() {
    assert!(is_float_literal("1"));
    assert!(is_float_literal("-1.5"));
    assert!(is_float_literal("+.5"));
    assert!(is_float_literal("2."));
    assert!(is_float_literal("1e10"));
    assert!(is_float_literal("1.5E-3"));
    assert!(is_float_literal("inf"));
    assert!(is_float_literal("-Infinity"));
    assert!(is_float_literal("NaN"));
    assert!(!is_float_literal(""));
    assert!(!is_float_literal("."));
    assert!(!is_float_literal("1e"));
    assert!(!is_float_literal("abc"));
    assert!(!is_float_literal("1.2.3"));
}

#[test]
fn infer_column_type_ladder() {
    let ints: Vec<Option<String>> =
        vec![Some("1".to_string()), None, Some("".to_string()), Some("-3".to_string())];
    assert_eq!(infer_column_type(&ints, Some(100)), DataType::Int64);

    let floats: Vec<Option<String>> = vec![Some("1.5".to_string()), Some("2".to_string())];
    assert_eq!(infer_column_type(&floats, Some(100)), DataType::Float64);

    let bools: Vec<Option<String>> = vec![Some("yes".to_string()), Some("NO".to_string())];
    assert_eq!(infer_column_type(&bools, Some(100)), DataType::Bool);

    let texts: Vec<Option<String>> = vec![Some("1".to_string()), Some("word".to_string())];
    assert_eq!(infer_column_type(&texts, Some(100)), DataType::String);

    let empty: Vec<Option<String>> = vec![None, Some("".to_string())];
    assert_eq!(infer_column_type(&empty, Some(100)), DataType::String);

    // the sample cap can hide a later non-number
    let capped: Vec<Option<String>> = vec![Some("1".to_string()), Some("word".to_string())];
    assert_eq!(infer_column_type(&capped, Some(1)), DataType::Int64);
    assert_eq!(infer_column_type(&capped, None), DataType::String);
}

#[test]
fn parse_column_round() {
    let texts: Vec<Option<String>> = vec![
        Some("12".to_string()),
        None,
        Some("oops".to_string()),
        Some("-7".to_string()),
    ];
    let ints = parse_column_as_type("nums".to_string(), texts.clone(), &DataType::Int64).unwrap();
    assert_eq!(ints.name(), "nums");
    assert_eq!(ints.dtype(), DataType::Int64);
    assert_eq!(
        ints.data_internal(),
        &vec![Some(Scalar::Int64(12)), None, None, Some(Scalar::Int64(-7))]
    );

    let bools = parse_column_as_type(
        "flags".to_string(),
        vec![Some("yes".to_string()), Some("n".to_string()), None],
        &DataType::Bool,
    )
    .unwrap();
    assert_eq!(
        bools.data_internal(),
        &vec![Some(Scalar::Bool(true)), Some(Scalar::Bool(false)), None]
    );

    let texts_again =
        parse_column_as_type("t".to_string(), texts.clone(), &DataType::String).unwrap();
    assert_eq!(texts_again.dtype(), DataType::String);

    let refused = parse_column_as_type("f".to_string(), texts, &DataType::Float64);
    assert!(matches!(refused, Err(AxionError::UnsupportedOperation(_))));
}

#[test]
fn test_dtype_predicates() {
    assert!(DataType::Float32.is_float());
    assert!(!DataType::Int32.is_float());
    assert!(DataType::Int128.is_integer());
    assert!(DataType::UInt8.is_integer());
    assert!(!DataType::String.is_integer());
    assert!(DataType::Float64.is_numeric());
    assert!(DataType::Int8.is_numeric());
    assert!(!DataType::Int128.is_numeric());
    assert!(!DataType::Bool.is_numeric());
    let list = DataType::List(Box::new(DataType::Int32));
    assert!(!list.is_numeric());
    assert_eq!(list, DataType::List(Box::new(DataType::Int32)));
    assert_ne!(list, DataType::List(Box::new(DataType::Int64)));
}

#[test]
fn test_read_csv_options_builder() {
    let opts = ReadCsvOptions::builder()
        .with_delimiter(b';')
        .with_header(false)
        .infer_schema(true)
        .infer_schema_length(Some(10))
        .skip_rows(2)
        .comment_char(Some(b'#'))
        .add_use_column("a".to_string())
        .add_na_value("NA".to_string())
        .build();
    assert_eq!(opts.delimiter, b';');
    assert!(!opts.has_header);
    assert!(opts.infer_schema);
    assert_eq!(opts.infer_schema_length, Some(10));
    assert_eq!(opts.skip_rows, 2);
    assert_eq!(opts.comment_char, Some(b'#'));
    assert_eq!(opts.use_columns, Some(vec!["a".to_string()]));
    assert!(opts.na_values.unwrap().contains("NA"));

    let defaults = ReadCsvOptions::default();
    assert_eq!(defaults.delimiter, b',');
    assert!(defaults.has_header);
    assert!(defaults.infer_schema);
    assert_eq!(defaults.infer_schema_length, Some(100));
    assert_eq!(defaults.skip_rows, 0);
}

#[test]
fn test_write_csv_options_builder() {
    let opts = WriteCsvOptions::builder()
        .with_header(false)
        .with_delimiter(b'\t')
        .na_representation("NULL".to_string())
        .quote_style(QuoteStyle::Always)
        .line_terminator("\r\n".to_string())
        .build();
    assert!(!opts.has_header);
    assert_eq!(opts.delimiter, b'\t');
    assert_eq!(opts.na_rep, "NULL");
    assert_eq!(opts.quote_style, QuoteStyle::Always);
    assert_eq!(opts.line_terminator, "\r\n");

    let defaults = WriteCsvOptions::default();
    assert!(defaults.has_header);
    assert_eq!(defaults.delimiter, b',');
    assert_eq!(defaults.na_rep, "");
    assert_eq!(defaults.quote_style, QuoteStyle::Necessary);
    assert_eq!(defaults.line_terminator, "\n");
}
