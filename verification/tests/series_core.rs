use axion::{DataType, Scalar, Series};

fn int_cells(s: &Series) -> Vec<Option<i32>> {
    s.data_internal()
        .iter()
        .map(|c| match c {
            Some(Scalar::Int32(v)) => Some(*v),
            None => None,
            other => panic!("expected a 32-bit integer cell, found {:?}", other),
        })
        .collect()
}

fn int_series(name: &str, vals: &[Option<i32>]) -> Series {
    Series::new_from_options(
        name.to_string(),
        DataType::Int32,
        vals.iter().map(|v| v.map(Scalar::Int32)).collect(),
    )
    .unwrap()
}

fn bool_series(name: &str, vals: &[Option<bool>]) -> Series {
    Series::new_from_options(
        name.to_string(),
        DataType::Bool,
        vals.iter().map(|v| v.map(Scalar::Bool)).collect(),
    )
    .unwrap()
}

fn create_int_series() -> Series {
    int_series("int_series", &[Some(1), Some(2), Some(3), Some(4)])
}

#[test]
fn test_series_creation_new() {
    let s1 = Series::new(
        "s1".to_string(),
        DataType::Int32,
        vec![Scalar::Int32(1), Scalar::Int32(2), Scalar::Int32(3)],
    )
    .unwrap();
    assert_eq!(s1.name(), "s1");
    assert_eq!(s1.dtype(), DataType::Int32);
    assert_eq!(s1.len(), 3);
    assert_eq!(int_cells(&s1), vec![Some(1), Some(2), Some(3)]);

    let s3 = Series::new(
        "s3".to_string(),
        DataType::Int8,
        vec![Scalar::Int8(5), Scalar::Int8(6)],
    )
    .unwrap();
    assert_eq!(s3.name(), "s3");
    assert_eq!(s3.dtype(), DataType::Int8);
    assert_eq!(s3.len(), 2);
    assert_eq!(
        s3.data_internal(),
        &vec![Some(Scalar::Int8(5)), Some(Scalar::Int8(6))]
    );
}

#[test]
fn test_series_creation_empty() {
    let s_empty = Series::new_empty("empty_int".to_string(), DataType::Int32);
    assert_eq!(s_empty.name(), "empty_int");
    assert_eq!(s_empty.dtype(), DataType::Int32);
    assert!(s_empty.is_empty());
    assert_eq!(s_empty.len(), 0);

    let s_null_dtype = Series::new_empty("empty_kindless".to_string(), DataType::Null);
    assert_eq!(s_null_dtype.dtype(), DataType::Null);
}

#[test]
fn test_series_creation_new_from_empty_vec() {
    let empty_vec: Vec<Scalar> = Vec::new();
    let empty_series = Series::new("empty_vec_series".to_string(), DataType::Int32, empty_vec)
        .unwrap();
    assert!(empty_series.is_empty());
    assert_eq!(empty_series.len(), 0);
    assert_eq!(empty_series.name(), "empty_vec_series");
    assert_eq!(empty_series.dtype(), DataType::Int32);
}

#[test]
fn test_series_creation_new_from_empty_array() {
    let empty_array: Vec<Scalar> = Vec::new();
    let empty_series = Series::new("empty_bool_array".to_string(), DataType::Bool, empty_array)
        .unwrap();
    assert!(empty_series.is_empty());
    assert_eq!(empty_series.len(), 0);
    assert_eq!(empty_series.name(), "empty_bool_array");
    assert_eq!(empty_series.dtype(), DataType::Bool);
}

#[test]
fn test_series_kind_validation() {
    let mixed = vec![Scalar::Int32(1), Scalar::Bool(true)];
    let r = Series::new("bad".to_string(), DataType::Int32, mixed);
    assert!(r.is_err());
}

#[test]
fn test_basic_properties() {
    let s = create_int_series();
    assert_eq!(s.name(), "int_series");
    assert_eq!(s.dtype(), DataType::Int32);
    assert_eq!(s.len(), 4);
    assert!(!s.is_empty());
}

#[test]
fn test_get_and_get_opt() {
    let s = int_series("vals", &[Some(10), None, Some(30)]);
    assert_eq!(s.get(0), Some(&Scalar::Int32(10)));
    assert_eq!(s.get(1), None);
    assert_eq!(s.get(2), Some(&Scalar::Int32(30)));
    assert_eq!(s.get(3), None);
    assert_eq!(s.get_opt(1), Some(None));
    assert_eq!(s.get_opt(3), None);
}

#[test]
fn test_take_inner() {
    let s = Series::new(
        "take_test".to_string(),
        DataType::Int32,
        vec![Scalar::Int32(10), Scalar::Int32(20)],
    )
    .unwrap();
    let inner_vec = s.take_inner();
    assert_eq!(inner_vec, vec![Some(Scalar::Int32(10)), Some(Scalar::Int32(20))]);
}

#[test]
fn test_modification_push() {
    let mut s = Series::new_empty("push_test".to_string(), DataType::Null);
    assert_eq!(s.dtype(), DataType::Null);
    s.push(Some(Scalar::Int32(10)));
    assert_eq!(s.len(), 1);
    assert_eq!(s.dtype(), DataType::Int32);
    assert_eq!(int_cells(&s), vec![Some(10)]);
    s.push(None);
    assert_eq!(s.len(), 2);
    assert_eq!(s.dtype(), DataType::Int32);
    assert_eq!(int_cells(&s), vec![Some(10), None]);
    s.push(Some(Scalar::Int32(20)));
    assert_eq!(s.len(), 3);
    assert_eq!(int_cells(&s), vec![Some(10), None, Some(20)]);
    assert!(!s.is_sorted());
}

#[test]
fn test_modification_clear() {
    let mut s = create_int_series();
    s.set_sorted_flag(true, false);
    assert!(!s.is_empty());
    assert!(s.is_sorted());
    s.clear();
    assert!(s.is_empty());
    assert_eq!(s.len(), 0);
    assert_eq!(s.dtype(), DataType::Null);
    assert_eq!(s.data_internal(), &Vec::<Option<Scalar>>::new());
    assert!(!s.is_sorted());
}

#[test]
fn test_modification_rename() {
    let mut s = create_int_series();
    assert_eq!(s.name(), "int_series");
    s.rename("new_name".to_string());
    assert_eq!(s.name(), "new_name");
}

#[test]
fn test_modification_with_name() {
    let s = create_int_series();
    assert_eq!(s.name(), "int_series");
    let s_renamed = s.with_name("another_name".to_string());
    assert_eq!(s_renamed.name(), "another_name");
}

#[test]
fn test_flags() {
    let mut s = create_int_series();
    let flags = s.get_flags();
    assert!(!flags.is_sorted_ascending());
    assert!(!flags.is_sorted_descending());
    assert!(!flags.is_sorted());

    s.set_sorted_flag(true, false);
    assert!(s.is_sorted_ascending());
    assert!(!s.is_sorted_descending());
    assert!(s.is_sorted());

    s.set_sorted_flag(false, true);
    assert!(!s.is_sorted_ascending());
    assert!(s.is_sorted_descending());
    assert!(s.is_sorted());

    s.push(Some(Scalar::Int32(5)));
    assert!(!s.is_sorted_ascending());
    assert!(!s.is_sorted_descending());
    assert!(!s.is_sorted());
}

#[test]
fn test_sort() {
    let mut s = int_series(
        "sort_test",
        &[Some(3), None, Some(1), Some(4), None, Some(1)],
    );
    assert!(!s.is_sorted());

    s.sort(false);
    assert_eq!(
        int_cells(&s),
        vec![None, None, Some(1), Some(1), Some(3), Some(4)]
    );
    assert!(s.is_sorted_ascending());
    assert!(!s.is_sorted_descending());
    assert!(s.is_sorted());

    s.sort(true);
    assert_eq!(
        int_cells(&s),
        vec![Some(4), Some(3), Some(1), Some(1), None, None]
    );
    assert!(!s.is_sorted_ascending());
    assert!(s.is_sorted_descending());
    assert!(s.is_sorted());
}

#[test]
fn test_filter() {
    let s_int = int_series("s_int", &[Some(10), None, Some(30), Some(40)]);
    let mask = bool_series("mask", &[Some(true), Some(false), None, Some(true)]);

    let s_filtered = s_int.filter(&mask);

    assert_eq!(s_filtered.name(), "s_int");
    assert_eq!(s_filtered.dtype(), DataType::Int32);
    assert_eq!(s_filtered.len(), 2);
    assert_eq!(int_cells(&s_filtered), vec![Some(10), Some(40)]);
}

#[test]
fn test_take_indices_and_slice() {
    let s = int_series("vals", &[Some(10), Some(20), Some(30), Some(40)]);
    let taken = s.take_indices(&vec![3, 0, 0]).unwrap();
    assert_eq!(int_cells(&taken), vec![Some(40), Some(10), Some(10)]);
    match s.take_indices(&vec![4]) {
        Err(axion::AxionError::IndexOutOfBounds(idx, len)) => {
            assert_eq!(idx, 4);
            assert_eq!(len, 4);
        }
        _ => panic!("Expected IndexOutOfBounds error"),
    }

    let gapped = s
        .take_indices_option(&vec![Some(1), None, Some(2)])
        .unwrap();
    assert_eq!(int_cells(&gapped), vec![Some(20), None, Some(30)]);

    let sliced = s.slice(1, 2);
    assert_eq!(int_cells(&sliced), vec![Some(20), Some(30)]);
    let clamped = s.slice(3, 10);
    assert_eq!(int_cells(&clamped), vec![Some(40)]);
}

#[test]
fn test_bool_all_any() {
    let s_bool1 = bool_series("b1", &[Some(true), Some(true), None]);
    assert!(!s_bool1.all());
    assert!(s_bool1.any());

    let s_bool2 = bool_series("b2", &[Some(true), Some(true), Some(true)]);
    assert!(s_bool2.all());
    assert!(s_bool2.any());

    let s_bool3 = bool_series("b3", &[Some(false), None, Some(false)]);
    assert!(!s_bool3.all());
    assert!(!s_bool3.any());

    let s_bool4 = Series::new_empty("b4".to_string(), DataType::Bool);
    assert!(s_bool4.all());
    assert!(!s_bool4.any());
}

#[test]
fn series_test_equals() {
    let s1a = int_series("a", &[Some(1), None, Some(3)]);
    let s1b = int_series("a", &[Some(1), None, Some(3)]);
    let s1c = int_series("a", &[Some(1), Some(0), Some(3)]);
    let s1d = int_series("a", &[Some(1), None, Some(4)]);
    let s2_name = int_series("b", &[Some(1), None, Some(3)]);
    let s4_len = int_series("a", &[Some(1), None]);

    assert!(s1a.equals(&s1b));
    assert!(!s1a.equals(&s1c));
    assert!(!s1a.equals(&s1d));
    assert!(!s1a.equals(&s2_name));
    assert!(!s1a.equals(&s4_len));
}

#[test]
fn test_equals_missing() {
    let s1a = int_series("a", &[Some(1), None, Some(3)]);
    let s1b = int_series("a", &[Some(1), None, Some(3)]);
    let s1c = int_series("a", &[Some(1), Some(0), Some(3)]);
    let s1d = int_series("a", &[Some(1), None, Some(4)]);
    let s2_name = int_series("b", &[Some(1), None, Some(3)]);
    let s4_len = int_series("a", &[Some(1), None]);

    assert!(s1a.equals_missing(&s1b));
    assert!(!s1a.equals_missing(&s1c));
    assert!(!s1a.equals_missing(&s1d));
    assert!(!s1a.equals_missing(&s2_name));
    assert!(!s1a.equals_missing(&s4_len));

    let s_n1 = int_series("n", &[None, Some(1), None]);
    let s_n2 = int_series("n", &[None, Some(1), None]);
    let s_n3 = int_series("n", &[Some(0), Some(1), None]);
    assert!(s_n1.equals_missing(&s_n2));
    assert!(!s_n1.equals_missing(&s_n3));
}

#[test]
fn test_series_is_null_and_fill_null() {
    let s = int_series("a", &[Some(1), None, Some(3), None]);
    let is_null = s.is_null();
    assert_eq!(
        is_null.data_internal(),
        &vec![
            Some(Scalar::Bool(false)),
            Some(Scalar::Bool(true)),
            Some(Scalar::Bool(false)),
            Some(Scalar::Bool(true))
        ]
    );

    let filled = s.fill_null(Scalar::Int32(99));
    assert_eq!(int_cells(&filled), vec![Some(1), Some(99), Some(3), Some(99)]);

    let present = s.not_null();
    assert_eq!(
        present.data_internal(),
        &vec![
            Some(Scalar::Bool(true)),
            Some(Scalar::Bool(false)),
            Some(Scalar::Bool(true)),
            Some(Scalar::Bool(false))
        ]
    );
}

#[test]
fn test_series_aggregation() {
    let series_int = int_series("int_agg", &[Some(10), Some(20), None, Some(5), Some(10)]);

    assert_eq!(series_int.sum(), Some(Scalar::Int32(45)));
    assert_eq!(series_int.min(), Some(Scalar::Int32(5)));
    assert_eq!(series_int.max(), Some(Scalar::Int32(20)));

    let series_empty_int = Series::new_empty("empty_int_agg".to_string(), DataType::Int32);
    assert_eq!(series_empty_int.sum(), None);
    assert_eq!(series_empty_int.min(), None);
    assert_eq!(series_empty_int.max(), None);

    let series_only_none = int_series("only_none_agg", &[None, None]);
    assert_eq!(series_only_none.sum(), None);
    assert_eq!(series_only_none.min(), None);
    assert_eq!(series_only_none.max(), None);
}

#[test]
fn test_string_aggregation_order() {
    let s = Series::new(
        "names".to_string(),
        DataType::String,
        vec![
            Scalar::Str("pear".to_string()),
            Scalar::Str("apple".to_string()),
            Scalar::Str("quince".to_string()),
        ],
    )
    .unwrap();
    assert_eq!(s.min(), Some(Scalar::Str("apple".to_string())));
    assert_eq!(s.max(), Some(Scalar::Str("quince".to_string())));
}

#[test]
fn test_compare_row_null_policy() {
    let s = int_series("vals", &[Some(2), None, Some(5)]);
    assert_eq!(s.compare_row(0, 2), std::cmp::Ordering::Less);
    assert_eq!(s.compare_row(2, 0), std::cmp::Ordering::Greater);
    assert_eq!(s.compare_row(0, 0), std::cmp::Ordering::Equal);
    // a missing cell sorts after any value
    assert_eq!(s.compare_row(1, 0), std::cmp::Ordering::Greater);
    assert_eq!(s.compare_row(0, 1), std::cmp::Ordering::Less);
}

#[test]
fn test_get_str_rendering() {
    let s = int_series("vals", &[Some(-42), None]);
    assert_eq!(s.get_str(0), Some("-42".to_string()));
    assert_eq!(s.get_str(1), Some("null".to_string()));
    assert_eq!(s.get_str(2), None);

    let b = Series::new("b".to_string(), DataType::Bool, vec![Scalar::Bool(true)]).unwrap();
    assert_eq!(b.get_str(0), Some("true".to_string()));

    let t = Series::new(
        "t".to_string(),
        DataType::String,
        vec![Scalar::Str("word".to_string())],
    )
    .unwrap();
    assert_eq!(t.get_str(0), Some("word".to_string()));
}

#[test]
fn test_series_apply() {
    let series = int_series("nums", &[Some(1), Some(2), None, Some(4)]);

    let series_plus_10 = series
        .apply(DataType::Int32, &|c: &Option<Scalar>| match c {
            Some(Scalar::Int32(v)) => Some(Scalar::Int32(v + 10)),
            _ => None,
        })
        .unwrap();
    assert_eq!(series_plus_10.name(), "nums");
    assert_eq!(series_plus_10.dtype(), DataType::Int32);
    assert_eq!(int_cells(&series_plus_10), vec![Some(11), Some(12), None, Some(14)]);

    // a missing input can still yield a present output
    let series_fill_none = series
        .apply(DataType::Int32, &|c: &Option<Scalar>| match c {
            Some(Scalar::Int32(v)) => Some(Scalar::Int32(v * 2)),
            _ => Some(Scalar::Int32(0)),
        })
        .unwrap();
    assert_eq!(series_fill_none.name(), "nums");
    assert_eq!(series_fill_none.dtype(), DataType::Int32);
    assert_eq!(int_cells(&series_fill_none), vec![Some(2), Some(4), Some(0), Some(8)]);

    let empty = Series::new_empty("empty".to_string(), DataType::String);
    let applied_empty = empty
        .apply(DataType::Int32, &|_c: &Option<Scalar>| {
            panic!("the function must not run on an empty column")
        })
        .unwrap();
    assert_eq!(applied_empty.name(), "empty");
    assert_eq!(applied_empty.dtype(), DataType::Int32);
    assert!(applied_empty.is_empty());

    let nones = int_series("nones", &[None, None]);
    let applied_nones = nones
        .apply(DataType::String, &|c: &Option<Scalar>| match c {
            Some(Scalar::Int32(v)) => Some(Scalar::Str(format!("{}", v))),
            _ => Some(Scalar::Str("missing".to_string())),
        })
        .unwrap();
    assert_eq!(applied_nones.name(), "nones");
    assert_eq!(applied_nones.dtype(), DataType::String);
    assert_eq!(
        applied_nones.data_internal(),
        &vec![
            Some(Scalar::Str("missing".to_string())),
            Some(Scalar::Str("missing".to_string()))
        ]
    );
}

#[test]
fn test_map() {
    let s = int_series("s_int", &[Some(1), None, Some(3)]);
    let s_mapped = s
        .map(DataType::String, &|c: &Option<Scalar>| match c {
            Some(Scalar::Int32(v)) => Some(Scalar::Str(format!("val: {}", v * 2))),
            _ => None,
        })
        .unwrap();
    assert_eq!(s_mapped.name(), "s_int");
    assert_eq!(s_mapped.dtype(), DataType::String);
    assert_eq!(s_mapped.len(), 3);
    assert_eq!(
        s_mapped.data_internal(),
        &vec![
            Some(Scalar::Str("val: 2".to_string())),
            None,
            Some(Scalar::Str("val: 6".to_string()))
        ]
    );
}

#[test]
fn test_series_par_apply_simple_multiplication() {
    let s1 = int_series("integers", &[Some(1), Some(2), None, Some(4), Some(5)]);
    let s_doubled = s1
        .par_apply(DataType::Int32, &|c: &Option<Scalar>| match c {
            Some(Scalar::Int32(v)) => Some(Scalar::Int32(v * 2)),
            _ => None,
        })
        .unwrap();

    assert_eq!(s_doubled.name(), "integers");
    assert_eq!(s_doubled.dtype(), DataType::Int32);
    assert_eq!(
        int_cells(&s_doubled),
        vec![Some(2), Some(4), None, Some(8), Some(10)]
    );
}

#[test]
fn test_series_par_apply_type_conversion_to_string() {
    let s1 = int_series("numbers", &[Some(10), None, Some(30)]);
    let s_stringified = s1
        .par_apply(DataType::String, &|c: &Option<Scalar>| match c {
            Some(Scalar::Int32(v)) => Some(Scalar::Str(format!("{}", v))),
            _ => None,
        })
        .unwrap();

    assert_eq!(s_stringified.name(), "numbers");
    assert_eq!(s_stringified.dtype(), DataType::String);
    assert_eq!(
        s_stringified.data_internal(),
        &vec![Some(Scalar::Str("10".to_string())), None, Some(Scalar::Str("30".to_string()))]
    );
}

#[test]
fn test_series_par_apply_on_empty_series() {
    let s_empty_i32 = Series::new_empty("empty_i32".to_string(), DataType::Int32);
    let s_applied_i32 = s_empty_i32
        .par_apply(DataType::Int32, &|c: &Option<Scalar>| match c {
            Some(Scalar::Int32(v)) => Some(Scalar::Int32(v + 100)),
            _ => None,
        })
        .unwrap();

    assert!(s_applied_i32.is_empty());
    assert_eq!(s_applied_i32.name(), "empty_i32");
    assert_eq!(s_applied_i32.dtype(), DataType::Int32);

    let s_empty_str = Series::new_empty("empty_str".to_string(), DataType::String);
    let s_applied_len = s_empty_str
        .par_apply(DataType::Int64, &|c: &Option<Scalar>| match c {
            Some(Scalar::Str(s)) => Some(Scalar::Int64(s.len() as i64)),
            _ => None,
        })
        .unwrap();

    assert!(s_applied_len.is_empty());
    assert_eq!(s_applied_len.name(), "empty_str");
    assert_eq!(s_applied_len.dtype(), DataType::Int64);
}

#[test]
fn test_par_apply_all_missing_cells() {
    let s1 = int_series("all_none", &[None, None, None]);
    let s_processed = s1
        .par_apply(DataType::Int32, &|c: &Option<Scalar>| match c {
            Some(Scalar::Int32(v)) => Some(Scalar::Int32(v * v)),
            _ => None,
        })
        .unwrap();

    assert_eq!(s_processed.name(), "all_none");
    assert_eq!(s_processed.dtype(), DataType::Int32);
    assert_eq!(int_cells(&s_processed), vec![None, None, None]);
}
