use axion::{AxionError, DataFrame, DataType, Scalar, Series};

fn gb_str_series(name: &str, vals: &[&str]) -> Series {
    Series::new(
        name.to_string(),
        DataType::String,
        vals.iter().map(|s| Scalar::Str(s.to_string())).collect(),
    )
    .unwrap()
}

fn gb_int_series(name: &str, vals: &[i32]) -> Series {
    Series::new(
        name.to_string(),
        DataType::Int32,
        vals.iter().map(|v| Scalar::Int32(*v)).collect(),
    )
    .unwrap()
}

fn gb_int_cells(s: &Series) -> Vec<Option<i32>> {
    s.data_internal()
        .iter()
        .map(|c| match c {
            Some(Scalar::Int32(v)) => Some(*v),
            None => None,
            other => panic!("expected a 32-bit integer cell, found {:?}", other),
        })
        .collect()
}

fn gb_u32_cells(s: &Series) -> Vec<Option<u32>> {
    s.data_internal()
        .iter()
        .map(|c| match c {
            Some(Scalar::UInt32(v)) => Some(*v),
            None => None,
            other => panic!("expected a 32-bit unsigned cell, found {:?}", other),
        })
        .collect()
}

fn gb_str_cells(s: &Series) -> Vec<Option<String>> {
    s.data_internal()
        .iter()
        .map(|c| match c {
            Some(Scalar::Str(v)) => Some(v.clone()),
            None => None,
            other => panic!("expected a text cell, found {:?}", other),
        })
        .collect()
}

#[test]
fn test_groupby_count_single_key_string() {
    // group = [a,b,a,b,a,c], value = [1..6]: counting by group and
    // sorting by it gives a:3, b:2, c:1
    let df = DataFrame::new(vec![
        gb_str_series("group", &["a", "b", "a", "b", "a", "c"]),
        gb_int_series("value", &[1, 2, 3, 4, 5, 6]),
    ])
    .unwrap();

    let grouped_df = df.groupby(vec!["group".to_string()]).unwrap().count().unwrap();
    let sorted_grouped_df = grouped_df
        .sort(&vec!["group".to_string()], &vec![false])
        .unwrap();

    assert_eq!(sorted_grouped_df.shape(), (3, 2));
    assert_eq!(sorted_grouped_df.columns_names(), vec!["group", "count"]);
    assert_eq!(
        sorted_grouped_df.column("group").unwrap().dtype(),
        DataType::String
    );
    assert_eq!(
        sorted_grouped_df.column("count").unwrap().dtype(),
        DataType::UInt32
    );
    assert_eq!(
        gb_str_cells(sorted_grouped_df.column("group").unwrap()),
        vec![Some("a".to_string()), Some("b".to_string()), Some("c".to_string())]
    );
    assert_eq!(
        gb_u32_cells(sorted_grouped_df.column("count").unwrap()),
        vec![Some(3), Some(2), Some(1)]
    );
}

#[test]
fn test_groupby_count_single_key_int() {
    let df = DataFrame::new(vec![
        gb_int_series("id", &[1, 2, 1, 2, 1, 3]),
        gb_str_series("value", &["a", "b", "c", "d", "e", "f"]),
    ])
    .unwrap();

    let grouped_df = df.groupby(vec!["id".to_string()]).unwrap().count().unwrap();
    let sorted_grouped_df = grouped_df
        .sort(&vec!["id".to_string()], &vec![false])
        .unwrap();

    assert_eq!(sorted_grouped_df.shape(), (3, 2));
    assert_eq!(sorted_grouped_df.columns_names(), vec!["id", "count"]);
    assert_eq!(
        gb_int_cells(sorted_grouped_df.column("id").unwrap()),
        vec![Some(1), Some(2), Some(3)]
    );
    assert_eq!(
        gb_u32_cells(sorted_grouped_df.column("count").unwrap()),
        vec![Some(3), Some(2), Some(1)]
    );
}

#[test]
fn test_groupby_count_multi_keys() {
    let df = DataFrame::new(vec![
        gb_str_series("key1", &["a", "a", "b", "b", "a", "b"]),
        gb_int_series("key2", &[1, 2, 1, 1, 1, 2]),
        gb_int_series("value", &[10, 20, 30, 40, 50, 60]),
    ])
    .unwrap();

    let grouped_df = df
        .groupby(vec!["key1".to_string(), "key2".to_string()])
        .unwrap()
        .count()
        .unwrap();
    let sorted_grouped_df = grouped_df
        .sort(
            &vec!["key1".to_string(), "key2".to_string()],
            &vec![false, false],
        )
        .unwrap();

    assert_eq!(sorted_grouped_df.shape(), (4, 3));
    assert_eq!(
        sorted_grouped_df.columns_names(),
        vec!["key1", "key2", "count"]
    );
    assert_eq!(
        gb_str_cells(sorted_grouped_df.column("key1").unwrap()),
        vec![
            Some("a".to_string()),
            Some("a".to_string()),
            Some("b".to_string()),
            Some("b".to_string())
        ]
    );
    assert_eq!(
        gb_int_cells(sorted_grouped_df.column("key2").unwrap()),
        vec![Some(1), Some(2), Some(1), Some(2)]
    );
    assert_eq!(
        gb_u32_cells(sorted_grouped_df.column("count").unwrap()),
        vec![Some(2), Some(1), Some(2), Some(1)]
    );
}

#[test]
fn test_groupby_count_with_nulls_in_key() {
    // a row whose key is missing joins no group: the counts sum to the
    // number of rows with a complete key
    let df = DataFrame::new(vec![
        Series::new_from_options(
            "group".to_string(),
            DataType::String,
            vec![
                Some(Scalar::Str("a".to_string())),
                None,
                Some(Scalar::Str("a".to_string())),
                Some(Scalar::Str("b".to_string())),
                None,
            ],
        )
        .unwrap(),
        gb_int_series("value", &[1, 2, 3, 4, 5]),
    ])
    .unwrap();

    let grouped_df = df.groupby(vec!["group".to_string()]).unwrap().count().unwrap();
    let sorted_grouped_df = grouped_df
        .sort(&vec!["group".to_string()], &vec![false])
        .unwrap();

    assert_eq!(sorted_grouped_df.shape(), (2, 2));
    assert_eq!(
        gb_str_cells(sorted_grouped_df.column("group").unwrap()),
        vec![Some("a".to_string()), Some("b".to_string())]
    );
    let counts = gb_u32_cells(sorted_grouped_df.column("count").unwrap());
    assert_eq!(counts, vec![Some(2), Some(1)]);
    let total: u32 = counts.iter().map(|c| c.unwrap()).sum();
    assert_eq!(total, 3);
}

#[test]
fn test_groupby_count_empty_df() {
    let df = DataFrame::new(vec![
        Series::new_empty("group".to_string(), DataType::String),
        Series::new_empty("value".to_string(), DataType::Int32),
    ])
    .unwrap();

    let grouped_df = df.groupby(vec!["group".to_string()]).unwrap().count().unwrap();
    assert_eq!(grouped_df.shape(), (0, 2));
    assert_eq!(grouped_df.columns_names(), vec!["group", "count"]);
    assert_eq!(grouped_df.column("group").unwrap().dtype(), DataType::String);
    assert_eq!(grouped_df.column("count").unwrap().dtype(), DataType::UInt32);
}

#[test]
fn test_groupby_error_handling() {
    let df = DataFrame::new(vec![gb_int_series("a", &[1, 2])]).unwrap();

    match df.groupby(vec!["nonexistent".to_string()]) {
        Err(AxionError::ColumnNotFound(col)) => assert_eq!(col, "nonexistent"),
        _ => panic!("Expected ColumnNotFound error"),
    }

    // a 64-bit integer key is outside the key kinds the engine takes
    let df_wide = DataFrame::new(vec![Series::new(
        "group".to_string(),
        DataType::Int64,
        vec![Scalar::Int64(1), Scalar::Int64(2)],
    )
    .unwrap()])
    .unwrap();
    match df_wide.groupby(vec!["group".to_string()]) {
        Err(AxionError::UnsupportedOperation(_)) => {}
        _ => panic!("Expected UnsupportedOperation error"),
    }
}

#[test]
fn test_groupby_sum_multi_keys() {
    let df = DataFrame::new(vec![
        gb_str_series("key1", &["a", "a", "b", "b", "a", "b"]),
        gb_int_series("key2", &[1, 2, 1, 1, 1, 2]),
        gb_int_series("value", &[10, 20, 30, 40, 50, 60]),
    ])
    .unwrap();

    let summed_df = df
        .groupby(vec!["key1".to_string(), "key2".to_string()])
        .unwrap()
        .sum()
        .unwrap();
    let sorted_summed_df = summed_df
        .sort(
            &vec!["key1".to_string(), "key2".to_string()],
            &vec![false, false],
        )
        .unwrap();

    assert_eq!(sorted_summed_df.shape(), (4, 3));
    assert_eq!(
        gb_int_cells(sorted_summed_df.column("value").unwrap()),
        vec![Some(60), Some(20), Some(70), Some(60)]
    );
}

#[test]
fn test_groupby_sum_with_nulls_and_nan() {
    // missing cells are skipped; a group whose members are all missing
    // has no sum, never zero
    let df = DataFrame::new(vec![
        gb_str_series("key", &["a", "b", "a", "b"]),
        Series::new_from_options(
            "val".to_string(),
            DataType::Int32,
            vec![Some(Scalar::Int32(1)), None, Some(Scalar::Int32(3)), None],
        )
        .unwrap(),
    ])
    .unwrap();

    let summed_df = df.groupby(vec!["key".to_string()]).unwrap().sum().unwrap();
    let sorted_summed_df = summed_df
        .sort(&vec!["key".to_string()], &vec![false])
        .unwrap();
    assert_eq!(
        gb_str_cells(sorted_summed_df.column("key").unwrap()),
        vec![Some("a".to_string()), Some("b".to_string())]
    );
    assert_eq!(
        gb_int_cells(sorted_summed_df.column("val").unwrap()),
        vec![Some(4), None]
    );
}

#[test]
fn test_groupby_sum_saturates() {
    let df = DataFrame::new(vec![
        gb_str_series("key", &["a", "a"]),
        gb_int_series("val", &[i32::MAX, 1]),
    ])
    .unwrap();
    let summed = df.groupby(vec!["key".to_string()]).unwrap().sum().unwrap();
    assert_eq!(
        gb_int_cells(summed.column("val").unwrap()),
        vec![Some(i32::MAX)]
    );
}

#[test]
fn test_groupby_sum_empty_df() {
    let df = DataFrame::new(vec![
        Series::new_empty("key".to_string(), DataType::String),
        Series::new_empty("val".to_string(), DataType::Int32),
    ])
    .unwrap();

    let summed_df = df.groupby(vec!["key".to_string()]).unwrap().sum().unwrap();
    assert_eq!(summed_df.shape(), (0, 2));
    assert_eq!(summed_df.columns_names(), vec!["key", "val"]);
    assert_eq!(summed_df.column("val").unwrap().dtype(), DataType::Int32);
}

#[test]
fn test_groupby_sum_skips_text_columns() {
    let df = DataFrame::new(vec![
        gb_str_series("key", &["a", "b"]),
        gb_int_series("num", &[1, 2]),
        gb_str_series("txt", &["x", "y"]),
    ])
    .unwrap();
    let summed = df.groupby(vec!["key".to_string()]).unwrap().sum().unwrap();
    assert_eq!(summed.columns_names(), vec!["key", "num"]);
}

#[test]
fn test_groupby_min_max() {
    let df = DataFrame::new(vec![
        gb_str_series("key", &["a", "b", "a", "b", "a"]),
        gb_int_series("num", &[5, 2, 3, 8, 1]),
        gb_str_series("txt", &["p", "z", "q", "m", "r"]),
    ])
    .unwrap();

    let min_df = df.groupby(vec!["key".to_string()]).unwrap().min().unwrap();
    let sorted_min = min_df.sort(&vec!["key".to_string()], &vec![false]).unwrap();
    assert_eq!(
        gb_int_cells(sorted_min.column("num").unwrap()),
        vec![Some(1), Some(2)]
    );
    assert_eq!(
        gb_str_cells(sorted_min.column("txt").unwrap()),
        vec![Some("p".to_string()), Some("m".to_string())]
    );

    let max_df = df.groupby(vec!["key".to_string()]).unwrap().max().unwrap();
    let sorted_max = max_df.sort(&vec!["key".to_string()], &vec![false]).unwrap();
    assert_eq!(
        gb_int_cells(sorted_max.column("num").unwrap()),
        vec![Some(5), Some(8)]
    );
    assert_eq!(
        gb_str_cells(sorted_max.column("txt").unwrap()),
        vec![Some("r".to_string()), Some("z".to_string())]
    );
}

#[test]
fn test_groupby_min_max_with_nulls() {
    let df = DataFrame::new(vec![
        gb_str_series("key", &["a", "a", "b"]),
        Series::new_from_options(
            "val".to_string(),
            DataType::Int32,
            vec![None, Some(Scalar::Int32(7)), None],
        )
        .unwrap(),
    ])
    .unwrap();
    let min_df = df.groupby(vec!["key".to_string()]).unwrap().min().unwrap();
    let sorted = min_df.sort(&vec!["key".to_string()], &vec![false]).unwrap();
    assert_eq!(
        gb_int_cells(sorted.column("val").unwrap()),
        vec![Some(7), None]
    );
}
