use axion::{DataFrame, DataType, Scalar, Series};

fn jn_str_series(name: &str, vals: &[&str]) -> Series {
    Series::new(
        name.to_string(),
        DataType::String,
        vals.iter().map(|s| Scalar::Str(s.to_string())).collect(),
    )
    .unwrap()
}

fn jn_int_series(name: &str, vals: &[i32]) -> Series {
    Series::new(
        name.to_string(),
        DataType::Int32,
        vals.iter().map(|v| Scalar::Int32(*v)).collect(),
    )
    .unwrap()
}

fn jn_bool_series(name: &str, vals: &[bool]) -> Series {
    Series::new(
        name.to_string(),
        DataType::Bool,
        vals.iter().map(|v| Scalar::Bool(*v)).collect(),
    )
    .unwrap()
}

fn jn_int_cells(s: &Series) -> Vec<Option<i32>> {
    s.data_internal()
        .iter()
        .map(|c| match c {
            Some(Scalar::Int32(v)) => Some(*v),
            None => None,
            other => panic!("expected a 32-bit integer cell, found {:?}", other),
        })
        .collect()
}

fn jn_str_cells(s: &Series) -> Vec<Option<String>> {
    s.data_internal()
        .iter()
        .map(|c| match c {
            Some(Scalar::Str(v)) => Some(v.clone()),
            None => None,
            other => panic!("expected a text cell, found {:?}", other),
        })
        .collect()
}

#[test]
fn test_join_scenario_row_counts() {
    // left ids [a,b,c,d], right ids [c,d,e,f]: the inner join keeps the
    // two matches, the left join all four left rows with nulls for a and
    // b, the outer join all six distinct rows
    let left = DataFrame::new(vec![
        jn_str_series("id", &["a", "b", "c", "d"]),
        jn_int_series("lv", &[1, 2, 3, 4]),
    ])
    .unwrap();
    let right = DataFrame::new(vec![
        jn_str_series("id", &["c", "d", "e", "f"]),
        jn_int_series("rv", &[30, 40, 50, 60]),
    ])
    .unwrap();

    let inner = left.inner_join(&right, "id", "id").unwrap();
    assert_eq!(inner.height(), 2);
    assert_eq!(
        jn_str_cells(inner.column("id").unwrap()),
        vec![Some("c".to_string()), Some("d".to_string())]
    );
    assert_eq!(jn_int_cells(inner.column("rv").unwrap()), vec![Some(30), Some(40)]);

    let left_joined = left.left_join(&right, "id", "id").unwrap();
    assert_eq!(left_joined.height(), 4);
    assert_eq!(
        jn_int_cells(left_joined.column("rv").unwrap()),
        vec![None, None, Some(30), Some(40)]
    );

    let right_joined = left.right_join(&right, "id", "id").unwrap();
    assert_eq!(right_joined.height(), 4);
    assert_eq!(
        jn_int_cells(right_joined.column("lv").unwrap()),
        vec![Some(3), Some(4), None, None]
    );

    let outer = left.outer_join(&right, "id", "id").unwrap();
    assert_eq!(outer.height(), 6);
    // the kept key column comes from the left side, so the two
    // right-only rows carry no key value
    assert_eq!(
        jn_str_cells(outer.column("id").unwrap()),
        vec![
            Some("a".to_string()),
            Some("b".to_string()),
            Some("c".to_string()),
            Some("d".to_string()),
            None,
            None
        ]
    );
    assert_eq!(
        jn_int_cells(outer.column("lv").unwrap()),
        vec![Some(1), Some(2), Some(3), Some(4), None, None]
    );
    assert_eq!(
        jn_int_cells(outer.column("rv").unwrap()),
        vec![None, None, Some(30), Some(40), Some(50), Some(60)]
    );
}

#[test]
fn test_join_column_name_conflict() {
    let df_left = DataFrame::new(vec![
        jn_str_series("id", &["a", "b", "c", "d"]),
        jn_int_series("value", &[1, 2, 3, 4]),
        jn_int_series("left_only", &[10, 20, 30, 40]),
    ])
    .unwrap();
    let df_right = DataFrame::new(vec![
        jn_str_series("id", &["c", "d", "e", "f"]),
        jn_int_series("value", &[300, 400, 500, 600]),
        jn_bool_series("right_only", &[true, false, true, false]),
    ])
    .unwrap();

    let inner_df = df_left.inner_join(&df_right, "id", "id").unwrap();
    assert_eq!(inner_df.shape(), (2, 5));
    assert_eq!(
        inner_df.columns_names(),
        vec!["id", "value", "left_only", "value_right", "right_only"]
    );
    assert_eq!(
        jn_str_cells(inner_df.column("id").unwrap()),
        vec![Some("c".to_string()), Some("d".to_string())]
    );
    assert_eq!(
        jn_int_cells(inner_df.column("value").unwrap()),
        vec![Some(3), Some(4)]
    );
    assert_eq!(
        jn_int_cells(inner_df.column("value_right").unwrap()),
        vec![Some(300), Some(400)]
    );

    let left_df = df_left.left_join(&df_right, "id", "id").unwrap();
    assert_eq!(left_df.shape(), (4, 5));
    assert_eq!(
        left_df.columns_names(),
        vec!["id", "value", "left_only", "value_right", "right_only"]
    );
    assert_eq!(
        jn_int_cells(left_df.column("value_right").unwrap()),
        vec![None, None, Some(300), Some(400)]
    );

    let right_df = df_left.right_join(&df_right, "id", "id").unwrap();
    assert_eq!(right_df.shape(), (4, 5));
    assert_eq!(
        right_df.columns_names(),
        vec!["id", "value", "right_only", "value_left", "left_only"]
    );
    assert_eq!(
        jn_int_cells(right_df.column("value_left").unwrap()),
        vec![Some(3), Some(4), None, None]
    );
    assert_eq!(
        jn_int_cells(right_df.column("value").unwrap()),
        vec![Some(300), Some(400), Some(500), Some(600)]
    );

    let outer_df = df_left.outer_join(&df_right, "id", "id").unwrap();
    assert_eq!(outer_df.shape(), (6, 5));
    assert_eq!(
        outer_df.columns_names(),
        vec!["id", "value", "left_only", "value_right", "right_only"]
    );
    assert_eq!(outer_df.column("id").unwrap().len(), 6);
    assert_eq!(outer_df.column("value").unwrap().len(), 6);
    assert_eq!(outer_df.column("value_right").unwrap().len(), 6);
}

#[test]
fn test_join_duplicate_keys_fanout() {
    let left = DataFrame::new(vec![
        jn_str_series("k", &["x", "x"]),
        jn_int_series("l", &[1, 2]),
    ])
    .unwrap();
    let right = DataFrame::new(vec![
        jn_str_series("k", &["x", "x", "x"]),
        jn_int_series("r", &[10, 20, 30]),
    ])
    .unwrap();
    let inner = left.inner_join(&right, "k", "k").unwrap();
    assert_eq!(inner.height(), 6);
    assert_eq!(
        jn_int_cells(inner.column("l").unwrap()),
        vec![Some(1), Some(1), Some(1), Some(2), Some(2), Some(2)]
    );
    assert_eq!(
        jn_int_cells(inner.column("r").unwrap()),
        vec![Some(10), Some(20), Some(30), Some(10), Some(20), Some(30)]
    );
}

#[test]
fn test_join_key_type_error() {
    let left = DataFrame::new(vec![jn_int_series("id", &[1, 2])]).unwrap();
    let right = DataFrame::new(vec![jn_str_series("id", &["a", "b"])]).unwrap();
    let r = left.inner_join(&right, "id", "id");
    assert!(matches!(r, Err(axion::AxionError::JoinKeyTypeError { .. })));
    let r2 = right.inner_join(&left, "nope", "id");
    assert!(matches!(r2, Err(axion::AxionError::ColumnNotFound(_))));
}

#[test]
fn test_join_null_keys_match() {
    // a missing key matches a missing key, as the engine files keys by
    // their whole value
    let left = DataFrame::new(vec![
        Series::new_from_options(
            "id".to_string(),
            DataType::String,
            vec![Some(Scalar::Str("a".to_string())), None],
        )
        .unwrap(),
        jn_int_series("lv", &[1, 2]),
    ])
    .unwrap();
    let right = DataFrame::new(vec![
        Series::new_from_options(
            "id".to_string(),
            DataType::String,
            vec![None, Some(Scalar::Str("b".to_string()))],
        )
        .unwrap(),
        jn_int_series("rv", &[10, 20]),
    ])
    .unwrap();
    let inner = left.inner_join(&right, "id", "id").unwrap();
    assert_eq!(inner.height(), 1);
    assert_eq!(jn_int_cells(inner.column("lv").unwrap()), vec![Some(2)]);
    assert_eq!(jn_int_cells(inner.column("rv").unwrap()), vec![Some(10)]);
}
